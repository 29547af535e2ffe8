use sortery::civil::civil_of_epoch;
use sortery::timestamp::Timestamp;

fn fields(ts: &Timestamp) -> (u32, u8, u8, u8, u8, u8) {
    (ts.year, ts.month, ts.day, ts.hour, ts.minute, ts.second)
}

#[test]
fn epoch_start() {
    let ts = civil_of_epoch(0).unwrap();
    assert_eq!(fields(&ts), (1970, 1, 1, 0, 0, 0));
}

#[test]
fn next_day_with_time() {
    let ts = civil_of_epoch(90061).unwrap();
    assert_eq!(fields(&ts), (1970, 1, 2, 1, 1, 1));
}

#[test]
fn modern_date() {
    let ts = civil_of_epoch(1709804465).unwrap();
    assert_eq!(fields(&ts), (2024, 3, 7, 9, 41, 5));
}

#[test]
fn leap_day() {
    let ts = civil_of_epoch(1709208000).unwrap();
    assert_eq!(fields(&ts), (2024, 2, 29, 12, 0, 0));
}

#[test]
fn last_supported_second() {
    let ts = civil_of_epoch(253402300799).unwrap();
    assert_eq!(fields(&ts), (9999, 12, 31, 23, 59, 59));
}

#[test]
fn month_and_year_boundaries() {
    let ts = civil_of_epoch(1677628799).unwrap();
    assert_eq!(fields(&ts), (2023, 2, 28, 23, 59, 59));
    let ts = civil_of_epoch(1677628800).unwrap();
    assert_eq!(fields(&ts), (2023, 3, 1, 0, 0, 0));
    let ts = civil_of_epoch(1714521599).unwrap();
    assert_eq!(fields(&ts), (2024, 4, 30, 23, 59, 59));
    let ts = civil_of_epoch(1714521600).unwrap();
    assert_eq!(fields(&ts), (2024, 5, 1, 0, 0, 0));
    let ts = civil_of_epoch(1735689599).unwrap();
    assert_eq!(fields(&ts), (2024, 12, 31, 23, 59, 59));
    let ts = civil_of_epoch(1735689600).unwrap();
    assert_eq!(fields(&ts), (2025, 1, 1, 0, 0, 0));
}

#[test]
fn beyond_year_9999_is_none() {
    assert!(civil_of_epoch(253402300800).is_none());
    assert!(civil_of_epoch(u64::MAX).is_none());
}
