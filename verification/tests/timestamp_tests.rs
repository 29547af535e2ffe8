use sortery::timestamp::{format_timestamp, Timestamp};

#[test]
fn format_default_pattern() {
    let ts = Timestamp::new(2021, 2, 3, 4, 5, 6);
    assert_eq!(format_timestamp("%Y-%m-%d %Hh%Mm%Ss", &ts), "2021-02-03 04h05m06s");
}

#[test]
fn format_date_only() {
    let ts = Timestamp::new(2024, 3, 7, 23, 59, 1);
    assert_eq!(format_timestamp("%Y-%m-%d", &ts), "2024-03-07");
}

#[test]
fn format_literal_percent_and_tail() {
    let ts = Timestamp::new(2024, 1, 1, 0, 0, 0);
    assert_eq!(format_timestamp("100%%", &ts), "100%");
    assert_eq!(format_timestamp("abc%", &ts), "abc%");
}

#[test]
fn format_keeps_unknown_directive() {
    let ts = Timestamp::new(2024, 1, 1, 0, 0, 0);
    assert_eq!(format_timestamp("%q-%d", &ts), "%q-01");
}

#[test]
fn format_plain_text_unchanged() {
    let ts = Timestamp::new(2024, 1, 1, 0, 0, 0);
    assert_eq!(format_timestamp("holiday photos", &ts), "holiday photos");
}
