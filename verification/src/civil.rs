//! Civil-time conversion: turning a clock reading in seconds since the
//! epoch into the calendar fields the engine renders. Every reading up
//! to the last second of year 9999 yields a timestamp that provably
//! denotes exactly that reading; later readings yield nothing.

use vstd::prelude::*;
use crate::timestamp::Timestamp;

verus! {

/// The last clock reading the calendar holds: 9999-12-31 23:59:59.
pub const MAX_EPOCH_SECS: u64 = 253402300799;

/// Whether a year is a Gregorian leap year.
pub open spec fn is_leap(y: int) -> bool {
    y % 4 == 0 && (y % 100 != 0 || y % 400 == 0)
}

/// How many days the given month of the given year has.
pub open spec fn days_in_month(y: int, m: int) -> int {
    if m == 2 {
        if is_leap(y) {
            29
        } else {
            28
        }
    } else if m == 4 || m == 6 || m == 9 || m == 11 {
        30
    } else {
        31
    }
}

/// A timestamp whose calendar fields denote a real day.
pub open spec fn valid_civil(ts: Timestamp) -> bool {
    ts.wf() && ts.day as int <= days_in_month(ts.year as int, ts.month as int)
}

/// The day number of a proleptic Gregorian calendar date, counting
/// from 0000-03-01 as day 0; 1970-01-01 is day 719468.
pub open spec fn rata_die(y: int, m: int, d: int) -> int {
    let yy = if m <= 2 {
        y - 1
    } else {
        y
    };
    let era = yy / 400;
    let yoe = yy - era * 400;
    let mp = if m > 2 {
        m - 3
    } else {
        m + 9
    };
    let doy = (153 * mp + 2) / 5 + d - 1;
    let doe = yoe * 365 + yoe / 4 - yoe / 100 + doy;
    era * 146097 + doe
}

/// The seconds since 1970-01-01 00:00:00 that a timestamp denotes.
pub open spec fn epoch_secs_of(ts: Timestamp) -> int {
    (rata_die(ts.year as int, ts.month as int, ts.day as int) - 719468) * 86400 + ts.hour as int
        * 3600 + ts.minute as int * 60 + ts.second as int
}

/// The day of the month enters the day number linearly.
pub proof fn lemma_rata_die_day(y: int, m: int, d: int)
    ensures
        rata_die(y, m, d) == rata_die(y, m, 1) + d - 1,
{
}

/// Stepping to the next month advances the day number by exactly the
/// month's length; from December it reaches January 1 of the next year.
pub proof fn lemma_rata_die_month_step(y: int, m: int)
    requires
        1 <= y,
        1 <= m <= 12,
    ensures
        rata_die(y, m, 1) + days_in_month(y, m) == (if m < 12 {
            rata_die(y, m + 1, 1)
        } else {
            rata_die(y + 1, 1, 1)
        }),
{
    if m == 2 {
        let e2 = (y - 1) / 400;
        let r2 = (y - 1) % 400;
        if r2 == 399 {
            assert(y == 400 * (e2 + 1));
            assert(y / 400 == e2 + 1);
            assert(y % 400 == 0);
            assert(y % 4 == 0);
        } else {
            assert(y / 400 == e2);
            assert(y % 400 == r2 + 1);
            assert(y % 4 == (r2 + 1) % 4);
            assert(y % 100 == (r2 + 1) % 100);
        }
    }
}

fn rata_die_exec(y: u64, m: u64, d: u64) -> (r: u64)
    requires
        1 <= y <= 9999,
        1 <= m <= 12,
        1 <= d <= 31,
    ensures
        r as int == rata_die(y as int, m as int, d as int),
{
    let yy: u64 = if m <= 2 {
        y - 1
    } else {
        y
    };
    let era: u64 = yy / 400;
    let yoe: u64 = yy - era * 400;
    let mp: u64 = if m > 2 {
        m - 3
    } else {
        m + 9
    };
    let doy: u64 = (153 * mp + 2) / 5 + d - 1;
    let doe: u64 = yoe * 365 + yoe / 4 - yoe / 100 + doy;
    era * 146097 + doe
}

/// Break a clock reading in seconds since 1970-01-01 00:00:00 into
/// calendar fields. Every reading up to [`MAX_EPOCH_SECS`] yields a
/// timestamp; a returned timestamp is a real calendar day and denotes
/// exactly the given reading.
pub fn civil_of_epoch(secs: u64) -> (r: Option<Timestamp>)
    ensures
        r matches Some(ts) ==> valid_civil(ts) && epoch_secs_of(ts) == secs as int,
        secs <= MAX_EPOCH_SECS ==> r is Some,
{
    let days: u64 = secs / 86400;
    let rem: u64 = secs % 86400;
    if days > 2932896 {
        // the reading lies beyond 9999-12-31
        proof {
            assert(secs > MAX_EPOCH_SECS);
        }
        return None;
    }
    let z: u64 = days + 719468;
    proof {
        assert(rata_die(1970, 1, 1) == 719468);
    }
    // find the year: z lies in [rata_die(y, 1, 1), rata_die(y + 1, 1, 1))
    let mut y: u64 = 1970;
    while y < 9999 && rata_die_exec(y + 1, 1, 1) <= z
        invariant
            1970 <= y <= 9999,
            z <= 3652364,
            rata_die(y as int, 1, 1) <= z as int,
        decreases 9999 - y,
    {
        y = y + 1;
    }
    proof {
        if y == 9999 {
            assert(rata_die(10000, 1, 1) == 3652365);
        }
        assert((z as int) < rata_die(y as int + 1, 1, 1));
    }
    // find the month: z lies in [rata_die(y, m, 1), rata_die(y, m + 1, 1))
    let mut m: u64 = 1;
    while m < 12 && rata_die_exec(y, m + 1, 1) <= z
        invariant
            1970 <= y <= 9999,
            1 <= m <= 12,
            rata_die(y as int, m as int, 1) <= z as int,
            (z as int) < rata_die(y as int + 1, 1, 1),
        decreases 12 - m,
    {
        m = m + 1;
    }
    proof {
        lemma_rata_die_month_step(y as int, m as int);
        assert((z as int) < rata_die(y as int, m as int, 1) + days_in_month(
            y as int,
            m as int,
        ));
    }
    let base: u64 = rata_die_exec(y, m, 1);
    let d: u64 = z - base + 1;
    let hour: u64 = rem / 3600;
    let r1: u64 = rem % 3600;
    let minute: u64 = r1 / 60;
    let second: u64 = r1 % 60;
    let ts = Timestamp {
        year: y as u32,
        month: m as u8,
        day: d as u8,
        hour: hour as u8,
        minute: minute as u8,
        second: second as u8,
    };
    proof {
        lemma_rata_die_day(y as int, m as int, d as int);
        assert(rata_die(y as int, m as int, d as int) == z as int);
        assert(hour <= 23);
        assert(minute <= 59);
        assert(second <= 59);
        assert(valid_civil(ts));
        assert(secs == days * 86400 + rem);
        assert(rem == hour * 3600 + r1);
        assert(r1 == minute * 60 + second);
        assert(epoch_secs_of(ts) == secs as int);
    }
    Some(ts)
}

} // verus!
