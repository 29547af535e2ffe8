//! A filesystem timestamp as plain civil-time fields, and the rendering
//! of such a timestamp through a strftime-like pattern.

use vstd::prelude::*;
use crate::text::{digit_char, push_char};

verus! {

/// One filesystem timestamp, broken into civil fields. How a clock
/// reading becomes these fields is the caller's concern; the engine
/// only renders them.
#[derive(Clone, Copy, PartialEq, Eq, Structural, Debug)]
pub struct Timestamp {
    pub year: u32,
    pub month: u8,
    pub day: u8,
    pub hour: u8,
    pub minute: u8,
    pub second: u8,
}

impl Timestamp {
    /// The fields lie in the usual civil ranges.
    pub open spec fn wf(self) -> bool {
        &&& self.year <= 9999
        &&& 1 <= self.month <= 12
        &&& 1 <= self.day <= 31
        &&& self.hour <= 23
        &&& self.minute <= 59
        &&& self.second <= 59
    }

    /// Build a timestamp from its civil fields.
    pub fn new(year: u32, month: u8, day: u8, hour: u8, minute: u8, second: u8) -> (r: Timestamp)
        requires
            year <= 9999,
            1 <= month <= 12,
            1 <= day <= 31,
            hour <= 23,
            minute <= 59,
            second <= 59,
        ensures
            r == (Timestamp { year, month, day, hour, minute, second }),
            r.wf(),
    {
        Timestamp { year, month, day, hour, minute, second }
    }
}

/// A number rendered as exactly two decimal digits (its last two).
pub open spec fn two_digits(n: int) -> Seq<char> {
    seq![digit_char((n / 10) % 10), digit_char(n % 10)]
}

/// A number rendered as exactly four decimal digits (its last four).
pub open spec fn four_digits(n: int) -> Seq<char> {
    seq![
        digit_char((n / 1000) % 10),
        digit_char((n / 100) % 10),
        digit_char((n / 10) % 10),
        digit_char(n % 10),
    ]
}

/// What one `%`-directive expands to: `%Y` the four-digit year, `%m`,
/// `%d`, `%H`, `%M`, `%S` the two-digit month, day, hour, minute and
/// second, `%%` a literal percent sign. An unknown directive is kept
/// verbatim.
pub open spec fn directive(c: char, ts: Timestamp) -> Seq<char> {
    if c == 'Y' {
        four_digits(ts.year as int)
    } else if c == 'm' {
        two_digits(ts.month as int)
    } else if c == 'd' {
        two_digits(ts.day as int)
    } else if c == 'H' {
        two_digits(ts.hour as int)
    } else if c == 'M' {
        two_digits(ts.minute as int)
    } else if c == 'S' {
        two_digits(ts.second as int)
    } else if c == '%' {
        seq!['%']
    } else {
        seq!['%', c]
    }
}

/// The rendering of a whole pattern: literal characters are copied, a
/// `%` consumes the next character as a directive, and a trailing `%`
/// is kept as itself.
pub open spec fn format_spec(fmt: Seq<char>, ts: Timestamp) -> Seq<char>
    decreases fmt.len(),
{
    if fmt.len() == 0 {
        Seq::empty()
    } else if fmt[0] == '%' {
        if fmt.len() == 1 {
            seq!['%']
        } else {
            directive(fmt[1], ts) + format_spec(fmt.skip(2), ts)
        }
    } else {
        seq![fmt[0]] + format_spec(fmt.skip(1), ts)
    }
}

fn digit_of(n: u32) -> (r: char)
    ensures
        r == digit_char((n % 10) as int),
{
    let d = n % 10;
    ((48 + d) as u8) as char
}

fn append_two_digits(s: &mut String, n: u32)
    ensures
        final(s)@ == old(s)@ + two_digits(n as int),
{
    push_char(s, digit_of(n / 10));
    push_char(s, digit_of(n));
    proof {
        assert(final(s)@ =~= old(s)@ + two_digits(n as int));
    }
}

fn append_four_digits(s: &mut String, n: u32)
    ensures
        final(s)@ == old(s)@ + four_digits(n as int),
{
    push_char(s, digit_of(n / 1000));
    push_char(s, digit_of(n / 100));
    push_char(s, digit_of(n / 10));
    push_char(s, digit_of(n));
    proof {
        assert(final(s)@ =~= old(s)@ + four_digits(n as int));
    }
}

fn append_directive(s: &mut String, c: char, ts: &Timestamp)
    ensures
        final(s)@ == old(s)@ + directive(c, *ts),
{
    if c == 'Y' {
        append_four_digits(s, ts.year);
    } else if c == 'm' {
        append_two_digits(s, ts.month as u32);
    } else if c == 'd' {
        append_two_digits(s, ts.day as u32);
    } else if c == 'H' {
        append_two_digits(s, ts.hour as u32);
    } else if c == 'M' {
        append_two_digits(s, ts.minute as u32);
    } else if c == 'S' {
        append_two_digits(s, ts.second as u32);
    } else if c == '%' {
        push_char(s, '%');
        proof {
            assert(final(s)@ =~= old(s)@ + directive(c, *ts));
        }
    } else {
        push_char(s, '%');
        push_char(s, c);
        proof {
            assert(final(s)@ =~= old(s)@ + directive(c, *ts));
        }
    }
}

/// Render the chosen timestamp through the pattern.
pub fn format_timestamp(fmt: &str, ts: &Timestamp) -> (r: String)
    ensures
        r@ == format_spec(fmt@, *ts),
{
    let n: usize = fmt.unicode_len();
    let mut out = String::new();
    let mut i: usize = 0;
    proof {
        assert(fmt@.skip(0) =~= fmt@);
    }
    while i < n
        invariant
            i <= n,
            n == fmt@.len(),
            out@ + format_spec(fmt@.skip(i as int), *ts) == format_spec(fmt@, *ts),
        decreases n - i,
    {
        let ghost rest = fmt@.skip(i as int);
        let c = fmt.get_char(i);
        proof {
            assert(rest[0] == fmt@[i as int]);
        }
        if c == '%' {
            if i + 1 < n {
                let c2 = fmt.get_char(i + 1);
                proof {
                    assert(rest[1] == fmt@[i + 1]);
                    assert(rest.skip(2) =~= fmt@.skip(i + 2));
                }
                append_directive(&mut out, c2, ts);
                i = i + 2;
            } else {
                push_char(&mut out, '%');
                proof {
                    assert(rest.len() == 1);
                    assert(fmt@.skip(n as int) =~= Seq::<char>::empty());
                }
                i = i + 1;
            }
        } else {
            push_char(&mut out, c);
            proof {
                assert(rest.skip(1) =~= fmt@.skip(i + 1));
                assert(out@ + format_spec(fmt@.skip(i + 1), *ts) =~= format_spec(fmt@, *ts));
            }
            i = i + 1;
        }
    }
    proof {
        assert(fmt@.skip(n as int) =~= Seq::<char>::empty());
    }
    out
}

} // verus!
