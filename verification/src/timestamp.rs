//! The request timestamp: a single local-clock instant, held as plain
//! calendar fields and formatted into the `YYYY-MM-DD` date and the
//! `YYMMDDHHmm` entry id that one save uses throughout.

use vstd::prelude::*;
use vstd::string::StringExecFns;
use chrono::{Datelike, Timelike};

verus! {

/// One instant of the local clock, at minute granularity.
#[derive(Clone, Copy, Debug, PartialEq, Eq, Structural)]
pub struct Timestamp {
    pub year: u32,
    pub month: u32,
    pub day: u32,
    pub hour: u32,
    pub minute: u32,
}

impl Timestamp {
    /// Field ranges of a calendar instant this crate can format.
    pub open spec fn wf(self) -> bool {
        &&& self.year <= 9999
        &&& 1 <= self.month <= 12
        &&& 1 <= self.day <= 31
        &&& self.hour <= 23
        &&& self.minute <= 59
    }
}

/// The character for one decimal digit.
pub open spec fn digit_char(d: int) -> char {
    if d == 0 {
        '0'
    } else if d == 1 {
        '1'
    } else if d == 2 {
        '2'
    } else if d == 3 {
        '3'
    } else if d == 4 {
        '4'
    } else if d == 5 {
        '5'
    } else if d == 6 {
        '6'
    } else if d == 7 {
        '7'
    } else if d == 8 {
        '8'
    } else {
        '9'
    }
}

/// A number under 100 as two zero-padded decimal digits.
pub open spec fn two_digits(n: int) -> Seq<char> {
    seq![digit_char(n / 10), digit_char(n % 10)]
}

/// A number under 10000 as four zero-padded decimal digits.
pub open spec fn four_digits(n: int) -> Seq<char> {
    seq![
        digit_char(n / 1000),
        digit_char((n / 100) % 10),
        digit_char((n / 10) % 10),
        digit_char(n % 10),
    ]
}

/// The `YYYY-MM-DD` date of a timestamp.
pub open spec fn date_seq(ts: Timestamp) -> Seq<char> {
    four_digits(ts.year as int) + seq!['-'] + two_digits(ts.month as int) + seq!['-']
        + two_digits(ts.day as int)
}

/// The `YYMMDDHHmm` entry id of a timestamp.
pub open spec fn entry_id_seq(ts: Timestamp) -> Seq<char> {
    two_digits((ts.year as int) % 100) + two_digits(ts.month as int) + two_digits(ts.day as int)
        + two_digits(ts.hour as int) + two_digits(ts.minute as int)
}

/// One decimal digit as a string.
fn digit_str(d: u32) -> (r: &'static str)
    requires
        d < 10,
    ensures
        r@ == seq![digit_char(d as int)],
{
    proof {
        reveal_strlit("0");
        reveal_strlit("1");
        reveal_strlit("2");
        reveal_strlit("3");
        reveal_strlit("4");
        reveal_strlit("5");
        reveal_strlit("6");
        reveal_strlit("7");
        reveal_strlit("8");
        reveal_strlit("9");
    }
    let r = match d {
        0 => "0",
        1 => "1",
        2 => "2",
        3 => "3",
        4 => "4",
        5 => "5",
        6 => "6",
        7 => "7",
        8 => "8",
        _ => "9",
    };
    proof {
        assert(r@ =~= seq![digit_char(d as int)]);
    }
    r
}

/// Appends `n` as two zero-padded digits.
fn append_two_digits(out: &mut String, n: u32)
    requires
        n < 100,
    ensures
        final(out)@ == old(out)@ + two_digits(n as int),
{
    out.append(digit_str(n / 10));
    out.append(digit_str(n % 10));
    proof {
        assert(old(out)@ + seq![digit_char(n as int / 10)] + seq![digit_char(n as int % 10)]
            =~= old(out)@ + two_digits(n as int));
    }
}

impl Timestamp {
    /// The `YYYY-MM-DD` date string, day granularity.
    pub fn date_string(&self) -> (r: String)
        requires
            self.wf(),
        ensures
            r@ == date_seq(*self),
    {
        let mut out = String::new();
        out.append(digit_str(self.year / 1000));
        out.append(digit_str((self.year / 100) % 10));
        out.append(digit_str((self.year / 10) % 10));
        out.append(digit_str(self.year % 10));
        out.append("-");
        append_two_digits(&mut out, self.month);
        out.append("-");
        append_two_digits(&mut out, self.day);
        proof {
            reveal_strlit("-");
            assert(out@ =~= date_seq(*self));
        }
        out
    }

    /// The `YYMMDDHHmm` entry id string, minute granularity.
    pub fn entry_id_string(&self) -> (r: String)
        requires
            self.wf(),
        ensures
            r@ == entry_id_seq(*self),
    {
        let mut out = String::new();
        append_two_digits(&mut out, self.year % 100);
        append_two_digits(&mut out, self.month);
        append_two_digits(&mut out, self.day);
        append_two_digits(&mut out, self.hour);
        append_two_digits(&mut out, self.minute);
        proof {
            assert(out@ =~= entry_id_seq(*self));
        }
        out
    }
}

/// Relies on `chrono::Local::now` and chrono's `Datelike` / `Timelike`
/// accessors for the current local year, month (1 to 12), day of month
/// (1 to 31), hour (0 to 23) and minute (0 to 59), all read from one
/// instant. The result depends on the clock, so only the documented field
/// ranges are stated.
#[verifier::external_body]
fn local_now_fields() -> (r: (i32, u32, u32, u32, u32))
    ensures
        1 <= r.1 <= 12,
        1 <= r.2 <= 31,
        r.3 <= 23,
        r.4 <= 59,
{
    let now = chrono::Local::now();
    (now.year(), now.month(), now.day(), now.hour(), now.minute())
}

/// Builds a timestamp from raw calendar fields: exactly the years this
/// crate can format as four digits are accepted, and the fields are carried
/// over unchanged.
pub fn timestamp_from_fields(year: i32, month: u32, day: u32, hour: u32, minute: u32) -> (r:
    Option<Timestamp>)
    ensures
        0 <= year <= 9999 ==> r == Some(
            (Timestamp { year: year as u32, month, day, hour, minute }),
        ),
        !(0 <= year <= 9999) ==> r is None,
{
    if 0 <= year && year <= 9999 {
        Some(
            Timestamp {
                year: year as u32,
                month,
                day,
                hour,
                minute,
            },
        )
    } else {
        None
    }
}

/// Reads the local clock once and returns the calendar fields of that
/// instant, or `None` for a year this crate cannot format.
pub fn current_timestamp() -> (r: Option<Timestamp>)
    ensures
        r matches Some(ts) ==> ts.wf(),
{
    let (year, month, day, hour, minute) = local_now_fields();
    timestamp_from_fields(year, month, day, hour, minute)
}

} // verus!
