//! The request timestamp: a UTC instant formatted as `YYYY-MM-DDTHH:MM:SS`,
//! second precision, no fractional seconds and no zone suffix — the exact
//! format the exchange's verifier demands.

use chrono::Datelike;
use chrono::Timelike;
use vstd::prelude::*;

verus! {

use crate::encoding::hex_digit;

/// A UTC instant broken into its calendar and clock fields.
#[derive(Clone, Copy)]
pub struct DateParts {
    pub year: u32,
    pub month: u32,
    pub day: u32,
    pub hour: u32,
    pub minute: u32,
    pub second: u32,
}

impl DateParts {
    /// The fields describe a calendar date and a time of day, with a year
    /// the four-digit format can carry.
    pub open spec fn wf(self) -> bool {
        self.year <= 9999 && 1 <= self.month <= 12 && 1 <= self.day <= 31 && self.hour <= 23
            && self.minute <= 59 && self.second <= 59
    }
}

/// The decimal digit character for the last digit of a number.
pub open spec fn dec_digit(n: int) -> char {
    hex_digit((n % 10) as u8)
}

/// The 19 characters `YYYY-MM-DDTHH:MM:SS` for an instant.
pub open spec fn timestamp_chars(p: DateParts) -> Seq<char> {
    seq![
        dec_digit(p.year as int / 1000),
        dec_digit(p.year as int / 100),
        dec_digit(p.year as int / 10),
        dec_digit(p.year as int),
        '-',
        dec_digit(p.month as int / 10),
        dec_digit(p.month as int),
        '-',
        dec_digit(p.day as int / 10),
        dec_digit(p.day as int),
        'T',
        dec_digit(p.hour as int / 10),
        dec_digit(p.hour as int),
        ':',
        dec_digit(p.minute as int / 10),
        dec_digit(p.minute as int),
        ':',
        dec_digit(p.second as int / 10),
        dec_digit(p.second as int),
    ]
}

fn push_digit(out: &mut String, n: u32)
    ensures
        final(out)@ == old(out)@ + seq![dec_digit(n as int)],
{
    let d: u8 = (n % 10) as u8;
    crate::encoding::push_char(out, crate::encoding::hex_digit_char(d));
}

/// Format an instant as `YYYY-MM-DDTHH:MM:SS`: each field zero-padded to
/// its width, `T` between date and time, no fractional seconds, no zone.
pub fn format_timestamp(p: DateParts) -> (r: String)
    ensures
        r@ == timestamp_chars(p),
{
    let mut out = String::new();
    push_digit(&mut out, p.year / 1000);
    push_digit(&mut out, p.year / 100);
    push_digit(&mut out, p.year / 10);
    push_digit(&mut out, p.year);
    crate::encoding::push_char(&mut out, '-');
    push_digit(&mut out, p.month / 10);
    push_digit(&mut out, p.month);
    crate::encoding::push_char(&mut out, '-');
    push_digit(&mut out, p.day / 10);
    push_digit(&mut out, p.day);
    crate::encoding::push_char(&mut out, 'T');
    push_digit(&mut out, p.hour / 10);
    push_digit(&mut out, p.hour);
    crate::encoding::push_char(&mut out, ':');
    push_digit(&mut out, p.minute / 10);
    push_digit(&mut out, p.minute);
    crate::encoding::push_char(&mut out, ':');
    push_digit(&mut out, p.second / 10);
    push_digit(&mut out, p.second);
    proof {
        assert(out@ =~= timestamp_chars(p));
    }
    out
}

/// Relies on `chrono`: `DateTime::from_timestamp` gives the UTC time for a
/// Unix timestamp, and the `Datelike`/`Timelike` accessors return the month
/// in `1..=12`, the day in `1..=31`, the hour below 24, and the minute and
/// second below 60.  The year carries no documented bound.  A system clock
/// before the epoch or past year 9999 is pinned to the nearest instant of
/// that range rather than reaching a panic.
#[verifier::external_body]
fn utc_now_parts() -> (r: (i32, u32, u32, u32, u32, u32))
    ensures
        1 <= r.1 <= 12,
        1 <= r.2 <= 31,
        r.3 <= 23,
        r.4 <= 59,
        r.5 <= 59,
{
    let secs = match std::time::SystemTime::now().duration_since(std::time::UNIX_EPOCH) {
        Ok(since_epoch) => since_epoch.as_secs().min(253_402_300_799),
        Err(_) => 0,
    };
    let now = match chrono::DateTime::from_timestamp(secs as i64, 0) {
        Some(now) => now,
        None => chrono::DateTime::UNIX_EPOCH,
    };
    (now.year(), now.month(), now.day(), now.hour(), now.minute(), now.second())
}

/// The current UTC time in the exchange's timestamp format.  Whatever
/// instant the clock reports, the result is the exact 19-character text of
/// an instant; a year outside the four-digit range is pinned to it.
pub fn get_timestamp() -> (r: String)
    ensures
        exists|p: DateParts| p.wf() && r@ == timestamp_chars(p),
{
    let (y, mo, d, h, mi, s) = utc_now_parts();
    let year: u32 = if y < 0 {
        0
    } else if y > 9999 {
        9999
    } else {
        y as u32
    };
    let p = DateParts { year, month: mo, day: d, hour: h, minute: mi, second: s };
    let out = format_timestamp(p);
    proof {
        assert(p.wf() && out@ == timestamp_chars(p));
    }
    out
}

} // verus!
