//! Points in time with a fixed offset from UTC, and how they are written.

use crate::text::push_char;
use vstd::prelude::*;

verus! {

/// The granularity at which a point in time is written.
#[derive(Clone, Copy, Debug, PartialEq, Eq, Structural)]
pub enum TimeUnit {
    /// Down to the millisecond.
    Millisecond,
    /// Down to the minute.
    Minute,
}

/// A calendar date and time of day, with the offset of its time zone from
/// UTC in seconds.
#[derive(Clone, Copy, Debug, PartialEq, Eq, Structural)]
pub struct Datetime {
    pub year: u16,
    pub month: u8,
    pub day: u8,
    pub hour: u8,
    pub minute: u8,
    pub second: u8,
    pub nanosecond: u32,
    pub offset_seconds: i32,
}

/// The character of the decimal digit `d`.
pub open spec fn digit(d: int) -> char {
    ((48 + d) as u8) as char
}

/// `n` written with two decimal digits.
pub open spec fn two_digits(n: int) -> Seq<char> {
    seq![digit(n / 10 % 10), digit(n % 10)]
}

/// `n` written with three decimal digits.
pub open spec fn three_digits(n: int) -> Seq<char> {
    seq![digit(n / 100 % 10), digit(n / 10 % 10), digit(n % 10)]
}

/// `n` written with four decimal digits.
pub open spec fn four_digits(n: int) -> Seq<char> {
    seq![digit(n / 1000 % 10), digit(n / 100 % 10), digit(n / 10 % 10), digit(n % 10)]
}

/// The offset `seconds` from UTC, written as a sign, hours and minutes.
pub open spec fn offset_text(seconds: int) -> Seq<char> {
    let magnitude = if seconds < 0 {
        -seconds
    } else {
        seconds
    };
    seq![if seconds < 0 {
        '-'
    } else {
        '+'
    }] + two_digits(magnitude / 3600) + seq![':'] + two_digits(magnitude / 60 % 60)
}

/// A point in time in ISO 8601 form, cut off at the granularity `unit`:
/// `2024-03-09T07:05+01:00` to the minute,
/// `2024-03-09T07:05:02.040+01:00` to the millisecond.
pub open spec fn iso_time_text(t: Datetime, unit: TimeUnit) -> Seq<char> {
    let date = four_digits(t.year as int) + seq!['-'] + two_digits(t.month as int) + seq!['-']
        + two_digits(t.day as int);
    let minutes = seq!['T'] + two_digits(t.hour as int) + seq![':'] + two_digits(t.minute as int);
    let rest = match unit {
        TimeUnit::Minute => Seq::<char>::empty(),
        TimeUnit::Millisecond => seq![':'] + two_digits(t.second as int) + seq!['.']
            + three_digits(t.nanosecond as int / 1_000_000),
    };
    date + minutes + rest + offset_text(t.offset_seconds as int)
}

impl Datetime {
    /// The fields are those of a date, a time of day and an offset of less
    /// than a day.
    pub open spec fn valid(self) -> bool {
        &&& self.year <= 9999
        &&& 1 <= self.month <= 12
        &&& 1 <= self.day <= 31
        &&& self.hour <= 23
        &&& self.minute <= 59
        &&& self.second <= 59
        &&& self.nanosecond <= 999_999_999
        &&& -86_400 < self.offset_seconds < 86_400
    }

    /// Whether the fields are those of a date, a time of day and an offset
    /// of less than a day.
    pub fn is_valid(&self) -> (r: bool)
        ensures
            r == self.valid(),
    {
        self.year <= 9999 && 1 <= self.month && self.month <= 12 && 1 <= self.day && self.day <= 31
            && self.hour <= 23 && self.minute <= 59 && self.second <= 59 && self.nanosecond
            <= 999_999_999 && -86_400 < self.offset_seconds && self.offset_seconds < 86_400
    }
}

/// Appends the decimal digit `d`.
fn push_digit(s: &mut String, d: u32)
    requires
        d <= 9,
    ensures
        final(s)@ == old(s)@.push(digit(d as int)),
{
    let b: u8 = 48 + (d as u8);
    push_char(s, b as char);
}

/// Appends `n` with two decimal digits.
fn push_two(s: &mut String, n: u32)
    ensures
        final(s)@ == old(s)@ + two_digits(n as int),
{
    push_digit(s, n / 10 % 10);
    push_digit(s, n % 10);
    assert(s@ =~= old(s)@ + two_digits(n as int));
}

/// Writes a point in time in ISO 8601 form at the given granularity.
pub fn get_iso_time_string(t: Datetime, unit: TimeUnit) -> (r: String)
    ensures
        r@ == iso_time_text(t, unit),
{
    let mut s = String::new();
    let year: u32 = t.year as u32;
    push_two(&mut s, year / 100);
    push_two(&mut s, year);
    assert(s@ =~= four_digits(t.year as int));
    push_char(&mut s, '-');
    push_two(&mut s, t.month as u32);
    push_char(&mut s, '-');
    push_two(&mut s, t.day as u32);
    push_char(&mut s, 'T');
    push_two(&mut s, t.hour as u32);
    push_char(&mut s, ':');
    push_two(&mut s, t.minute as u32);
    match unit {
        TimeUnit::Minute => {},
        TimeUnit::Millisecond => {
            push_char(&mut s, ':');
            push_two(&mut s, t.second as u32);
            push_char(&mut s, '.');
            let millis: u32 = t.nanosecond / 1_000_000;
            push_digit(&mut s, millis / 100 % 10);
            push_two(&mut s, millis);
        },
    }
    let negative = t.offset_seconds < 0;
    let magnitude: u32 = if negative {
        if t.offset_seconds == i32::MIN {
            2_147_483_648u32
        } else {
            (-t.offset_seconds) as u32
        }
    } else {
        t.offset_seconds as u32
    };
    push_char(&mut s, if negative { '-' } else { '+' });
    push_two(&mut s, magnitude / 3600);
    push_char(&mut s, ':');
    push_two(&mut s, magnitude / 60 % 60);
    assert(s@ =~= iso_time_text(t, unit));
    s
}

} // verus!
