//! The resolved timestamp of a photo, and its rendering.
//!
//! A `Timestamp` holds a calendar date and a time of day in UTC as plain numbers. The
//! text of its fields is produced by chrono; `rendered` states what that text is.

use vstd::prelude::*;
use crate::text::{chars_of, zero_padded};

verus! {

/// The first year chrono's calendar reaches.
pub open spec fn min_year() -> int {
    -262143
}

/// The last year chrono's calendar reaches.
pub open spec fn max_year() -> int {
    262142
}

/// Whether `year` has a 29th of February in the proleptic Gregorian calendar.
pub open spec fn is_leap_year(year: int) -> bool {
    year % 4 == 0 && (year % 100 != 0 || year % 400 == 0)
}

/// The number of days of `month` (1 to 12) in `year`.
pub open spec fn days_in_month(year: int, month: int) -> int {
    if month == 2 {
        if is_leap_year(year) {
            29
        } else {
            28
        }
    } else if month == 4 || month == 6 || month == 9 || month == 11 {
        30
    } else {
        31
    }
}

/// A date and time of day in UTC. A leap second is written as second 59 with a
/// nanosecond of 1,000,000,000 or more.
#[derive(Clone, Copy, Debug, PartialEq, Eq, Structural)]
pub struct Timestamp {
    pub year: i32,
    pub month: u32,
    pub day: u32,
    pub hour: u32,
    pub minute: u32,
    pub second: u32,
    pub nanosecond: u32,
}

/// The year as `%Y` writes it: four digits from 0 to 9999, and a sign followed by at
/// least four digits outside that range.
pub open spec fn year_text(year: int) -> Seq<char> {
    if 0 <= year <= 9999 {
        zero_padded(year as nat, 4)
    } else if year > 9999 {
        seq!['+'] + zero_padded(year as nat, 4)
    } else {
        seq!['-'] + zero_padded((-year) as nat, 4)
    }
}

/// Whether `%` followed by `letter` is a field this library renders.
pub open spec fn is_field_letter(letter: char) -> bool {
    letter == 'Y' || letter == 'm' || letter == 'd' || letter == 'H' || letter == 'M' || letter
        == 'S' || letter == 'f'
}

/// The text of one field of `ts`: `Y` year, `m` month, `d` day, `H` hour, `M` minute,
/// `S` second (60 during a leap second), `f` nanoseconds since the last whole second in
/// nine digits.
pub open spec fn field_text(letter: char, ts: Timestamp) -> Seq<char> {
    if letter == 'Y' {
        year_text(ts.year as int)
    } else if letter == 'm' {
        zero_padded(ts.month as nat, 2)
    } else if letter == 'd' {
        zero_padded(ts.day as nat, 2)
    } else if letter == 'H' {
        zero_padded(ts.hour as nat, 2)
    } else if letter == 'M' {
        zero_padded(ts.minute as nat, 2)
    } else if letter == 'S' {
        zero_padded((ts.second + ts.nanosecond / 1_000_000_000) as nat, 2)
    } else {
        zero_padded((ts.nanosecond % 1_000_000_000) as nat, 9)
    }
}

/// Whether `pattern` is made of plain characters and of the fields `%Y %m %d %H %M %S
/// %f` alone.
pub open spec fn is_pattern(pattern: Seq<char>) -> bool
    decreases pattern.len(),
{
    if pattern.len() == 0 {
        true
    } else if pattern[0] == '%' {
        pattern.len() >= 2 && is_field_letter(pattern[1]) && is_pattern(pattern.skip(2))
    } else {
        is_pattern(pattern.skip(1))
    }
}

/// `pattern` with each field replaced by its text for `ts`; every other character
/// stands for itself.
pub open spec fn rendered(pattern: Seq<char>, ts: Timestamp) -> Seq<char>
    decreases pattern.len(),
{
    if pattern.len() == 0 {
        Seq::empty()
    } else if pattern[0] == '%' && pattern.len() >= 2 {
        field_text(pattern[1], ts) + rendered(pattern.skip(2), ts)
    } else {
        seq![pattern[0]] + rendered(pattern.skip(1), ts)
    }
}

/// Renders `ts` with chrono: builds the date with `NaiveDate::from_ymd_opt`, adds the
/// time of day with `and_hms_nano_opt`, and writes `DateTime::<Utc>::format(pattern)`
/// to a string. Not proved: that chrono accepts exactly the timestamps of `is_valid`,
/// and that the text it writes for the fields `%Y %m %d %H %M %S %f` is `rendered`.
#[verifier::external_body]
fn format_utc(ts: &Timestamp, pattern: &str) -> (text: Option<String>)
    requires
        is_pattern(pattern@),
    ensures
        text is Some <==> ts.is_valid(),
        text matches Some(s) ==> s@ == rendered(pattern@, *ts),
{
    let date = chrono::NaiveDate::from_ymd_opt(ts.year, ts.month, ts.day)?;
    let date_time = date.and_hms_nano_opt(ts.hour, ts.minute, ts.second, ts.nanosecond)?;
    Some(date_time.and_utc().format(pattern).to_string())
}

fn is_field(letter: char) -> (b: bool)
    ensures
        b == is_field_letter(letter),
{
    letter == 'Y' || letter == 'm' || letter == 'd' || letter == 'H' || letter == 'M' || letter
        == 'S' || letter == 'f'
}

/// Whether `pattern` holds nothing but plain characters and the supported fields.
pub fn is_supported_pattern(pattern: &str) -> (b: bool)
    ensures
        b == is_pattern(pattern@),
{
    let p = chars_of(pattern);
    let mut i: usize = 0;
    assert(p@.skip(0) == p@);
    while i < p.len()
        invariant
            i <= p.len(),
            p@ == pattern@,
            is_pattern(p@) == is_pattern(p@.skip(i as int)),
        decreases p.len() - i,
    {
        let ghost rest = p@.skip(i as int);
        if p[i] == '%' {
            if i + 1 >= p.len() || !is_field(p[i + 1]) {
                assert(rest[0] == '%');
                assert(rest.len() >= 2 ==> rest[1] == p@[i + 1]);
                return false;
            }
            assert(rest.skip(2) == p@.skip(i + 2));
            assert(rest[0] == '%' && rest[1] == p@[i + 1]);
            i += 2;
        } else {
            assert(rest.skip(1) == p@.skip(i + 1));
            assert(rest[0] == p@[i as int]);
            i += 1;
        }
    }
    true
}

impl Timestamp {
    /// Whether the fields name a moment that exists: a day of the calendar within
    /// chrono's range of years, and a time of day with at most one leap second.
    pub open spec fn is_valid(self) -> bool {
        &&& min_year() <= self.year <= max_year()
        &&& 1 <= self.month <= 12
        &&& 1 <= self.day <= days_in_month(self.year as int, self.month as int)
        &&& self.hour < 24
        &&& self.minute < 60
        &&& self.second < 60
        &&& self.nanosecond < 2_000_000_000
        &&& (self.nanosecond >= 1_000_000_000 ==> self.second == 59)
    }

    /// Checks the fields against the calendar.
    pub fn valid(&self) -> (b: bool)
        ensures
            b == self.is_valid(),
    {
        if self.year < -262143 || self.year > 262142 {
            return false;
        }
        if self.month < 1 || self.month > 12 || self.day < 1 {
            return false;
        }
        // 400,000 is a multiple of 400, so the shifted year is a leap year exactly when
        // the year is.
        let shifted: u32 = (self.year + 400_000) as u32;
        assert(shifted as int == self.year + 400_000);
        let leap = shifted % 4 == 0 && (shifted % 100 != 0 || shifted % 400 == 0);
        assert(leap == is_leap_year(self.year as int));
        let days: u32 = if self.month == 2 {
            if leap {
                29
            } else {
                28
            }
        } else if self.month == 4 || self.month == 6 || self.month == 9 || self.month == 11 {
            30
        } else {
            31
        };
        self.day <= days && self.hour < 24 && self.minute < 60 && self.second < 60
            && self.nanosecond < 2_000_000_000 && (self.nanosecond < 1_000_000_000 || self.second
            == 59)
    }

    /// A timestamp of the given fields, where they name a moment that exists.
    pub fn new(
        year: i32,
        month: u32,
        day: u32,
        hour: u32,
        minute: u32,
        second: u32,
        nanosecond: u32,
    ) -> (made: Option<Timestamp>)
        ensures
            made is Some <==> (Timestamp {
                year,
                month,
                day,
                hour,
                minute,
                second,
                nanosecond,
            }).is_valid(),
            made matches Some(ts) ==> ts == (Timestamp {
                year,
                month,
                day,
                hour,
                minute,
                second,
                nanosecond,
            }),
    {
        let ts = Timestamp { year, month, day, hour, minute, second, nanosecond };
        if ts.valid() {
            Some(ts)
        } else {
            None
        }
    }

    /// The text of `pattern` for this timestamp. There is a text exactly where the
    /// timestamp is valid and the pattern is supported.
    pub fn format(&self, pattern: &str) -> (text: Option<String>)
        ensures
            text is Some <==> (self.is_valid() && is_pattern(pattern@)),
            text matches Some(s) ==> s@ == rendered(pattern@, *self),
    {
        if is_supported_pattern(pattern) {
            format_utc(self, pattern)
        } else {
            None
        }
    }
}

} // verus!
