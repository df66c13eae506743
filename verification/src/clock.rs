//! Local wall-clock timestamps, held as plain calendar fields, and their
//! textual forms (rendered by chrono).
use vstd::prelude::*;
use crate::text::decimal;

verus! {

pub open spec fn is_leap_year(y: int) -> bool {
    y % 4 == 0 && (y % 100 != 0 || y % 400 == 0)
}

pub open spec fn days_in_month(y: int, m: int) -> int {
    if m == 2 {
        if is_leap_year(y) {
            29
        } else {
            28
        }
    } else if m == 4 || m == 6 || m == 9 || m == 11 {
        30
    } else {
        31
    }
}

/// A date and time that chrono's `NaiveDate::from_ymd_opt` / `and_hms_opt`
/// accept (proleptic Gregorian calendar, no leap second).
pub open spec fn valid_date_time(year: i32, month: u32, day: u32, hour: u32, minute: u32, second: u32) -> bool {
    &&& -262143 <= year <= 262142
    &&& 1 <= month <= 12
    &&& 1 <= day <= days_in_month(year as int, month as int)
    &&& hour < 24
    &&& minute < 60
    &&& second < 60
}

pub open spec fn digit(n: int) -> char {
    ((n + 48) as u32) as char
}

/// Two decimal digits, zero-padded.
pub open spec fn pad2(n: int) -> Seq<char> {
    seq![digit(n / 10), digit(n % 10)]
}

/// Four decimal digits, zero-padded.
pub open spec fn pad4(n: int) -> Seq<char> {
    seq![digit(n / 1000), digit((n / 100) % 10), digit((n / 10) % 10), digit(n % 10)]
}

/// `%Y`: four zero-padded digits for the years 0 to 9999; any other year
/// gets its sign, then at least four digits.
pub open spec fn year_text(y: int) -> Seq<char> {
    if 0 <= y <= 9999 {
        pad4(y)
    } else {
        let sign = if y < 0 {
            seq!['-']
        } else {
            seq!['+']
        };
        let a = if y < 0 {
            -y
        } else {
            y
        };
        sign + if a < 10000 {
            pad4(a)
        } else {
            decimal(a as nat)
        }
    }
}

/// The text for the given fields in one of the known patterns: `%Y` as
/// above, `%m %d %H %M %S` as two zero-padded digits each. Kept opaque so
/// that proofs about documents treat a rendered time as one piece of text.
#[verifier::opaque]
pub open spec fn time_text(year: i32, month: u32, day: u32, hour: u32, minute: u32, second: u32, pattern: Seq<char>) -> Seq<char> {
    let date = year_text(year as int) + seq!['-'] + pad2(month as int) + seq!['-'] + pad2(day as int);
    let hm = pad2(hour as int) + seq![':'] + pad2(minute as int);
    if pattern == "%Y-%m-%d %H:%M:%S"@ {
        date + seq![' '] + hm + seq![':'] + pad2(second as int)
    } else if pattern == "%Y-%m-%d %H:%M"@ {
        date + seq![' '] + hm
    } else if pattern == "%H:%M:%S"@ {
        hm + seq![':'] + pad2(second as int)
    } else {
        hm
    }
}

/// The patterns this crate renders times with.
pub open spec fn known_pattern(p: Seq<char>) -> bool {
    ||| p == "%Y-%m-%d %H:%M:%S"@
    ||| p == "%Y-%m-%d %H:%M"@
    ||| p == "%H:%M:%S"@
    ||| p == "%H:%M"@
}

/// Builds the date and time with chrono's `NaiveDate::from_ymd_opt` and
/// `NaiveDate::and_hms_opt` (both `Some` for valid fields) and renders it
/// with `NaiveDateTime::format`. chrono writes `%Y` as four zero-padded
/// digits for the years 0 to 9999 and otherwise as the sign and at least
/// four digits, and `%m %d %H %M %S` as two zero-padded digits each.
#[verifier::external_body]
fn format_fields(year: i32, month: u32, day: u32, hour: u32, minute: u32, second: u32, pattern: &str) -> (r: String)
    requires
        valid_date_time(year, month, day, hour, minute, second),
        known_pattern(pattern@),
    ensures
        r@ == time_text(year, month, day, hour, minute, second, pattern@),
{
    chrono::NaiveDate::from_ymd_opt(year, month, day).unwrap().and_hms_opt(hour, minute, second).unwrap().format(pattern).to_string()
}

/// A local wall-clock time, as calendar fields.
#[derive(Clone, Copy, Debug, PartialEq, Eq)]
pub struct LocalTime {
    pub year: i32,
    pub month: u32,
    pub day: u32,
    pub hour: u32,
    pub minute: u32,
    pub second: u32,
}

impl LocalTime {
    /// The fields form an existing date and time.
    pub open spec fn wf(&self) -> bool {
        valid_date_time(self.year, self.month, self.day, self.hour, self.minute, self.second)
    }

    /// The time with the given fields, if they form an existing date and time.
    pub fn new(year: i32, month: u32, day: u32, hour: u32, minute: u32, second: u32) -> (r: Option<LocalTime>)
        ensures
            r is Some <==> valid_date_time(year, month, day, hour, minute, second),
            r matches Some(t) ==> t.year == year && t.month == month && t.day == day && t.hour == hour
                && t.minute == minute && t.second == second,
    {
        if !(-262143 <= year && year <= 262142) || month < 1 || month > 12 || hour >= 24 || minute >= 60
            || second >= 60 {
            return None;
        }
        let leap = year % 4 == 0 && (year % 100 != 0 || year % 400 == 0);
        assert(leap == is_leap_year(year as int)) by {
            assert(year % 4 == (year as int) % 4 || year < 0);
        }
        let dim: u32 = if month == 2 {
            if leap {
                29
            } else {
                28
            }
        } else if month == 4 || month == 6 || month == 9 || month == 11 {
            30
        } else {
            31
        };
        if day < 1 || day > dim {
            return None;
        }
        Some(LocalTime { year, month, day, hour, minute, second })
    }

    /// Same calendar day (what `date_naive()` equality tests).
    pub open spec fn same_day(&self, other: &LocalTime) -> bool {
        self.year == other.year && self.month == other.month && self.day == other.day
    }

    pub fn is_same_day(&self, other: &LocalTime) -> (r: bool)
        ensures
            r == self.same_day(other),
    {
        self.year == other.year && self.month == other.month && self.day == other.day
    }

    pub open spec fn formatted(&self, pattern: Seq<char>) -> Seq<char> {
        time_text(self.year, self.month, self.day, self.hour, self.minute, self.second, pattern)
    }

    /// This time rendered with one of the known strftime patterns.
    pub fn format(&self, pattern: &str) -> (r: String)
        requires
            self.wf(),
            known_pattern(pattern@),
        ensures
            r@ == self.formatted(pattern@),
    {
        format_fields(self.year, self.month, self.day, self.hour, self.minute, self.second, pattern)
    }
}

} // verus!
