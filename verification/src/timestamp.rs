//! Timestamps in the notation of RFC 3339, such as
//! `2020-03-16T11:50:00Z` or `1985-04-12T23:20:50.52-08:00`.

use crate::number::{digit_of, digit_run, digit_value, is_digit, scan_digits};
use crate::text::chars_of;
use vstd::prelude::*;

verus! {

/// Two digits stand at the places `at` and `at + 1`.
pub open spec fn two_digits(s: Seq<char>, at: int) -> bool {
    0 <= at && at + 1 < s.len() && is_digit(s[at]) && is_digit(s[at + 1])
}

/// The number that the two digits at `at` denote.
pub open spec fn two_value(s: Seq<char>, at: int) -> nat {
    digit_value(s[at]) * 10 + digit_value(s[at + 1])
}

/// A leap year of the Gregorian calendar.
pub open spec fn is_leap_year(year: nat) -> bool {
    year % 4 == 0 && (year % 100 != 0 || year % 400 == 0)
}

/// The number of days of a month; 0 for a month that there is not.
pub open spec fn days_in_month(year: nat, month: nat) -> nat {
    if month == 2 {
        if is_leap_year(year) {
            29
        } else {
            28
        }
    } else if month == 4 || month == 6 || month == 9 || month == 11 {
        30
    } else if 1 <= month <= 12 {
        31
    } else {
        0
    }
}

/// The date at the start of a timestamp: `YYYY-MM-DD` with a month that
/// there is and a day that the month has.
pub open spec fn date_ok(s: Seq<char>) -> bool {
    &&& s.len() >= 10
    &&& two_digits(s, 0)
    &&& two_digits(s, 2)
    &&& s[4] == '-'
    &&& two_digits(s, 5)
    &&& s[7] == '-'
    &&& two_digits(s, 8)
    &&& 1 <= two_value(s, 8) <= days_in_month(
        two_value(s, 0) * 100 + two_value(s, 2),
        two_value(s, 5),
    )
}

/// The time of day behind the date: `T` or `t`, then `hh:mm:ss` with the
/// hour up to 23, the minute up to 59 and the second up to 60.
pub open spec fn time_ok(s: Seq<char>) -> bool {
    &&& s.len() >= 19
    &&& (s[10] == 'T' || s[10] == 't')
    &&& two_digits(s, 11)
    &&& two_value(s, 11) <= 23
    &&& s[13] == ':'
    &&& two_digits(s, 14)
    &&& two_value(s, 14) <= 59
    &&& s[16] == ':'
    &&& two_digits(s, 17)
    &&& two_value(s, 17) <= 60
}

/// Where the offset begins: behind the seconds, or behind the fraction of
/// a second where one is written.
pub open spec fn offset_place(s: Seq<char>) -> int {
    if s.len() > 19 && s[19] == '.' {
        digit_run(s, 20)
    } else {
        19
    }
}

/// The offset from UTC that ends a timestamp: `Z` or `z`, or a sign and
/// `hh:mm` with the hour up to 23 and the minute up to 59.
pub open spec fn offset_ok(s: Seq<char>, at: int) -> bool {
    ||| s.len() == at + 1 && (s[at] == 'Z' || s[at] == 'z')
    ||| {
        &&& s.len() == at + 6
        &&& (s[at] == '+' || s[at] == '-')
        &&& two_digits(s, at + 1)
        &&& two_value(s, at + 1) <= 23
        &&& s[at + 3] == ':'
        &&& two_digits(s, at + 4)
        &&& two_value(s, at + 4) <= 59
    }
}

/// A timestamp in the notation of RFC 3339: a date, a time of day, an
/// optional fraction of a second with at least one digit, and an offset.
pub open spec fn is_rfc3339(s: Seq<char>) -> bool {
    &&& date_ok(s)
    &&& time_ok(s)
    &&& (s.len() > 19 && s[19] == '.' ==> offset_place(s) > 20)
    &&& 19 <= offset_place(s) < s.len()
    &&& offset_ok(s, offset_place(s))
}

/// The number of the two digits at `at`, where two digits stand there.
fn two_at(s: &Vec<char>, at: usize) -> (r: Option<u64>)
    requires
        at + 1 < s@.len(),
    ensures
        r is Some == two_digits(s@, at as int),
        r matches Some(n) ==> n == two_value(s@, at as int) && n <= 99,
{
    let n: usize = s.len();
    let a = s[at];
    let b = s[at + 1];
    if '0' <= a && a <= '9' && '0' <= b && b <= '9' {
        Some(digit_of(a) * 10 + digit_of(b))
    } else {
        None
    }
}

/// The number of days of a month.
fn month_length(year: u64, month: u64) -> (r: u64)
    ensures
        r == days_in_month(year as nat, month as nat),
{
    if month == 2 {
        if year % 4 == 0 && (year % 100 != 0 || year % 400 == 0) {
            29
        } else {
            28
        }
    } else if month == 4 || month == 6 || month == 9 || month == 11 {
        30
    } else if 1 <= month && month <= 12 {
        31
    } else {
        0
    }
}

/// Whether a date stands at the start of `s`.
fn check_date(s: &Vec<char>) -> (r: bool)
    ensures
        r == date_ok(s@),
{
    if s.len() < 10 {
        return false;
    }
    let century = two_at(s, 0);
    let years = two_at(s, 2);
    let month = two_at(s, 5);
    let day = two_at(s, 8);
    if s[4] != '-' || s[7] != '-' {
        return false;
    }
    match (century, years, month, day) {
        (Some(c), Some(y), Some(m), Some(d)) => 1 <= d && d <= month_length(c * 100 + y, m),
        _ => false,
    }
}

/// Whether a time of day stands behind the date of `s`.
fn check_time(s: &Vec<char>) -> (r: bool)
    ensures
        r == time_ok(s@),
{
    if s.len() < 19 {
        return false;
    }
    if !(s[10] == 'T' || s[10] == 't') || s[13] != ':' || s[16] != ':' {
        return false;
    }
    match (two_at(s, 11), two_at(s, 14), two_at(s, 17)) {
        (Some(h), Some(m), Some(sec)) => h <= 23 && m <= 59 && sec <= 60,
        _ => false,
    }
}

/// Whether an offset stands at `at` and ends `s`.
fn check_offset(s: &Vec<char>, at: usize) -> (r: bool)
    requires
        at < s@.len(),
    ensures
        r == offset_ok(s@, at as int),
{
    let n: usize = s.len();
    if n - at == 1 {
        s[at] == 'Z' || s[at] == 'z'
    } else if n - at == 6 {
        if !(s[at] == '+' || s[at] == '-') || s[at + 3] != ':' {
            return false;
        }
        match (two_at(s, at + 1), two_at(s, at + 4)) {
            (Some(h), Some(m)) => h <= 23 && m <= 59,
            _ => false,
        }
    } else {
        false
    }
}

/// Whether `text` is a timestamp in the notation of RFC 3339.
pub fn rfc3339_ok(text: &str) -> (r: bool)
    ensures
        r == is_rfc3339(text@),
{
    let s = chars_of(text);
    if !check_date(&s) || !check_time(&s) {
        return false;
    }
    let n: usize = s.len();
    let at: usize = if n > 19 && s[19] == '.' {
        scan_digits(&s, 20)
    } else {
        19
    };
    if n > 19 && s[19] == '.' && at == 20 {
        return false;
    }
    if at >= n {
        return false;
    }
    check_offset(&s, at)
}

/// A timestamp, held as its text.
#[derive(Debug, PartialEq, Eq)]
pub struct Timestamp {
    text: String,
}

impl View for Timestamp {
    type V = Seq<char>;

    closed spec fn view(&self) -> Seq<char> {
        self.text@
    }
}

impl Timestamp {
    #[verifier::type_invariant]
    closed spec fn well_formed(self) -> bool {
        is_rfc3339(self@)
    }

    /// The timestamp that `text` is, where it is one.
    pub fn parse(text: &str) -> (r: Option<Timestamp>)
        ensures
            r is Some == is_rfc3339(text@),
            r matches Some(t) ==> t@ == text@,
    {
        if rfc3339_ok(text) {
            Some(Timestamp { text: text.to_string() })
        } else {
            None
        }
    }

    /// The text of the timestamp, which is in the notation of RFC 3339.
    pub fn as_str(&self) -> (r: &str)
        ensures
            r@ == self@,
            is_rfc3339(self@),
    {
        proof {
            use_type_invariant(self);
        }
        self.text.as_str()
    }

    /// A copy of this timestamp.
    pub fn duplicate(&self) -> (r: Timestamp)
        ensures
            r@ == self@,
    {
        proof {
            use_type_invariant(self);
        }
        Timestamp { text: self.text.clone() }
    }
}

} // verus!
