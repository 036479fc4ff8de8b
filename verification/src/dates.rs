// Calendar dates as plain values: validity, parsing of `YYYY-MM-DD` text,
// days since the Unix epoch, and the weekday gate used by the race
// announcer. The supported years are 1970 through 9999, so a day number is
// never negative.

use vstd::prelude::*;

verus! {

/// A civil calendar date.
#[derive(Clone, Copy, Debug, PartialEq, Eq, Structural)]
pub struct Date {
    pub year: u32,
    pub month: u32,
    pub day: u32,
}

pub open spec fn is_leap_year(y: int) -> bool {
    (y % 4 == 0 && y % 100 != 0) || y % 400 == 0
}

pub open spec fn spec_days_in_month(y: int, m: int) -> int {
    if m == 2 {
        if is_leap_year(y) {
            29
        } else {
            28
        }
    } else if m == 4 || m == 6 || m == 9 || m == 11 {
        30
    } else {
        31
    }
}

/// A date the library supports: a real calendar date from 1970 to 9999.
pub open spec fn valid_date(d: Date) -> bool {
    &&& 1970 <= d.year <= 9999
    &&& 1 <= d.month <= 12
    &&& 1 <= d.day <= spec_days_in_month(d.year as int, d.month as int)
}

/// Days from 1970-01-01 to the first day of year `y`.
pub open spec fn days_before_year(y: int) -> int
    decreases y - 1970,
{
    if y <= 1970 {
        0
    } else {
        days_before_year(y - 1) + if is_leap_year(y - 1) {
            366int
        } else {
            365int
        }
    }
}

/// Days from the first day of year `y` to the first day of its month `m`.
pub open spec fn days_before_month(y: int, m: int) -> int
    decreases m,
{
    if m <= 1 {
        0
    } else {
        days_before_month(y, m - 1) + spec_days_in_month(y, m - 1)
    }
}

/// Days since 1970-01-01.
pub open spec fn day_number(d: Date) -> int {
    days_before_year(d.year as int) + days_before_month(d.year as int, d.month as int) + d.day - 1
}

/// 1970-01-01 was a Thursday, so a date falls on a Thursday exactly when
/// its day number is a multiple of seven.
pub open spec fn spec_is_thursday(d: Date) -> bool {
    day_number(d) % 7 == 0
}

pub proof fn lemma_days_before_year_bounds(y: int)
    requires
        1970 <= y <= 10000,
    ensures
        0 <= days_before_year(y) <= (y - 1970) * 366,
    decreases y - 1970,
{
    if y > 1970 {
        lemma_days_before_year_bounds(y - 1);
    }
}

pub proof fn lemma_days_before_month_bounds(y: int, m: int)
    requires
        1 <= m <= 13,
    ensures
        0 <= days_before_month(y, m) <= (m - 1) * 31,
    decreases m,
{
    if m > 1 {
        lemma_days_before_month_bounds(y, m - 1);
    }
}

/// A valid date's day number fits comfortably in 22 bits.
pub proof fn lemma_day_number_bounds(d: Date)
    requires
        valid_date(d),
    ensures
        0 <= day_number(d) < 3000000,
{
    lemma_days_before_year_bounds(d.year as int);
    lemma_days_before_month_bounds(d.year as int, d.month as int);
}

fn is_leap_year_exec(y: u32) -> (r: bool)
    ensures
        r == is_leap_year(y as int),
{
    (y % 4 == 0 && y % 100 != 0) || y % 400 == 0
}

pub fn days_in_month(y: u32, m: u32) -> (r: u32)
    ensures
        r == spec_days_in_month(y as int, m as int),
{
    if m == 2 {
        if is_leap_year_exec(y) {
            29
        } else {
            28
        }
    } else if m == 4 || m == 6 || m == 9 || m == 11 {
        30
    } else {
        31
    }
}

impl Date {
    /// Whether this is a supported calendar date.
    pub fn is_valid(&self) -> (r: bool)
        ensures
            r == valid_date(*self),
    {
        1970 <= self.year && self.year <= 9999 && 1 <= self.month && self.month <= 12 && 1
            <= self.day && self.day <= days_in_month(self.year, self.month)
    }

    /// Days since 1970-01-01.
    #[verifier::loop_isolation(false)]
    pub fn day_number(&self) -> (n: u32)
        requires
            valid_date(*self),
        ensures
            n == day_number(*self),
            n < 3000000,
    {
        proof {
            lemma_day_number_bounds(*self);
        }
        let mut acc: u32 = 0;
        let mut y: u32 = 1970;
        while y < self.year
            invariant
                1970 <= y <= self.year,
                acc == days_before_year(y as int),
                acc <= (y - 1970) * 366,
            decreases self.year - y,
        {
            proof {
                lemma_days_before_year_bounds(y as int + 1);
            }
            if is_leap_year_exec(y) {
                acc += 366;
            } else {
                acc += 365;
            }
            y += 1;
        }
        let mut m: u32 = 1;
        let mut md: u32 = 0;
        while m < self.month
            invariant
                1 <= m <= self.month,
                md == days_before_month(self.year as int, m as int),
                md <= (m - 1) * 31,
            decreases self.month - m,
        {
            proof {
                lemma_days_before_month_bounds(self.year as int, m as int + 1);
            }
            md += days_in_month(self.year, m);
            m += 1;
        }
        acc + md + self.day - 1
    }

    /// Whether the date falls on a Thursday.
    pub fn is_thursday(&self) -> (r: bool)
        requires
            valid_date(*self),
        ensures
            r == spec_is_thursday(*self),
    {
        self.day_number() % 7 == 0
    }
}

/// Days from `from` to `to`, negative when `to` is earlier.
pub fn days_between(from: &Date, to: &Date) -> (n: i64)
    requires
        valid_date(*from),
        valid_date(*to),
    ensures
        n == day_number(*to) - day_number(*from),
{
    (to.day_number() as i64) - (from.day_number() as i64)
}

pub open spec fn is_digit(c: char) -> bool {
    '0' <= c <= '9'
}

pub open spec fn digit_val(c: char) -> int {
    c as int - '0' as int
}

/// The text has the shape `YYYY-MM-DD`, all digits in place.
pub open spec fn date_text_wf(s: Seq<char>) -> bool {
    &&& s.len() == 10
    &&& is_digit(s[0]) && is_digit(s[1]) && is_digit(s[2]) && is_digit(s[3])
    &&& s[4] == '-'
    &&& is_digit(s[5]) && is_digit(s[6])
    &&& s[7] == '-'
    &&& is_digit(s[8]) && is_digit(s[9])
}

/// The date such text denotes.
pub open spec fn date_of_text(s: Seq<char>) -> Date {
    Date {
        year: (digit_val(s[0]) * 1000 + digit_val(s[1]) * 100 + digit_val(s[2]) * 10 + digit_val(
            s[3],
        )) as u32,
        month: (digit_val(s[5]) * 10 + digit_val(s[6])) as u32,
        day: (digit_val(s[8]) * 10 + digit_val(s[9])) as u32,
    }
}

/// The text denotes a supported date.
pub open spec fn parseable_date(s: Seq<char>) -> bool {
    date_text_wf(s) && valid_date(date_of_text(s))
}

fn digit_at(s: &str, i: usize) -> (r: Option<u32>)
    requires
        i < s@.len(),
    ensures
        match r {
            Some(v) => is_digit(s@[i as int]) && v == digit_val(s@[i as int]) && v <= 9,
            None => !is_digit(s@[i as int]),
        },
{
    let c = s.get_char(i);
    if '0' <= c && c <= '9' {
        Some((c as u32) - ('0' as u32))
    } else {
        None
    }
}

/// Parses `YYYY-MM-DD` text into a date: `Some` exactly when the text has
/// that shape and denotes a supported calendar date.
pub fn parse_date(s: &str) -> (r: Option<Date>)
    ensures
        r is Some <==> parseable_date(s@),
        match r {
            Some(d) => d == date_of_text(s@) && valid_date(d),
            None => true,
        },
{
    if s.unicode_len() != 10 {
        return None;
    }
    if s.get_char(4) != '-' || s.get_char(7) != '-' {
        return None;
    }
    let y3 = digit_at(s, 0);
    let y2 = digit_at(s, 1);
    let y1 = digit_at(s, 2);
    let y0 = digit_at(s, 3);
    let m1 = digit_at(s, 5);
    let m0 = digit_at(s, 6);
    let d1 = digit_at(s, 8);
    let d0 = digit_at(s, 9);
    match (y3, y2, y1, y0, m1, m0, d1, d0) {
        (
            Some(y3),
            Some(y2),
            Some(y1),
            Some(y0),
            Some(m1),
            Some(m0),
            Some(d1),
            Some(d0),
        ) => {
            let d = Date {
                year: y3 * 1000 + y2 * 100 + y1 * 10 + y0,
                month: m1 * 10 + m0,
                day: d1 * 10 + d0,
            };
            if d.is_valid() {
                Some(d)
            } else {
                None
            }
        },
        _ => None,
    }
}

} // verus!
