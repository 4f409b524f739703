//! The date of a post: a valid calendar date, its text and its order.

use vstd::prelude::*;
use crate::text::{decimal, digit_char};

verus! {

/// The first year that `chrono::NaiveDate` represents.
pub open spec fn min_year() -> int {
    -262143
}

/// The last year that `chrono::NaiveDate` represents.
pub open spec fn max_year() -> int {
    262142
}

/// Leap years of the proleptic Gregorian calendar.
pub open spec fn is_leap_year(y: int) -> bool {
    y % 4 == 0 && (y % 100 != 0 || y % 400 == 0)
}

pub open spec fn days_in_month(y: int, m: int) -> int {
    if m == 2 {
        if is_leap_year(y) {
            29
        } else {
            28
        }
    } else if m == 4 || m == 6 || m == 9 || m == 11 {
        30
    } else {
        31
    }
}

/// A day that exists in the calendar, within the years that
/// `chrono::NaiveDate` represents.
pub open spec fn valid_date(y: int, m: int, d: int) -> bool {
    &&& min_year() <= y <= max_year()
    &&& 1 <= m <= 12
    &&& 1 <= d <= days_in_month(y, m)
}

/// A number below 100 in two digits.
pub open spec fn two_digits(n: int) -> Seq<char> {
    seq![digit_char(n / 10), digit_char(n % 10)]
}

/// A number in at least four digits, with leading zeros.
pub open spec fn four_digits(n: nat) -> Seq<char> {
    if n < 10 {
        seq!['0', '0', '0'] + decimal(n)
    } else if n < 100 {
        seq!['0', '0'] + decimal(n)
    } else if n < 1000 {
        seq!['0'] + decimal(n)
    } else {
        decimal(n)
    }
}

/// The year as ISO 8601 writes it: four digits from 0 to 9999, otherwise a
/// sign and at least four digits.
pub open spec fn year_text(y: int) -> Seq<char> {
    if 0 <= y <= 9999 {
        two_digits(y / 100) + two_digits(y % 100)
    } else if y < 0 {
        seq!['-'] + four_digits((-y) as nat)
    } else {
        seq!['+'] + four_digits(y as nat)
    }
}

/// The date as `YYYY-MM-DD`, the form in which `chrono` displays a `NaiveDate`.
pub open spec fn date_text(y: int, m: int, d: int) -> Seq<char> {
    year_text(y) + seq!['-'] + two_digits(m) + seq!['-'] + two_digits(d)
}

/// `NaiveDate::from_ymd_opt` followed by `NaiveDate`'s `Display`. By chrono's
/// source, `from_ymd_opt` returns `Some` on a valid date, and `Display` writes
/// the year in four digits when it is within 0..=9999, otherwise with `{:+05}`,
/// then the month and the day in two digits each, all joined by `-`.
#[verifier::external_body]
fn chrono_date_text(year: i32, month: u32, day: u32) -> (r: String)
    requires
        valid_date(year as int, month as int, day as int),
    ensures
        r@ == date_text(year as int, month as int, day as int),
{
    match chrono::NaiveDate::from_ymd_opt(year, month, day) {
        Some(d) => d.to_string(),
        None => String::new(),
    }
}

/// A valid calendar date.
#[derive(Clone, Copy, Debug, PartialEq, Eq)]
pub struct PostDate {
    year: i32,
    month: u32,
    day: u32,
}

/// Whether the date `a` comes no later than the date `b`: the chronological
/// order, the one by which `chrono::NaiveDate` compares valid dates.
pub open spec fn date_le(a: (int, int, int), b: (int, int, int)) -> bool {
    a.0 < b.0 || (a.0 == b.0 && (a.1 < b.1 || (a.1 == b.1 && a.2 <= b.2)))
}

impl View for PostDate {
    type V = (int, int, int);

    closed spec fn view(&self) -> (int, int, int) {
        (self.year as int, self.month as int, self.day as int)
    }
}

impl PostDate {
    #[verifier::type_invariant]
    spec fn is_valid(self) -> bool {
        valid_date(self.year as int, self.month as int, self.day as int)
    }

    /// The date of `year`, `month` and `day`, if that day exists.
    pub fn from_ymd(year: i32, month: u32, day: u32) -> (r: Option<PostDate>)
        ensures
            r is Some <==> valid_date(year as int, month as int, day as int),
            r matches Some(d) ==> d@ == (year as int, month as int, day as int),
    {
        if year < -262143 || year > 262142 || month < 1 || month > 12 || day < 1 {
            return None;
        }
        let leap = year % 4 == 0 && (year % 100 != 0 || year % 400 == 0);
        proof {
            assert(leap == is_leap_year(year as int)) by {
                assert((year % 4 == 0) == ((year as int) % 4 == 0));
                assert((year % 100 == 0) == ((year as int) % 100 == 0));
                assert((year % 400 == 0) == ((year as int) % 400 == 0));
            }
        }
        let days: u32 = if month == 2 {
            if leap {
                29
            } else {
                28
            }
        } else if month == 4 || month == 6 || month == 9 || month == 11 {
            30
        } else {
            31
        };
        if day > days {
            None
        } else {
            Some(PostDate { year, month, day })
        }
    }

    pub fn year(&self) -> (r: i32)
        ensures
            r as int == self@.0,
    {
        self.year
    }

    pub fn month(&self) -> (r: u32)
        ensures
            r as int == self@.1,
    {
        self.month
    }

    pub fn day(&self) -> (r: u32)
        ensures
            r as int == self@.2,
    {
        self.day
    }

    /// The date as `YYYY-MM-DD`.
    pub fn to_text(&self) -> (r: String)
        ensures
            r@ == date_text(self@.0, self@.1, self@.2),
    {
        proof {
            use_type_invariant(self);
        }
        chrono_date_text(self.year, self.month, self.day)
    }

    /// Whether this date comes no later than `other`.
    pub fn no_later_than(&self, other: &PostDate) -> (r: bool)
        ensures
            r == date_le(self@, other@),
    {
        self.year < other.year || (self.year == other.year && (self.month < other.month || (
        self.month == other.month && self.day <= other.day)))
    }

    /// Whether this date and `other` are the same day.
    pub fn same_day(&self, other: &PostDate) -> (r: bool)
        ensures
            r == (self@ == other@),
    {
        self.year == other.year && self.month == other.month && self.day == other.day
    }
}

/// The order of dates is total: of two dates, one comes no later than the other.
pub proof fn law_date_order_total(a: (int, int, int), b: (int, int, int))
    ensures
        date_le(a, b) || date_le(b, a),
        date_le(a, b) && date_le(b, a) ==> a == b,
{
}

/// Dates are ordered by year, then by month, then by day: a later year comes
/// later whatever the months and days, and in one year a later month comes
/// later whatever the days.
pub proof fn law_date_order_year_month_day(a: (int, int, int), b: (int, int, int))
    ensures
        a.0 < b.0 ==> date_le(a, b) && !date_le(b, a),
        a.0 == b.0 && a.1 < b.1 ==> date_le(a, b) && !date_le(b, a),
        a.0 == b.0 && a.1 == b.1 ==> (date_le(a, b) <==> a.2 <= b.2),
{
}

/// The number of a day when every month is counted as 31 days long.
pub open spec fn day_number(d: (int, int, int)) -> int {
    d.0 * 372 + (d.1 - 1) * 31 + (d.2 - 1)
}

/// For months from 1 to 12 and days from 1 to 31, a date comes no later than
/// another exactly when its day number is no greater.
pub proof fn law_date_order_by_day_number(a: (int, int, int), b: (int, int, int))
    requires
        1 <= a.1 <= 12,
        1 <= b.1 <= 12,
        1 <= a.2 <= 31,
        1 <= b.2 <= 31,
    ensures
        date_le(a, b) <==> day_number(a) <= day_number(b),
{
    if a.0 < b.0 {
        assert(a.0 * 372 + 372 <= b.0 * 372) by (nonlinear_arith)
            requires
                a.0 < b.0,
        ;
    } else if b.0 < a.0 {
        assert(b.0 * 372 + 372 <= a.0 * 372) by (nonlinear_arith)
            requires
                b.0 < a.0,
        ;
    }
}

/// The order of dates is transitive.
pub proof fn law_date_order_transitive(a: (int, int, int), b: (int, int, int), c: (int, int, int))
    requires
        date_le(a, b),
        date_le(b, c),
    ensures
        date_le(a, c),
{
}

} // verus!
