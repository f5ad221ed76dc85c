//! Calendar dates of posts.
use vstd::prelude::*;
use vstd::string::*;
use crate::text::decimal;

verus! {

/// Whether `year` of the proleptic Gregorian calendar has a 29 February.
pub open spec fn is_leap_year(year: int) -> bool {
    year % 4 == 0 && (year % 100 != 0 || year % 400 == 0)
}

/// The number of days of `month` (1 to 12) in `year`.
pub open spec fn days_in_month(year: int, month: int) -> int {
    if month == 2 {
        if is_leap_year(year) { 29 } else { 28 }
    } else if month == 4 || month == 6 || month == 9 || month == 11 {
        30
    } else {
        31
    }
}

/// The earliest year that a date can have.
pub open spec fn min_year() -> int {
    -262143
}

/// The latest year that a date can have.
pub open spec fn max_year() -> int {
    262142
}

/// Whether `year`-`month`-`day` is a date of the calendar, within the years that dates span.
pub open spec fn is_valid_date(year: int, month: int, day: int) -> bool {
    &&& min_year() <= year <= max_year()
    &&& 1 <= month <= 12
    &&& 1 <= day <= days_in_month(year, month)
}

/// The value of a date.
pub struct DateView {
    pub year: int,
    pub month: int,
    pub day: int,
}

/// Whether date `a` is not after date `b`.
pub open spec fn date_le(a: DateView, b: DateView) -> bool {
    a.year < b.year || (a.year == b.year && (a.month < b.month || (a.month == b.month && a.day <= b.day)))
}

/// A calendar date: year, month (1 to 12) and day of the month.
#[derive(Clone, Copy, Debug, PartialEq, Eq, Structural)]
pub struct Date {
    year: i32,
    month: u32,
    day: u32,
}

impl View for Date {
    type V = DateView;

    closed spec fn view(&self) -> DateView {
        DateView { year: self.year as int, month: self.month as int, day: self.day as int }
    }
}

impl Date {
    #[verifier::type_invariant]
    spec fn valid(self) -> bool {
        is_valid_date(self.year as int, self.month as int, self.day as int)
    }

    /// The date `year`-`month`-`day`, where it is one.
    pub fn from_ymd(year: i32, month: u32, day: u32) -> (r: Option<Date>)
        ensures
            r is Some <==> is_valid_date(year as int, month as int, day as int),
            r matches Some(d) ==> d@ == (DateView { year: year as int, month: month as int, day: day as int }),
    {
        if year < -262143 || year > 262142 || month < 1 || month > 12 || day < 1 {
            return None;
        }
        let shifted: u64 = (year as i64 + 400000) as u64;
        assert(shifted as int == year + 400000);
        let leap = shifted % 4 == 0 && (shifted % 100 != 0 || shifted % 400 == 0);
        assert(leap == is_leap_year(year as int));
        let days: u32 = if month == 2 {
            if leap { 29 } else { 28 }
        } else if month == 4 || month == 6 || month == 9 || month == 11 {
            30
        } else {
            31
        };
        if day > days {
            return None;
        }
        Some(Date { year, month, day })
    }

    /// The year.
    pub fn year(&self) -> (r: i32)
        ensures
            r == self@.year,
    {
        self.year
    }

    /// The month, from 1 to 12.
    pub fn month(&self) -> (r: u32)
        ensures
            r == self@.month,
    {
        self.month
    }

    /// The day of the month.
    pub fn day(&self) -> (r: u32)
        ensures
            r == self@.day,
    {
        self.day
    }

    /// Whether this date is not after `other`.
    pub fn not_after(&self, other: &Date) -> (r: bool)
        ensures
            r == date_le(self@, other@),
    {
        self.year < other.year || (self.year == other.year && (self.month < other.month || (
        self.month == other.month && self.day <= other.day)))
    }

    /// The date written as, for example, `January 5, 2025`.
    pub fn long_format(&self) -> (r: String)
        ensures
            r@ == long_date_text(self@.year, self@.month, self@.day),
    {
        proof {
            use_type_invariant(self);
        }
        chrono_long_date(self.year, self.month, self.day)
    }
}

/// The English name of `month` (1 to 12).
pub open spec fn month_name(month: int) -> Seq<char> {
    if month == 1 {
        "January"@
    } else if month == 2 {
        "February"@
    } else if month == 3 {
        "March"@
    } else if month == 4 {
        "April"@
    } else if month == 5 {
        "May"@
    } else if month == 6 {
        "June"@
    } else if month == 7 {
        "July"@
    } else if month == 8 {
        "August"@
    } else if month == 9 {
        "September"@
    } else if month == 10 {
        "October"@
    } else if month == 11 {
        "November"@
    } else {
        "December"@
    }
}

/// The decimal representation of `n`, with zeros in front to make at least four digits.
pub open spec fn pad4(n: nat) -> Seq<char> {
    let d = decimal(n);
    if d.len() < 4 {
        Seq::new((4 - d.len()) as nat, |i: int| '0') + d
    } else {
        d
    }
}

/// A year as `%Y` writes it: four digits or more, with a sign outside the years 0 to 9999.
pub open spec fn year_text(year: int) -> Seq<char> {
    if 0 <= year <= 9999 {
        pad4(year as nat)
    } else if year < 0 {
        seq!['-'] + pad4((-year) as nat)
    } else {
        seq!['+'] + pad4(year as nat)
    }
}

/// A date as the format `%B %-d, %Y` writes it: month name, day without padding, year.
pub open spec fn long_date_text(year: int, month: int, day: int) -> Seq<char> {
    month_name(month) + seq![' '] + decimal(day as nat) + ", "@ + year_text(year)
}

/// `chrono::NaiveDate::from_ymd_opt` then `format("%B %-d, %Y")`: the full English month name,
/// a space, the day of the month without padding, a comma and a space, and the year written
/// with at least four digits (zero-padded), signed outside the years 0 to 9999. The date must
/// be one that `from_ymd_opt` accepts.
#[verifier::external_body]
fn chrono_long_date(year: i32, month: u32, day: u32) -> (r: String)
    requires
        is_valid_date(year as int, month as int, day as int),
    ensures
        r@ == long_date_text(year as int, month as int, day as int),
{
    chrono::NaiveDate::from_ymd_opt(year, month, day).unwrap().format("%B %-d, %Y").to_string()
}

} // verus!
