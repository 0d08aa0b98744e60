//! Calendar dates for the x axis.
//!
//! A dataset point is keyed by a proleptic Gregorian date; on the x axis
//! it becomes a day number.  Validity is specified here; the day number
//! itself comes from the calendar crate behind `date_scale`.

use vstd::prelude::*;

verus! {

/// A calendar date: year, month and day.
#[derive(Clone, Copy, Debug, PartialEq, Eq, Structural)]
pub struct Date {
    pub year: i32,
    pub month: u8,
    pub day: u8,
}

/// The Gregorian leap year rule.
pub open spec fn is_leap_year(y: int) -> bool {
    (y % 4 == 0 && y % 100 != 0) || y % 400 == 0
}

/// How many days the given month of the given year has.
pub open spec fn days_in_month(y: int, m: int) -> int {
    if m == 4 || m == 6 || m == 9 || m == 11 {
        30
    } else if m == 2 {
        if is_leap_year(y) {
            29
        } else {
            28
        }
    } else {
        31
    }
}

impl Date {
    /// A real date in the supported year range.
    pub open spec fn valid(&self) -> bool {
        &&& 0 <= self.year <= 9999
        &&& 1 <= self.month <= 12
        &&& 1 <= self.day <= days_in_month(self.year as int, self.month as int)
    }
}

/// The Gregorian leap year rule, executable.
pub fn leap_year(y: i32) -> (r: bool)
    requires
        y >= 0,
    ensures
        r == is_leap_year(y as int),
{
    let u = y as u32;
    (u % 4 == 0 && u % 100 != 0) || u % 400 == 0
}

/// How many days the given month has, executable.
pub fn month_days(y: i32, m: u8) -> (r: u8)
    requires
        y >= 0,
        1 <= m <= 12,
    ensures
        r as int == days_in_month(y as int, m as int),
{
    if m == 4 || m == 6 || m == 9 || m == 11 {
        30
    } else if m == 2 {
        if leap_year(y) {
            29
        } else {
            28
        }
    } else {
        31
    }
}

/// `a` names an earlier calendar day than `b`.
pub open spec fn date_lt(a: Date, b: Date) -> bool {
    ||| a.year < b.year
    ||| (a.year == b.year && a.month < b.month)
    ||| (a.year == b.year && a.month == b.month && a.day < b.day)
}

/// The day number of a valid date: how many days it lies after the
/// first day of year zero.
pub uninterp spec fn day_number(y: int, m: int, d: int) -> int;

/// Relies on chrono's `NaiveDate`: `from_ymd_opt` accepts every valid
/// Gregorian date in this year range, and subtracting two dates gives
/// the signed number of whole days between them, a function of the two
/// dates alone.  The bounds hold because ten thousand years hold fewer
/// than 3 660 000 days, subtracting a date from itself gives zero, and
/// a calendar-earlier date lies strictly fewer days after the epoch.
#[verifier::external_body]
pub fn date_scale(date: &Date) -> (r: i64)
    requires
        date.valid(),
    ensures
        r == day_number(date.year as int, date.month as int, date.day as int),
        0 <= r < 3_660_000,
        date.year == 0 && date.month == 1 && date.day == 1 ==> r == 0,
        forall|o: Date|
            o.valid() && date_lt(o, *date) ==> #[trigger] day_number(
                o.year as int,
                o.month as int,
                o.day as int,
            ) < r,
{
    let a = chrono::NaiveDate::from_ymd_opt(date.year, date.month as u32, date.day as u32)
        .unwrap();
    let b = chrono::NaiveDate::from_ymd_opt(0, 1, 1).unwrap();
    (a - b).num_days()
}

/// A dataset mapped into plot coordinates: each point's date becomes
/// its day number on the x axis, its value passes through unchanged.
pub fn plot_points(points: &Vec<(Date, i64)>) -> (r: Vec<(i64, i64)>)
    requires
        forall|j: int| 0 <= j < points@.len() ==> (#[trigger] points@[j]).0.valid(),
    ensures
        r@.len() == points@.len(),
        forall|j: int|
            0 <= j < points@.len() ==> {
                &&& (#[trigger] r@[j]).0 == day_number(
                    points@[j].0.year as int,
                    points@[j].0.month as int,
                    points@[j].0.day as int,
                )
                &&& 0 <= r@[j].0 < 3_660_000
                &&& r@[j].1 == points@[j].1
            },
{
    let mut r: Vec<(i64, i64)> = Vec::new();
    let mut i: usize = 0;
    while i < points.len()
        invariant
            i <= points@.len(),
            r@.len() == i,
            forall|j: int| 0 <= j < points@.len() ==> (#[trigger] points@[j]).0.valid(),
            forall|j: int|
                0 <= j < i ==> {
                    &&& (#[trigger] r@[j]).0 == day_number(
                        points@[j].0.year as int,
                        points@[j].0.month as int,
                        points@[j].0.day as int,
                    )
                    &&& 0 <= r@[j].0 < 3_660_000
                    &&& r@[j].1 == points@[j].1
                },
        decreases points@.len() - i,
    {
        let p = points[i];
        let x = date_scale(&p.0);
        r.push((x, p.1));
        i = i + 1;
    }
    r
}

} // verus!
