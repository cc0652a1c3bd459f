use vstd::prelude::*;
use chrono::Datelike;

verus! {

/// Earliest year that the calendar arithmetic supports.
pub const MIN_YEAR: i32 = -262143;

/// Latest year that the calendar arithmetic supports.
pub const MAX_YEAR: i32 = 262142;

/// A proleptic Gregorian calendar date.
#[derive(Clone, Copy, Debug, PartialEq, Eq, Structural, Hash)]
pub struct CalDate {
    pub year: i32,
    pub month: u32,
    pub day: u32,
}

pub open spec fn is_leap_year(y: int) -> bool {
    y % 4 == 0 && (y % 100 != 0 || y % 400 == 0)
}

pub open spec fn days_in_month(y: int, m: int) -> int {
    if m == 2 {
        if is_leap_year(y) { 29 } else { 28 }
    } else if m == 4 || m == 6 || m == 9 || m == 11 {
        30
    } else {
        31
    }
}

/// Days from 0001-01-01 to the first day of year `y`.
pub open spec fn days_before_year(y: int) -> int {
    365 * (y - 1) + (y - 1) / 4 - (y - 1) / 100 + (y - 1) / 400
}

/// Days from the first day of year `y` to the first day of month `m`.
pub open spec fn days_before_month(y: int, m: int) -> int
    decreases m,
{
    if m <= 1 {
        0
    } else {
        days_before_month(y, m - 1) + days_in_month(y, m - 1)
    }
}

/// Index of a month counted from January of year 0.
pub open spec fn month_index(y: int, m: int) -> int {
    y * 12 + m - 1
}

impl CalDate {
    /// A date that exists in the calendar and lies in the supported years.
    pub open spec fn wf(self) -> bool {
        &&& MIN_YEAR <= self.year <= MAX_YEAR
        &&& 1 <= self.month <= 12
        &&& 1 <= self.day <= days_in_month(self.year as int, self.month as int)
    }

    /// Days elapsed since 0001-01-01 (negative before it).
    pub open spec fn day_number(self) -> int {
        days_before_year(self.year as int) + days_before_month(self.year as int, self.month as int)
            + self.day - 1
    }

    /// Weekday counted from Sunday (0) to Saturday (6).
    pub open spec fn weekday_from_sunday(self) -> int {
        (self.day_number() + 1) % 7
    }

    pub open spec fn is_first_date(self) -> bool {
        self.year == MIN_YEAR && self.month == 1 && self.day == 1
    }

    /// The calendar day before this one.
    pub open spec fn prev_day(self) -> CalDate {
        if self.day > 1 {
            CalDate { year: self.year, month: self.month, day: (self.day - 1) as u32 }
        } else if self.month > 1 {
            CalDate {
                year: self.year,
                month: (self.month - 1) as u32,
                day: days_in_month(self.year as int, self.month - 1) as u32,
            }
        } else {
            CalDate { year: (self.year - 1) as i32, month: 12, day: 31 }
        }
    }

    /// The first day of this date's month.
    pub open spec fn first_of_month(self) -> CalDate {
        CalDate { year: self.year, month: self.month, day: 1 }
    }

    /// The first day of the month `delta` months away from this date's month,
    /// or `None` when that month lies outside the supported years.
    pub open spec fn month_shifted(self, delta: int) -> Option<CalDate> {
        let t = month_index(self.year as int, self.month as int) + delta;
        if month_index(MIN_YEAR as int, 1) <= t <= month_index(MAX_YEAR as int, 12) {
            Some(CalDate { year: (t / 12) as i32, month: (t % 12 + 1) as u32, day: 1 })
        } else {
            None
        }
    }

    /// The same day `delta` months away, moved back to the last day of the
    /// target month where that month is shorter; `None` when the target month
    /// lies outside the supported years.
    pub open spec fn months_later(self, delta: int) -> Option<CalDate> {
        let t = month_index(self.year as int, self.month as int) + delta;
        let dim = days_in_month(t / 12, t % 12 + 1);
        if month_index(MIN_YEAR as int, 1) <= t <= month_index(MAX_YEAR as int, 12) {
            Some(
                CalDate {
                    year: (t / 12) as i32,
                    month: (t % 12 + 1) as u32,
                    day: if self.day <= dim { self.day } else { dim as u32 },
                },
            )
        } else {
            None
        }
    }

    /// The date `year`-`month`-`day`, or `None` when no such date exists in
    /// the supported years.
    pub fn new(year: i32, month: u32, day: u32) -> (r: Option<CalDate>)
        ensures
            r.is_some() <==> (CalDate { year, month, day }).wf(),
            r.is_some() ==> r == Some(CalDate { year, month, day }),
    {
        if MIN_YEAR <= year && year <= MAX_YEAR && 1 <= month && month <= 12 && 1 <= day && day
            <= month_length(year, month) {
            Some(CalDate { year, month, day })
        } else {
            None
        }
    }

    /// The first day of this date's month.
    pub fn first_day(&self) -> (r: CalDate)
        requires
            self.wf(),
        ensures
            r == self.first_of_month(),
            r.wf(),
    {
        CalDate { year: self.year, month: self.month, day: 1 }
    }
}

/// Number of days in month `m` of year `y`.
pub fn month_length(y: i32, m: u32) -> (r: u32)
    requires
        MIN_YEAR <= y <= MAX_YEAR,
        1 <= m <= 12,
    ensures
        r == days_in_month(y as int, m as int),
{
    if m == 2 {
        // shift by a multiple of 400 years, which keeps leap years as they are
        let s: u64 = (y as i64 + 400000) as u64;
        assert(s % 4 == (y as int) % 4 && s % 100 == (y as int) % 100 && s % 400 == (y as int)
            % 400);
        if s % 4 == 0 && (s % 100 != 0 || s % 400 == 0) {
            29
        } else {
            28
        }
    } else if m == 4 || m == 6 || m == 9 || m == 11 {
        30
    } else {
        31
    }
}

/// Relies on chrono's `NaiveDate::pred_opt`: the previous calendar day, or
/// `None` for the first representable date.
#[verifier::external_body]
pub(crate) fn pred_date(d: CalDate) -> (r: Option<CalDate>)
    requires
        d.wf(),
    ensures
        r.is_none() <==> d.is_first_date(),
        r.is_some() ==> r == Some(d.prev_day()),
{
    let n = chrono::NaiveDate::from_ymd_opt(d.year, d.month, d.day).unwrap();
    n.pred_opt().map(|p| CalDate { year: p.year(), month: p.month(), day: p.day() })
}

/// Relies on chrono's `Datelike::weekday` and `Weekday::num_days_from_sunday`:
/// the weekday, Sunday being 0 and 0001-01-01 a Monday.
#[verifier::external_body]
pub(crate) fn weekday_of(d: CalDate) -> (r: u32)
    requires
        d.wf(),
    ensures
        r as int == d.weekday_from_sunday(),
{
    let n = chrono::NaiveDate::from_ymd_opt(d.year, d.month, d.day).unwrap();
    n.weekday().num_days_from_sunday()
}

/// Relies on chrono's `NaiveDate::checked_add_months`: the same day `n` months
/// later, clamped to the length of that month; `None` outside the supported years.
#[verifier::external_body]
pub(crate) fn add_months(d: CalDate, n: u32) -> (r: Option<CalDate>)
    requires
        d.wf(),
    ensures
        r == d.months_later(n as int),
{
    let n0 = chrono::NaiveDate::from_ymd_opt(d.year, d.month, d.day).unwrap();
    n0.checked_add_months(chrono::Months::new(n)).map(
        |p| CalDate { year: p.year(), month: p.month(), day: p.day() },
    )
}

/// Relies on chrono's `NaiveDate::checked_sub_months`: the same day `n` months
/// earlier, clamped to the length of that month; `None` outside the supported years.
#[verifier::external_body]
pub(crate) fn sub_months(d: CalDate, n: u32) -> (r: Option<CalDate>)
    requires
        d.wf(),
    ensures
        r == d.months_later(-(n as int)),
{
    let n0 = chrono::NaiveDate::from_ymd_opt(d.year, d.month, d.day).unwrap();
    n0.checked_sub_months(chrono::Months::new(n)).map(
        |p| CalDate { year: p.year(), month: p.month(), day: p.day() },
    )
}

/// The first day of the month `delta` months away from `cursor`'s month, or
/// `None` when that month lies outside the supported years.
pub fn advance_month(cursor: CalDate, delta: i32) -> (r: Option<CalDate>)
    requires
        cursor.wf(),
    ensures
        r == cursor.month_shifted(delta as int),
        r.is_some() ==> r.unwrap().wf(),
{
    let first = cursor.first_day();
    let r = if delta >= 0 {
        add_months(first, delta as u32)
    } else {
        sub_months(first, (0i64 - delta as i64) as u32)
    };
    proof {
        if r.is_some() {
            let t = month_index(cursor.year as int, cursor.month as int) + delta;
            lemma_month_of_index(t);
        }
    }
    r
}

/// Splitting a month index in range gives a supported year and a month in 1..=12.
pub proof fn lemma_month_of_index(t: int)
    requires
        month_index(MIN_YEAR as int, 1) <= t <= month_index(MAX_YEAR as int, 12),
    ensures
        MIN_YEAR <= t / 12 <= MAX_YEAR,
        0 <= t % 12 < 12,
        t == (t / 12) * 12 + t % 12,
{
}

/// Moving by `delta` months and then by `-delta` months comes back to the
/// first day of the starting month.
pub proof fn lemma_advance_round_trip(d: CalDate, delta: int)
    requires
        d.wf(),
        d.month_shifted(delta).is_some(),
    ensures
        d.month_shifted(delta).unwrap().month_shifted(-delta) == Some(d.first_of_month()),
{
    let t = month_index(d.year as int, d.month as int) + delta;
    lemma_month_of_index(t);
    let x = d.month_shifted(delta).unwrap();
    let t0 = month_index(d.year as int, d.month as int);
    assert(month_index(x.year as int, x.month as int) == t);
    vstd::arithmetic::div_mod::lemma_fundamental_div_mod_converse(
        t0,
        12,
        d.year as int,
        d.month - 1,
    );
}

} // verus!
