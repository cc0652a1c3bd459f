use vstd::prelude::*;
use crate::date::{CalDate, days_in_month, month_length, weekday_of};
use crate::store::{HabitData, marked_in};

verus! {

/// One day-cell of the month grid. Cells of adjacent months are padding:
/// they are never shown as today or as done, and cannot be toggled.
#[derive(Clone, Copy, Debug, PartialEq, Eq, Structural)]
pub struct DayCell {
    pub date: CalDate,
    pub in_month: bool,
    pub is_today: bool,
    pub marked: bool,
}

/// Number of 7-day weeks that cover a month of `n` days whose first day
/// falls `w` days after the start of the week.
pub open spec fn week_count(w: int, n: int) -> int {
    (w + n + 6) / 7
}

/// The cell at position `k` (counted row by row from the top left) of the
/// grid of the month that starts on `first`, whose weekday is `w`.
pub open spec fn grid_cell(
    first: CalDate,
    w: int,
    today: CalDate,
    m: Map<CalDate, bool>,
    k: int,
) -> DayCell {
    let y = first.year as int;
    let mo = first.month as int;
    let n = days_in_month(y, mo);
    if k < w {
        let py = if mo == 1 { y - 1 } else { y };
        let pm = if mo == 1 { 12 } else { mo - 1 };
        DayCell {
            date: CalDate {
                year: py as i32,
                month: pm as u32,
                day: (days_in_month(py, pm) - w + 1 + k) as u32,
            },
            in_month: false,
            is_today: false,
            marked: false,
        }
    } else if k < w + n {
        let d = CalDate { year: first.year, month: first.month, day: (k - w + 1) as u32 };
        DayCell { date: d, in_month: true, is_today: d == today, marked: marked_in(m, d) }
    } else {
        let ny = if mo == 12 { y + 1 } else { y };
        let nm = if mo == 12 { 1 } else { mo + 1 };
        DayCell {
            date: CalDate { year: ny as i32, month: nm as u32, day: (k - w - n + 1) as u32 },
            in_month: false,
            is_today: false,
            marked: false,
        }
    }
}

/// `weeks` is the grid of `cursor`'s month: whole weeks, as many as the month
/// needs, each cell as `grid_cell` gives it.
pub open spec fn is_month_grid(
    weeks: Seq<Seq<DayCell>>,
    cursor: CalDate,
    today: CalDate,
    m: Map<CalDate, bool>,
) -> bool {
    let first = cursor.first_of_month();
    let w = first.weekday_from_sunday();
    let n = days_in_month(first.year as int, first.month as int);
    &&& weeks.len() == week_count(w, n)
    &&& forall|j: int| 0 <= j < weeks.len() ==> (#[trigger] weeks[j]).len() == 7
    &&& forall|j: int, i: int|
        0 <= j < weeks.len() && 0 <= i < 7 ==> #[trigger] weeks[j][i] == grid_cell(
            first,
            w,
            today,
            m,
            7 * j + i,
        )
}

fn cell_at(first: CalDate, w: u32, n: u32, today: CalDate, data: &HabitData, k: u32) -> (r:
    DayCell)
    requires
        first.wf(),
        first.day == 1,
        w < 7,
        n == days_in_month(first.year as int, first.month as int),
        k < 7 * 6,
        data.wf(),
    ensures
        r == grid_cell(first, w as int, today, data@, k as int),
{
    if k < w {
        let (py, pm): (i32, u32) = if first.month == 1 {
            (first.year - 1, 12)
        } else {
            (first.year, first.month - 1)
        };
        let plen: u32 = if first.month == 1 { 31 } else { month_length(py, pm) };
        let date = CalDate { year: py, month: pm, day: plen - w + 1 + k };
        DayCell { date, in_month: false, is_today: false, marked: false }
    } else if k < w + n {
        let date = CalDate { year: first.year, month: first.month, day: k - w + 1 };
        DayCell { date, in_month: true, is_today: date == today, marked: data.is_marked(date) }
    } else {
        let (ny, nm): (i32, u32) = if first.month == 12 {
            (first.year + 1, 1)
        } else {
            (first.year, first.month + 1)
        };
        let date = CalDate { year: ny, month: nm, day: k - w - n + 1 };
        DayCell { date, in_month: false, is_today: false, marked: false }
    }
}

/// The grid of `cursor`'s month: whole weeks from Sunday to Saturday, with
/// padding days of the adjacent months only to fill the first and last week.
pub fn build_grid(cursor: CalDate, today: CalDate, data: &HabitData) -> (weeks: Vec<Vec<DayCell>>)
    requires
        cursor.wf(),
        data.wf(),
    ensures
        is_month_grid(weeks@.map_values(|v: Vec<DayCell>| v@), cursor, today, data@),
{
    let first = cursor.first_day();
    let w = weekday_of(first);
    let n = month_length(first.year, first.month);
    let ghost wc = week_count(w as int, n as int);
    let mut weeks: Vec<Vec<DayCell>> = Vec::new();
    let mut j: u32 = 0;
    while 7 * j < w + n
        invariant
            w < 7,
            28 <= n <= 31,
            first == cursor.first_of_month(),
            first.wf(),
            w as int == first.weekday_from_sunday(),
            n == days_in_month(first.year as int, first.month as int),
            data.wf(),
            j <= 6,
            7 * (j - 1) < w + n || j == 0,
            weeks@.len() == j,
            forall|a: int| 0 <= a < j ==> (#[trigger] weeks@[a])@.len() == 7,
            forall|a: int, i: int|
                0 <= a < j && 0 <= i < 7 ==> #[trigger] weeks@[a]@[i] == grid_cell(
                    first,
                    w as int,
                    today,
                    data@,
                    7 * a + i,
                ),
        decreases 6 - j,
    {
        let mut week: Vec<DayCell> = Vec::new();
        let mut i: u32 = 0;
        while i < 7
            invariant
                i <= 7,
                j < 6,
                w < 7,
                first.wf(),
                first.day == 1,
                n == days_in_month(first.year as int, first.month as int),
                data.wf(),
                week@.len() == i,
                forall|b: int|
                    0 <= b < i ==> #[trigger] week@[b] == grid_cell(
                        first,
                        w as int,
                        today,
                        data@,
                        7 * j + b,
                    ),
            decreases 7 - i,
        {
            week.push(cell_at(first, w, n, today, data, 7 * j + i));
            i = i + 1;
        }
        weeks.push(week);
        j = j + 1;
    }
    proof {
        assert(j == wc);
        let s = weeks@.map_values(|v: Vec<DayCell>| v@);
        assert forall|a: int| 0 <= a < s.len() implies (#[trigger] s[a]).len() == 7 by {
            assert(s[a] == weeks@[a]@);
        }
        assert forall|a: int, i: int| 0 <= a < s.len() && 0 <= i < 7 implies #[trigger] s[a][i]
            == grid_cell(first, w as int, today, data@, 7 * a + i) by {
            assert(s[a] == weeks@[a]@);
        }
    }
    weeks
}

/// Layout of a month grid: its cells fill whole weeks; each day of the month
/// stands in exactly one cell, and every in-month cell holds a day of the
/// month; padding cells stand only in the first or the last week and are
/// never today nor done.
pub proof fn lemma_grid_layout(cursor: CalDate, today: CalDate, m: Map<CalDate, bool>)
    requires
        cursor.wf(),
    ensures
        ({
            let first = cursor.first_of_month();
            let w = first.weekday_from_sunday();
            let n = days_in_month(first.year as int, first.month as int);
            let wc = week_count(w, n);
            &&& 1 <= wc <= 6
            &&& forall|dd: int|
                1 <= dd <= n ==> {
                    &&& 0 <= w + dd - 1 < 7 * wc
                    &&& #[trigger] grid_cell(first, w, today, m, w + dd - 1).in_month
                    &&& grid_cell(first, w, today, m, w + dd - 1).date == CalDate {
                        year: first.year,
                        month: first.month,
                        day: dd as u32,
                    }
                }
            &&& forall|k1: int, k2: int|
                0 <= k1 < 7 * wc && 0 <= k2 < 7 * wc && (#[trigger] grid_cell(
                    first,
                    w,
                    today,
                    m,
                    k1,
                )).in_month && (#[trigger] grid_cell(first, w, today, m, k2)).in_month
                    && grid_cell(first, w, today, m, k1).date == grid_cell(
                    first,
                    w,
                    today,
                    m,
                    k2,
                ).date ==> k1 == k2
            &&& forall|k: int|
                0 <= k < 7 * wc && (#[trigger] grid_cell(first, w, today, m, k)).in_month ==> {
                    &&& grid_cell(first, w, today, m, k).date.year == first.year
                    &&& grid_cell(first, w, today, m, k).date.month == first.month
                    &&& 1 <= grid_cell(first, w, today, m, k).date.day <= n
                }
            &&& forall|k: int|
                0 <= k < 7 * wc && !(#[trigger] grid_cell(first, w, today, m, k)).in_month ==> {
                    &&& (k < 7 || k >= 7 * (wc - 1))
                    &&& !grid_cell(first, w, today, m, k).is_today
                    &&& !grid_cell(first, w, today, m, k).marked
                }
        }),
{
}

} // verus!
