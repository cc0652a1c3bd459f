use vstd::prelude::*;
use crate::date::{CalDate, advance_month};
use crate::grid::{DayCell, build_grid, is_month_grid};
use crate::store::{HabitData, done_dates, toggled};
use crate::streak::{current_streak, run_holds};

verus! {

/// A user action on the tracker.
#[derive(Clone, Copy, Debug, PartialEq, Eq, Structural)]
pub enum Message {
    /// Flip the done flag of a date; only today's flag can change.
    ToggleDate(CalDate),
    /// Show the previous month.
    PrevMonth,
    /// Show the next month.
    NextMonth,
}

/// The habit tracker: the record store, the displayed month and the fixed
/// current day.
pub struct HabitTracker {
    pub data: HabitData,
    pub current_month: CalDate,
    pub today: CalDate,
}

/// The displayed month after moving by `delta` months; it stays where it is
/// when the target month lies outside the supported years.
pub open spec fn moved_month(cursor: CalDate, delta: int) -> CalDate {
    match cursor.month_shifted(delta) {
        Some(x) => x,
        None => cursor,
    }
}

impl HabitTracker {
    pub open spec fn wf(&self) -> bool {
        &&& self.data.wf()
        &&& self.current_month.wf()
        &&& self.today.wf()
    }

    /// A tracker over `data` that shows the month of `today`.
    pub fn new(data: HabitData, today: CalDate) -> (r: HabitTracker)
        requires
            data.wf(),
            today.wf(),
        ensures
            r.wf(),
            r.data@ == data@,
            r.current_month == today,
            r.today == today,
    {
        HabitTracker { data, current_month: today, today }
    }

    /// Applies one action. Returns whether the record store changed, in which
    /// case it is due to be saved.
    pub fn update(&mut self, message: Message) -> (changed: bool)
        requires
            old(self).wf(),
        ensures
            final(self).wf(),
            final(self).today == old(self).today,
            match message {
                Message::ToggleDate(d) => {
                    &&& changed == (d == old(self).today)
                    &&& final(self).data@ == if d == old(self).today {
                        toggled(old(self).data@, d)
                    } else {
                        old(self).data@
                    }
                    &&& final(self).current_month == old(self).current_month
                },
                Message::PrevMonth => {
                    &&& !changed
                    &&& final(self).data@ == old(self).data@
                    &&& final(self).current_month == moved_month(old(self).current_month, -1)
                },
                Message::NextMonth => {
                    &&& !changed
                    &&& final(self).data@ == old(self).data@
                    &&& final(self).current_month == moved_month(old(self).current_month, 1)
                },
            },
    {
        match message {
            Message::ToggleDate(d) => {
                if d == self.today {
                    self.data.toggle(d);
                    true
                } else {
                    false
                }
            },
            Message::PrevMonth => {
                if let Some(x) = advance_month(self.current_month, -1) {
                    self.current_month = x;
                }
                false
            },
            Message::NextMonth => {
                if let Some(x) = advance_month(self.current_month, 1) {
                    self.current_month = x;
                }
                false
            },
        }
    }

    /// Number of dates recorded as done.
    pub fn total_completions(&self) -> (r: usize)
        requires
            self.wf(),
        ensures
            r == done_dates(self.data@).len(),
    {
        self.data.total_completions()
    }

    /// Current run of done days ending today.
    pub fn streak(&self) -> (r: u32)
        requires
            self.wf(),
        ensures
            run_holds(self.data@, self.today, r as nat),
            !run_holds(self.data@, self.today, r as nat + 1),
    {
        current_streak(&self.data, self.today)
    }

    /// The grid of the displayed month.
    pub fn grid(&self) -> (weeks: Vec<Vec<DayCell>>)
        requires
            self.wf(),
        ensures
            is_month_grid(
                weeks@.map_values(|v: Vec<DayCell>| v@),
                self.current_month,
                self.today,
                self.data@,
            ),
    {
        build_grid(self.current_month, self.today, &self.data)
    }
}

} // verus!
