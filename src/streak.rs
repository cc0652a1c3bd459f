use vstd::prelude::*;
use crate::date::{CalDate, MIN_YEAR, MAX_YEAR, pred_date};
use crate::store::{HabitData, marked_in};

verus! {

/// The date `n` days before `d`.
pub open spec fn nth_prev(d: CalDate, n: nat) -> CalDate
    decreases n,
{
    if n == 0 {
        d
    } else {
        nth_prev(d, (n - 1) as nat).prev_day()
    }
}

/// `today` and the `n - 1` days before it are all recorded as done in `m`.
pub open spec fn run_holds(m: Map<CalDate, bool>, today: CalDate, n: nat) -> bool {
    forall|k: nat| k < n ==> marked_in(m, #[trigger] nth_prev(today, k))
}

/// An upper bound on the number of days from the first supported date to `d`.
spec fn steps_left(d: CalDate) -> int {
    (d.year - MIN_YEAR) * 372 + (d.month - 1) * 31 + (d.day - 1)
}

proof fn lemma_prev_day_steps(d: CalDate)
    requires
        d.wf(),
        !d.is_first_date(),
    ensures
        d.prev_day().wf(),
        steps_left(d.prev_day()) < steps_left(d),
{
}

proof fn lemma_steps_bound(d: CalDate)
    requires
        d.wf(),
    ensures
        0 <= steps_left(d) <= (MAX_YEAR - MIN_YEAR) * 372 + 371,
{
}

/// Number of consecutive days, walking back from `today`, that are recorded
/// as done; a missing record ends the run as a false one does.
pub fn current_streak(data: &HabitData, today: CalDate) -> (r: u32)
    requires
        data.wf(),
        today.wf(),
    ensures
        run_holds(data@, today, r as nat),
        !run_holds(data@, today, r as nat + 1),
{
    let mut cur = today;
    let mut streak: u32 = 0;
    proof {
        lemma_steps_bound(today);
    }
    loop
        invariant
            data.wf(),
            cur.wf(),
            cur == nth_prev(today, streak as nat),
            run_holds(data@, today, streak as nat),
            streak + steps_left(cur) <= steps_left(today),
            steps_left(today) <= (MAX_YEAR - MIN_YEAR) * 372 + 371,
            0 <= steps_left(cur),
        decreases steps_left(cur),
    {
        if !data.is_marked(cur) {
            return streak;
        }
        proof {
            assert forall|k: nat| k < streak as nat + 1 implies marked_in(
                data@,
                #[trigger] nth_prev(today, k),
            ) by {
                if k < streak as nat {
                    assert(run_holds(data@, today, streak as nat));
                }
            }
        }
        match pred_date(cur) {
            None => {
                proof {
                    data.lemma_keys_wf();
                    let next = nth_prev(today, streak as nat + 1);
                    assert(next == cur.prev_day());
                    assert(!next.wf());
                }
                return streak + 1;
            },
            Some(p) => {
                proof {
                    lemma_prev_day_steps(cur);
                    assert(p == nth_prev(today, streak as nat + 1));
                }
                cur = p;
                streak = streak + 1;
            },
        }
    }
}

/// The streak is the length of the longest run of done days ending at
/// `today`: every shorter run holds and no longer one does; when `today`
/// itself is not done the streak is 0.
pub proof fn lemma_streak_is_longest_run(m: Map<CalDate, bool>, today: CalDate, n: nat)
    requires
        run_holds(m, today, n),
        !run_holds(m, today, n + 1),
    ensures
        forall|j: nat| #[trigger] run_holds(m, today, j) <==> j <= n,
        !marked_in(m, today) ==> n == 0,
{
    assert forall|j: nat| #[trigger] run_holds(m, today, j) <==> j <= n by {
        if j > n && run_holds(m, today, j) {
            assert forall|k: nat| k < n + 1 implies marked_in(m, #[trigger] nth_prev(today, k)) by {
                assert(k < j);
            }
        }
        if j <= n {
            assert forall|k: nat| k < j implies marked_in(m, #[trigger] nth_prev(today, k)) by {
                assert(k < n);
            }
        }
    }
    if n > 0 {
        assert(nth_prev(today, 0) == today);
    }
}

} // verus!
