use vstd::prelude::*;
use crate::date::CalDate;

verus! {

/// One stored record: whether the habit was done on `date`.
#[derive(Clone, Copy, Debug, PartialEq, Eq, Structural)]
pub struct Entry {
    pub date: CalDate,
    pub done: bool,
}

/// The map that a sequence of records describes; a later record of a date
/// overrides an earlier one.
pub open spec fn map_of(s: Seq<Entry>) -> Map<CalDate, bool>
    decreases s.len(),
{
    if s.len() == 0 {
        Map::empty()
    } else {
        map_of(s.drop_last()).insert(s.last().date, s.last().done)
    }
}

/// Number of records in `s` that say done.
pub open spec fn count_done(s: Seq<Entry>) -> nat
    decreases s.len(),
{
    if s.len() == 0 {
        0
    } else {
        count_done(s.drop_last()) + if s.last().done { 1nat } else { 0nat }
    }
}

/// Whether `m` records `d` as done; a missing record counts as not done.
pub open spec fn marked_in(m: Map<CalDate, bool>, d: CalDate) -> bool {
    m.contains_key(d) && m[d]
}

/// The record map after flipping the flag of `d` (a missing record flips to done).
pub open spec fn toggled(m: Map<CalDate, bool>, d: CalDate) -> Map<CalDate, bool> {
    m.insert(d, !marked_in(m, d))
}

/// The dates that `m` records as done.
pub open spec fn done_dates(m: Map<CalDate, bool>) -> Set<CalDate> {
    m.dom().filter(|d: CalDate| m[d])
}

/// The record store: a map from dates to a done flag.
pub struct HabitData {
    pub(crate) records: Vec<Entry>,
}

impl View for HabitData {
    type V = Map<CalDate, bool>;

    closed spec fn view(&self) -> Map<CalDate, bool> {
        map_of(self.records@)
    }
}

pub open spec fn dates_unique(s: Seq<Entry>) -> bool {
    forall|i: int, j: int| 0 <= i < j < s.len() ==> s[i].date != s[j].date
}

proof fn lemma_map_of_lookup(s: Seq<Entry>)
    requires
        dates_unique(s),
    ensures
        forall|i: int| 0 <= i < s.len() ==> #[trigger] map_of(s).contains_key(s[i].date)
            && map_of(s)[s[i].date] == s[i].done,
        forall|d: CalDate| #[trigger] map_of(s).contains_key(d) ==> exists|i: int|
            0 <= i < s.len() && s[i].date == d,
    decreases s.len(),
{
    if s.len() > 0 {
        let p = s.drop_last();
        lemma_map_of_lookup(p);
        assert forall|i: int| 0 <= i < s.len() implies #[trigger] map_of(s).contains_key(s[i].date)
            && map_of(s)[s[i].date] == s[i].done by {
            if i < s.len() - 1 {
                assert(p[i] == s[i]);
                assert(map_of(p).contains_key(p[i].date));
                assert(s[i].date != s.last().date);
            }
        }
        assert forall|d: CalDate| #[trigger] map_of(s).contains_key(d) implies exists|i: int|
            0 <= i < s.len() && s[i].date == d by {
            if d != s.last().date {
                assert(map_of(p).contains_key(d));
                let i = choose|i: int| 0 <= i < p.len() && p[i].date == d;
                assert(s[i] == p[i]);
            } else {
                assert(s[s.len() - 1].date == d);
            }
        }
    }
}

proof fn lemma_map_of_update(s: Seq<Entry>, i: int, e: Entry)
    requires
        dates_unique(s),
        0 <= i < s.len(),
        e.date == s[i].date,
    ensures
        map_of(s.update(i, e)) == map_of(s).insert(e.date, e.done),
    decreases s.len(),
{
    let t = s.update(i, e);
    if i == s.len() - 1 {
        assert(t.drop_last() =~= s.drop_last());
    } else {
        let p = s.drop_last();
        assert(t.drop_last() =~= p.update(i, e));
        lemma_map_of_update(p, i, e);
        assert(s.last().date != e.date);
        assert(map_of(t) =~= map_of(s).insert(e.date, e.done));
    }
}

proof fn lemma_count_done(s: Seq<Entry>)
    requires
        dates_unique(s),
    ensures
        done_dates(map_of(s)).finite(),
        done_dates(map_of(s)).len() == count_done(s),
    decreases s.len(),
{
    if s.len() == 0 {
        assert(done_dates(map_of(s)) =~= Set::empty());
    } else {
        let p = s.drop_last();
        let e = s.last();
        lemma_count_done(p);
        lemma_map_of_lookup(p);
        let m = map_of(p);
        assert(!m.contains_key(e.date)) by {
            if m.contains_key(e.date) {
                let i = choose|i: int| 0 <= i < p.len() && p[i].date == e.date;
                assert(s[i] == p[i]);
            }
        }
        if e.done {
            assert(done_dates(map_of(s)) =~= done_dates(m).insert(e.date));
        } else {
            assert(done_dates(map_of(s)) =~= done_dates(m));
        }
    }
}

impl HabitData {
    /// Every record is of an existing date, and no date has two records.
    pub closed spec fn wf(&self) -> bool {
        &&& dates_unique(self.records@)
        &&& forall|i: int| 0 <= i < self.records@.len() ==> (#[trigger] self.records@[i]).date.wf()
    }

    /// Only existing dates have records.
    pub proof fn lemma_keys_wf(&self)
        requires
            self.wf(),
        ensures
            forall|d: CalDate| #[trigger] self@.contains_key(d) ==> d.wf(),
    {
        lemma_map_of_lookup(self.records@);
    }

    /// An empty store.
    pub fn new() -> (r: HabitData)
        ensures
            r.wf(),
            r@ == Map::<CalDate, bool>::empty(),
    {
        HabitData { records: Vec::new() }
    }

    fn find(&self, d: CalDate) -> (r: Option<usize>)
        requires
            self.wf(),
        ensures
            r.is_some() ==> r.unwrap() < self.records@.len() && self.records@[r.unwrap() as int].date
                == d,
            r.is_none() ==> !self@.contains_key(d),
    {
        let mut i: usize = 0;
        while i < self.records.len()
            invariant
                i <= self.records@.len(),
                forall|j: int| 0 <= j < i ==> self.records@[j].date != d,
            decreases self.records@.len() - i,
        {
            if self.records[i].date == d {
                return Some(i);
            }
            i = i + 1;
        }
        proof {
            lemma_map_of_lookup(self.records@);
        }
        None
    }

    /// The stored flag of `d`, or false where there is no record.
    pub fn is_marked(&self, d: CalDate) -> (r: bool)
        requires
            self.wf(),
        ensures
            r == marked_in(self@, d),
    {
        proof {
            lemma_map_of_lookup(self.records@);
        }
        match self.find(d) {
            Some(i) => self.records[i].done,
            None => false,
        }
    }

    /// Records `done` for `d`, replacing any earlier record of it.
    pub fn set_record(&mut self, d: CalDate, done: bool)
        requires
            old(self).wf(),
            d.wf(),
        ensures
            final(self).wf(),
            final(self)@ == old(self)@.insert(d, done),
    {
        let e = Entry { date: d, done };
        match self.find(d) {
            Some(i) => {
                proof {
                    lemma_map_of_update(self.records@, i as int, e);
                }
                self.records.set(i, e);
            },
            None => {
                proof {
                    lemma_map_of_lookup(self.records@);
                }
                let ghost s = self.records@;
                self.records.push(e);
                proof {
                    assert(self.records@.drop_last() =~= s);
                    assert forall|j: int| 0 <= j < s.len() implies s[j].date != d by {
                        assert(map_of(s).contains_key(s[j].date));
                    }
                }
            },
        }
    }

    /// Flips the flag of `d`; a date without a record becomes done.
    pub fn toggle(&mut self, d: CalDate)
        requires
            old(self).wf(),
            d.wf(),
        ensures
            final(self).wf(),
            final(self)@ == toggled(old(self)@, d),
    {
        let now = self.is_marked(d);
        self.set_record(d, !now);
    }

    /// Number of dates recorded as done.
    pub fn total_completions(&self) -> (r: usize)
        requires
            self.wf(),
        ensures
            r == done_dates(self@).len(),
    {
        let mut n: usize = 0;
        let mut i: usize = 0;
        while i < self.records.len()
            invariant
                i <= self.records@.len(),
                n == count_done(self.records@.take(i as int)),
                n <= i,
            decreases self.records@.len() - i,
        {
            proof {
                assert(self.records@.take(i + 1).drop_last() =~= self.records@.take(i as int));
            }
            if self.records[i].done {
                n = n + 1;
            }
            i = i + 1;
        }
        proof {
            assert(self.records@.take(i as int) =~= self.records@);
            lemma_count_done(self.records@);
        }
        n
    }

    /// All records, one per date.
    pub fn entries(&self) -> (r: Vec<Entry>)
        requires
            self.wf(),
        ensures
            map_of(r@) == self@,
            dates_unique(r@),
    {
        self.records.clone()
    }
}

/// Flipping the same date twice gives back its original flag.
pub proof fn lemma_toggle_twice(m: Map<CalDate, bool>, d: CalDate)
    ensures
        marked_in(toggled(toggled(m, d), d), d) == marked_in(m, d),
        toggled(toggled(m, d), d).dom() == m.dom().insert(d),
{
    assert(toggled(toggled(m, d), d).dom() =~= m.dom().insert(d));
}

} // verus!
