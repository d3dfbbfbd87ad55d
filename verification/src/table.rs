//! The dining philosophers' table: one fork between each pair of seats.
//! Philosopher `i` eats with forks `(i + 4) % 5` and `(i + 1) % 5`.
use vstd::prelude::*;

verus! {

/// The fork on philosopher `i`'s left.
pub open spec fn spec_left(i: int) -> int {
    (i + 4) % 5
}

/// The fork on philosopher `i`'s right.
pub open spec fn spec_right(i: int) -> int {
    (i + 1) % 5
}

/// Both of philosopher `i`'s forks lie on the table in `forks`.
pub open spec fn can_acquire(forks: Seq<bool>, i: int) -> bool {
    forks[spec_left(i)] && forks[spec_right(i)]
}

/// `forks` after philosopher `i` picks up both forks.
pub open spec fn after_acquire(forks: Seq<bool>, i: int) -> Seq<bool> {
    forks.update(spec_left(i), false).update(spec_right(i), false)
}

/// `forks` after philosopher `i` puts both forks down.
pub open spec fn after_release(forks: Seq<bool>, i: int) -> Seq<bool> {
    forks.update(spec_left(i), true).update(spec_right(i), true)
}

/// Philosopher `i`'s forks are forks of `forks`, and `i + 4` fits in a `usize`.
pub open spec fn seat_fits(forks: Seq<bool>, i: usize) -> bool {
    &&& i + 4 <= usize::MAX
    &&& spec_left(i as int) < forks.len()
    &&& spec_right(i as int) < forks.len()
}

/// Two philosophers who need a common fork.
pub open spec fn share_a_fork(i: int, j: int) -> bool {
    ||| spec_left(i) == spec_left(j)
    ||| spec_left(i) == spec_right(j)
    ||| spec_right(i) == spec_left(j)
    ||| spec_right(i) == spec_right(j)
}

/// The forks on the table (`true`: the fork lies there); callers share the
/// table behind a lock and wait while `acquire_forks` answers `false`.
pub struct Table {
    forks: Vec<bool>,
}

impl View for Table {
    type V = Seq<bool>;

    closed spec fn view(&self) -> Seq<bool> {
        self.forks@
    }
}

impl Table {
    /// A table with `number_of_forks` forks, all lying on it.
    pub fn new(number_of_forks: usize) -> (t: Table)
        ensures
            t@ == Seq::new(number_of_forks as nat, |k: int| true),
    {
        let mut forks: Vec<bool> = Vec::new();
        let mut k: usize = 0;
        while k < number_of_forks
            invariant
                k <= number_of_forks,
                forks@ == Seq::new(k as nat, |m: int| true),
            decreases number_of_forks - k,
        {
            forks.push(true);
            k = k + 1;
        }
        Table { forks }
    }

    /// The forks, by number.
    pub fn forks(&self) -> (r: &Vec<bool>)
        ensures
            r@ == self@,
    {
        &self.forks
    }

    /// The fork on philosopher `i`'s right.
    pub fn right(i: usize) -> (r: usize)
        requires
            i + 1 <= usize::MAX,
        ensures
            r == spec_right(i as int),
    {
        let right = (i + 1) % 5;
        right
    }

    /// The fork on philosopher `i`'s left.
    pub fn left(i: usize) -> (l: usize)
        requires
            i + 4 <= usize::MAX,
        ensures
            l == spec_left(i as int),
    {
        let left = (i + 4) % 5;
        left
    }

    /// Philosopher `i` asks for both forks. When both lie on the table they
    /// are taken and the answer is `true`; otherwise nothing changes and the
    /// philosopher waits.
    pub fn acquire_forks(&mut self, i: usize) -> (acquired: bool)
        requires
            seat_fits(old(self)@, i),
        ensures
            acquired == can_acquire(old(self)@, i as int),
            acquired ==> final(self)@ == after_acquire(old(self)@, i as int),
            !acquired ==> final(self)@ == old(self)@,
    {
        let left = Self::left(i);
        let right = Self::right(i);
        if !self.forks[left] || !self.forks[right] {
            return false;
        }
        self.forks.set(left, false);
        self.forks.set(right, false);
        true
    }

    /// Philosopher `i` puts both forks back on the table.
    pub fn release_fork(&mut self, i: usize)
        requires
            seat_fits(old(self)@, i),
        ensures
            final(self)@ == after_release(old(self)@, i as int),
    {
        let left = Self::left(i);
        let right = Self::right(i);
        self.forks.set(left, true);
        self.forks.set(right, true);
    }
}

/// Philosopher `i` uses forks `(i + 4) % 5` and `(i + 1) % 5`: he may take
/// them exactly when both lie on the table, taking them puts exactly those
/// two off the table, and putting them back puts exactly those two on it;
/// every other fork keeps its state.
pub proof fn lemma_seat_forks(forks: Seq<bool>, i: usize, k: int)
    requires
        seat_fits(forks, i),
        0 <= k < forks.len(),
    ensures
        spec_left(i as int) == (i + 4) % 5,
        spec_right(i as int) == (i + 1) % 5,
        can_acquire(forks, i as int) <==> forks[(i + 4) % 5] && forks[(i + 1) % 5],
        after_acquire(forks, i as int).len() == forks.len(),
        after_acquire(forks, i as int)[k] == if k == (i + 4) % 5 || k == (i + 1) % 5 {
            false
        } else {
            forks[k]
        },
        after_release(forks, i as int).len() == forks.len(),
        after_release(forks, i as int)[k] == if k == (i + 4) % 5 || k == (i + 1) % 5 {
            true
        } else {
            forks[k]
        },
{
}

/// Once a philosopher holds both forks, no philosopher who needs one of them
/// can take them until they are put back.
pub proof fn lemma_neighbours_exclude(forks: Seq<bool>, i: usize, j: usize)
    requires
        seat_fits(forks, i),
        seat_fits(forks, j),
        can_acquire(forks, i as int),
        share_a_fork(i as int, j as int),
    ensures
        !can_acquire(after_acquire(forks, i as int), j as int),
{
}

/// Taking both forks and putting them back leaves the table as it was, and
/// touches no other fork.
pub proof fn lemma_release_undoes_acquire(forks: Seq<bool>, i: usize)
    requires
        seat_fits(forks, i),
        can_acquire(forks, i as int),
    ensures
        after_release(after_acquire(forks, i as int), i as int) == forks,
        forall|k: int|
            0 <= k < forks.len() && k != spec_left(i as int) && k != spec_right(i as int)
                ==> #[trigger] after_acquire(forks, i as int)[k] == forks[k],
{
    assert(after_release(after_acquire(forks, i as int), i as int) =~= forks);
}

/// The philosophers in `holders` are those who hold their forks: their
/// forks are forks of `forks` and are off the table, and no two of them need
/// a common fork.
pub open spec fn holders_exclusive(forks: Seq<bool>, holders: Set<int>) -> bool {
    &&& forall|i: int|
        #[trigger] holders.contains(i) ==> {
            &&& spec_left(i) < forks.len()
            &&& spec_right(i) < forks.len()
            &&& !forks[spec_left(i)]
            &&& !forks[spec_right(i)]
        }
    &&& forall|i: int, j: int|
        #[trigger] holders.contains(i) && #[trigger] holders.contains(j) && i != j
            ==> !share_a_fork(i, j)
}

/// Before anyone eats, nobody holds a fork.
pub proof fn lemma_nobody_holds_at_first(forks: Seq<bool>)
    ensures
        holders_exclusive(forks, Set::empty()),
{
}

/// A successful `acquire_forks` by philosopher `i` keeps exclusion: `i` held
/// no forks before, and afterwards the holders, `i` among them, still hold
/// pairwise disjoint forks that are all off the table.
pub proof fn lemma_acquire_keeps_exclusion(forks: Seq<bool>, holders: Set<int>, i: usize)
    requires
        holders_exclusive(forks, holders),
        seat_fits(forks, i),
        can_acquire(forks, i as int),
    ensures
        !holders.contains(i as int),
        holders_exclusive(after_acquire(forks, i as int), holders.insert(i as int)),
{
    let f2 = after_acquire(forks, i as int);
    let h2 = holders.insert(i as int);
    assert forall|k: int| #[trigger] h2.contains(k) implies {
        &&& spec_left(k) < f2.len()
        &&& spec_right(k) < f2.len()
        &&& !f2[spec_left(k)]
        &&& !f2[spec_right(k)]
    } by {
        if k != i as int {
            assert(holders.contains(k));
        }
    }
    assert forall|a: int, b: int|
        #[trigger] h2.contains(a) && #[trigger] h2.contains(b) && a != b implies !share_a_fork(a, b) by {
        if a != i as int && b != i as int {
            assert(holders.contains(a) && holders.contains(b));
        } else if a == i as int {
            assert(holders.contains(b));
        } else {
            assert(holders.contains(a));
        }
    }
}

/// `release_fork` by a holder `i` keeps exclusion for the remaining holders:
/// their forks stay off the table.
pub proof fn lemma_release_keeps_exclusion(forks: Seq<bool>, holders: Set<int>, i: usize)
    requires
        holders_exclusive(forks, holders),
        holders.contains(i as int),
        seat_fits(forks, i),
    ensures
        holders_exclusive(after_release(forks, i as int), holders.remove(i as int)),
{
    let f2 = after_release(forks, i as int);
    let h2 = holders.remove(i as int);
    assert forall|k: int| #[trigger] h2.contains(k) implies {
        &&& spec_left(k) < f2.len()
        &&& spec_right(k) < f2.len()
        &&& !f2[spec_left(k)]
        &&& !f2[spec_right(k)]
    } by {
        assert(holders.contains(k));
        assert(!share_a_fork(i as int, k));
    }
    assert forall|a: int, b: int|
        #[trigger] h2.contains(a) && #[trigger] h2.contains(b) && a != b implies !share_a_fork(a, b) by {
        assert(holders.contains(a) && holders.contains(b));
    }
}

/// A call on the table under its lock, by the philosopher at a seat.
pub enum TableEvent {
    /// `acquire_forks(i)`.
    Acquire(usize),
    /// `release_fork(i)`, made after eating.
    Release(usize),
}

/// The forks and the philosophers holding forks after the calls `evs` from
/// `forks` with nobody holding any; `None` for a run that philosophers do
/// not make: a seat without forks, or a release by one who does not hold.
pub open spec fn table_run(forks: Seq<bool>, evs: Seq<TableEvent>) -> Option<(Seq<bool>, Set<int>)>
    decreases evs.len(),
{
    if evs.len() == 0 {
        Some((forks, Set::empty()))
    } else {
        match table_run(forks, evs.drop_last()) {
            None => None,
            Some((f, h)) => match evs.last() {
                TableEvent::Acquire(i) => if !seat_fits(f, i) {
                    None
                } else if can_acquire(f, i as int) {
                    Some((after_acquire(f, i as int), h.insert(i as int)))
                } else {
                    Some((f, h))
                },
                TableEvent::Release(i) => if !seat_fits(f, i) || !h.contains(i as int) {
                    None
                } else {
                    Some((after_release(f, i as int), h.remove(i as int)))
                },
            },
        }
    }
}

/// Mutual exclusion over whole runs: after any interleaving of acquisitions
/// and releases, the philosophers who hold forks hold pairwise disjoint
/// forks, all off the table.
pub proof fn lemma_table_run_exclusive(forks: Seq<bool>, evs: Seq<TableEvent>)
    ensures
        table_run(forks, evs) matches Some((f, h)) ==> holders_exclusive(f, h),
    decreases evs.len(),
{
    if evs.len() > 0 {
        lemma_table_run_exclusive(forks, evs.drop_last());
        if let Some((f, h)) = table_run(forks, evs.drop_last()) {
            match evs.last() {
                TableEvent::Acquire(i) => {
                    if seat_fits(f, i) && can_acquire(f, i as int) {
                        lemma_acquire_keeps_exclusion(f, h, i);
                    }
                },
                TableEvent::Release(i) => {
                    if seat_fits(f, i) && h.contains(i as int) {
                        lemma_release_keeps_exclusion(f, h, i);
                    }
                },
            }
        }
    } else {
        lemma_nobody_holds_at_first(forks);
    }
}

} // verus!
