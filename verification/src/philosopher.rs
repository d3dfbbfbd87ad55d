//! A philosopher, who alternately thinks and eats with the two forks beside
//! his seat on the table.
use vstd::prelude::*;

verus! {

/// The philosopher at seat `id`.
pub struct Philosopher {
    id: usize,
}

impl Philosopher {
    pub fn new(id: usize) -> (p: Philosopher)
        ensures
            p.seat() == id,
    {
        Philosopher { id }
    }

    pub closed spec fn seat(&self) -> usize {
        self.id
    }

    /// The philosopher's seat, which names his forks on the table.
    pub fn id(&self) -> (i: usize)
        ensures
            i == self.seat(),
    {
        self.id
    }
}

} // verus!
