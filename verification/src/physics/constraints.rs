use vstd::prelude::*;

verus! {

/// Runs distance constraints between entities for a fixed number of rounds.
pub struct ConstraintSolver {
    iterations: usize,
}

impl ConstraintSolver {
    pub fn new(iterations: usize) -> (s: Self)
        ensures
            s.rounds() == iterations,
    {
        Self { iterations }
    }

    /// The number of rounds of each solve.
    pub closed spec fn rounds(&self) -> usize {
        self.iterations
    }

    /// The number of rounds of each solve.
    pub fn iterations(&self) -> (n: usize)
        ensures
            n == self.rounds(),
    {
        self.iterations
    }
}

} // verus!
