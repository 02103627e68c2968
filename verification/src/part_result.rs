//! The numeric results of one puzzle run: one optional integer per part,
//! each recorded at most once.

use vstd::prelude::*;

verus! {

/// The two parts of a run's result, as integers; `None` until recorded.
pub struct PartResult {
    part1: Option<i64>,
    part2: Option<i64>,
}

impl View for PartResult {
    type V = (Option<i64>, Option<i64>);

    closed spec fn view(&self) -> (Option<i64>, Option<i64>) {
        (self.part1, self.part2)
    }
}

impl PartResult {
    /// A fresh result with neither part recorded.
    pub fn new() -> (r: PartResult)
        ensures
            r@.0 is None,
            r@.1 is None,
    {
        PartResult { part1: None, part2: None }
    }

    /// Record the result of part 1, which must not be recorded yet.
    pub fn part1(&mut self, result: i64)
        requires
            old(self)@.0 is None,
        ensures
            final(self)@.0 == Some(result),
            final(self)@.1 == old(self)@.1,
    {
        self.part1 = Some(result);
    }

    /// Record the result of part 2, which must not be recorded yet.
    pub fn part2(&mut self, result: i64)
        requires
            old(self)@.1 is None,
        ensures
            final(self)@.1 == Some(result),
            final(self)@.0 == old(self)@.0,
    {
        self.part2 = Some(result);
    }

    /// The recorded result of part 1, if any.
    pub fn get_part1(&self) -> (r: Option<i64>)
        ensures
            r == self@.0,
    {
        self.part1
    }

    /// The recorded result of part 2, if any.
    pub fn get_part2(&self) -> (r: Option<i64>)
        ensures
            r == self@.1,
    {
        self.part2
    }
}

} // verus!
