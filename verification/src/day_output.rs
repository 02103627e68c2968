//! The textual results of one puzzle run: one optional string per part,
//! each recorded at most once.

use vstd::prelude::*;

verus! {

/// The two parts of a run's output, as text; `None` until recorded.
pub struct DayOutput {
    part1: Option<String>,
    part2: Option<String>,
}

impl View for DayOutput {
    type V = (Option<Seq<char>>, Option<Seq<char>>);

    closed spec fn view(&self) -> (Option<Seq<char>>, Option<Seq<char>>) {
        (
            match self.part1 {
                Some(s) => Some(s@),
                None => None,
            },
            match self.part2 {
                Some(s) => Some(s@),
                None => None,
            },
        )
    }
}

impl DayOutput {
    /// A fresh output with neither part recorded.
    pub fn new() -> (r: DayOutput)
        ensures
            r@.0 is None,
            r@.1 is None,
    {
        DayOutput { part1: None, part2: None }
    }

    /// Record the result of part 1, which must not be recorded yet.
    pub fn part1(&mut self, result: String)
        requires
            old(self)@.0 is None,
        ensures
            final(self)@.0 == Some(result@),
            final(self)@.1 == old(self)@.1,
    {
        self.part1 = Some(result);
    }

    /// Record the result of part 2, which must not be recorded yet.
    pub fn part2(&mut self, result: String)
        requires
            old(self)@.1 is None,
        ensures
            final(self)@.1 == Some(result@),
            final(self)@.0 == old(self)@.0,
    {
        self.part2 = Some(result);
    }

    /// The recorded result of part 1, if any.
    pub fn get_part1(&self) -> (r: &Option<String>)
        ensures
            (match r {
                Some(s) => self@.0 == Some(s@),
                None => self@.0 is None,
            }),
    {
        &self.part1
    }

    /// The recorded result of part 2, if any.
    pub fn get_part2(&self) -> (r: &Option<String>)
        ensures
            (match r {
                Some(s) => self@.1 == Some(s@),
                None => self@.1 is None,
            }),
    {
        &self.part2
    }
}

} // verus!
