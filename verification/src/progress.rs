//! Consumption progress of a document-typed entity: how many units were
//! passed out of a fixed ceiling.

use vstd::prelude::*;

verus! {

/// Progress through a document: `passed` units out of `ceiling`.
///
/// Invariant: `ceiling >= 1` and `passed <= ceiling` at every observable
/// point.
#[derive(Debug, Clone, Copy, PartialEq, Eq, Structural)]
pub struct Progress {
    passed: usize,
    ceiling: usize,
}

impl Progress {
    /// The struct invariant: the ceiling is positive and never exceeded.
    pub open spec fn wf(self) -> bool {
        1 <= self.spec_ceiling() && self.spec_passed() <= self.spec_ceiling()
    }

    pub closed spec fn spec_passed(self) -> usize {
        self.passed
    }

    pub closed spec fn spec_ceiling(self) -> usize {
        self.ceiling
    }

    /// Fresh progress: nothing passed yet.
    pub fn new(ceiling: usize) -> (r: Self)
        requires
            ceiling >= 1,
        ensures
            r.wf(),
            r.spec_passed() == 0,
            r.spec_ceiling() == ceiling,
    {
        Progress { passed: 0, ceiling }
    }

    /// Progress with an explicit number of passed units.
    pub fn with_passed(passed: usize, ceiling: usize) -> (r: Self)
        requires
            ceiling >= 1,
            passed <= ceiling,
        ensures
            r.wf(),
            r.spec_passed() == passed,
            r.spec_ceiling() == ceiling,
    {
        Progress { passed, ceiling }
    }

    pub fn passed(&self) -> (r: usize)
        ensures
            r == self.spec_passed(),
    {
        self.passed
    }

    pub fn ceiling(&self) -> (r: usize)
        ensures
            r == self.spec_ceiling(),
    {
        self.ceiling
    }

    /// Overwrites the passed counter; the caller must stay under the ceiling.
    pub fn set_passed(&mut self, new_passed: usize)
        requires
            old(self).wf(),
            new_passed <= old(self).spec_ceiling(),
        ensures
            final(self).wf(),
            final(self).spec_passed() == new_passed,
            final(self).spec_ceiling() == old(self).spec_ceiling(),
    {
        self.passed = new_passed;
    }

    /// Advances the counter by `by`, clamping at the ceiling.
    pub fn forward_by(&mut self, by: usize)
        requires
            old(self).wf(),
        ensures
            final(self).wf(),
            final(self).spec_ceiling() == old(self).spec_ceiling(),
            final(self).spec_passed() == if old(self).spec_passed() + by
                <= old(self).spec_ceiling() {
                old(self).spec_passed() + by
            } else {
                old(self).spec_ceiling() as int
            },
    {
        if by <= self.ceiling - self.passed {
            self.passed = self.passed + by;
        } else {
            self.passed = self.ceiling;
        }
    }

    /// Moves the counter back by `by`, clamping at zero.
    pub fn backward_by(&mut self, by: usize)
        requires
            old(self).wf(),
        ensures
            final(self).wf(),
            final(self).spec_ceiling() == old(self).spec_ceiling(),
            final(self).spec_passed() == if by <= old(self).spec_passed() {
                old(self).spec_passed() - by
            } else {
                0
            },
    {
        if by <= self.passed {
            self.passed = self.passed - by;
        } else {
            self.passed = 0;
        }
    }
}

} // verus!
