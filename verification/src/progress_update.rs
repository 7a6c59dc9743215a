//! Requested mutations of a [`Progress`] record: clamping moves in either
//! direction, an exact set, or no change at all.

use vstd::prelude::*;

use crate::progress::Progress;

verus! {

/// The only way a progress mutation can fail: `SetTo` asked for more than the
/// ceiling.
#[derive(Debug, Clone, Copy, PartialEq, Eq, Structural)]
pub enum ProgressUpdateError {
    InvalidPassedValue { invalid_passed_val: usize, ceiling: usize },
}

/// A requested change of the passed counter.
///
/// `Increase` clamps at the ceiling and `Decrease` clamps at zero (they never
/// fail); `SetTo` fails when the value exceeds the ceiling; `Leave` does
/// nothing. The asymmetry is deliberate: relative moves saturate, absolute
/// moves are checked.
#[derive(Debug, Clone, Copy, Hash, PartialEq, Eq, Structural)]
pub enum ProgressUpdate {
    Increase(usize),
    Decrease(usize),
    SetTo(usize),
    Leave,
}

impl ProgressUpdate {
    pub fn increase(val: usize) -> (r: Self)
        ensures
            r == ProgressUpdate::Increase(val),
    {
        ProgressUpdate::Increase(val)
    }

    pub fn decrease(val: usize) -> (r: Self)
        ensures
            r == ProgressUpdate::Decrease(val),
    {
        ProgressUpdate::Decrease(val)
    }

    pub fn set(val: usize) -> (r: Self)
        ensures
            r == ProgressUpdate::SetTo(val),
    {
        ProgressUpdate::SetTo(val)
    }

    pub fn leave() -> (r: Self)
        ensures
            r == ProgressUpdate::Leave,
    {
        ProgressUpdate::Leave
    }

    /// What the passed counter becomes when the update succeeds.
    pub open spec fn spec_applied(self, p: Progress) -> int {
        match self {
            ProgressUpdate::Increase(by) => if p.spec_passed() + by <= p.spec_ceiling() {
                p.spec_passed() + by
            } else {
                p.spec_ceiling() as int
            },
            ProgressUpdate::Decrease(by) => if by <= p.spec_passed() {
                p.spec_passed() - by
            } else {
                0
            },
            ProgressUpdate::SetTo(val) => val as int,
            ProgressUpdate::Leave => p.spec_passed() as int,
        }
    }

    /// Whether the update succeeds on `p`: everything but an over-ceiling
    /// `Set` does.
    pub open spec fn spec_valid_for(self, p: Progress) -> bool {
        match self {
            ProgressUpdate::SetTo(val) => val <= p.spec_ceiling(),
            _ => true,
        }
    }

    /// Applies the update to `progress` in place.
    pub fn execute_for(&self, progress: &mut Progress) -> (r: Result<
        (),
        ProgressUpdateError,
    >)
        requires
            old(progress).wf(),
        ensures
            final(progress).wf(),
            final(progress).spec_ceiling() == old(progress).spec_ceiling(),
            self.spec_valid_for(*old(progress)) ==> r is Ok
                && final(progress).spec_passed() == self.spec_applied(*old(progress)),
            !self.spec_valid_for(*old(progress)) ==> *final(progress) == *old(progress)
                && r == Result::<(), ProgressUpdateError>::Err(
                ProgressUpdateError::InvalidPassedValue {
                    invalid_passed_val: self->SetTo_0,
                    ceiling: old(progress).spec_ceiling(),
                },
            ),
    {
        match self {
            ProgressUpdate::Increase(increase) => {
                progress.forward_by(*increase);
                Ok(())
            },
            ProgressUpdate::Decrease(decrease) => {
                progress.backward_by(*decrease);
                Ok(())
            },
            ProgressUpdate::SetTo(set) => {
                if *set > progress.ceiling() {
                    Err(ProgressUpdateError::InvalidPassedValue {
                        invalid_passed_val: *set,
                        ceiling: progress.ceiling(),
                    })
                } else {
                    progress.set_passed(*set);
                    Ok(())
                }
            },
            ProgressUpdate::Leave => Ok(()),
        }
    }
}

} // verus!
