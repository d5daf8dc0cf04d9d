//! Choices and bookkeeping shared by the one-pass and two-pass Lanczos
//! recurrences.

use crate::lanczos::projected::off_diagonal_len;
use vstd::prelude::*;

verus! {

/// Reorthogonalization strategy for the one-pass Lanczos basis. The two-pass
/// variant drops the basis vectors and cannot reorthogonalize.
#[derive(Debug, Clone, Copy, PartialEq, Eq, Structural)]
pub enum Reorthogonalization {
    /// Bare three-term recurrence.
    Bare,
    /// Full reorthogonalization with a DGKS refinement pass.
    Full,
}

impl Default for Reorthogonalization {
    fn default() -> (res: Self)
        ensures
            res == Reorthogonalization::Bare,
    {
        Reorthogonalization::Bare
    }
}

/// The counts of a Lanczos run, as numbers.
pub struct StepState {
    /// Steps asked for.
    pub k: nat,
    /// Steps taken so far: one diagonal entry `alpha` each.
    pub taken: nat,
    /// Off-diagonal entries `beta` kept so far.
    pub kept: nat,
    /// The residual broke down, which ends the run.
    pub stopped: bool,
}

/// The step bookkeeping of a Lanczos run of at most `k` steps. Each step
/// yields a diagonal entry; its coupling entry to the next step is kept
/// unless the residual broke down (which ends the run) or it was the last
/// step asked for.
pub struct StepCounter {
    k: usize,
    taken: usize,
    kept: usize,
    stopped: bool,
}

impl View for StepCounter {
    type V = StepState;

    closed spec fn view(&self) -> StepState {
        StepState { k: self.k as nat, taken: self.taken as nat, kept: self.kept as nat, stopped: self.stopped }
    }
}

impl StepCounter {
    #[verifier::type_invariant]
    spec fn counts_agree(self) -> bool {
        &&& self.taken <= self.k
        &&& if self.stopped || self.taken == self.k {
            self.kept == off_diagonal_len(self.taken as nat)
        } else {
            self.kept == self.taken
        }
    }

    /// A run of at most `k` steps, none taken yet.
    pub fn new(k: usize) -> (res: Self)
        ensures
            res@ == (StepState { k: k as nat, taken: 0, kept: 0, stopped: false }),
    {
        StepCounter { k, taken: 0, kept: 0, stopped: false }
    }

    /// Another step is due: no breakdown yet and fewer than `k` steps taken.
    pub fn has_next(&self) -> (res: bool)
        ensures
            res == (!self@.stopped && self@.taken < self@.k),
    {
        !self.stopped && self.taken < self.k
    }

    /// Steps taken so far.
    pub fn taken(&self) -> (res: usize)
        ensures
            res == self@.taken,
    {
        self.taken
    }

    /// Off-diagonal entries kept so far. While the run goes on, every step
    /// has its coupling entry kept; once it is over, all but the last step
    /// taken do, so the tridiagonal of `taken` steps has `taken - 1`
    /// off-diagonal entries (none for no step).
    pub fn kept(&self) -> (res: usize)
        ensures
            res == self@.kept,
            self@.taken <= self@.k,
            !self@.stopped && self@.taken < self@.k ==> res == self@.taken,
            self@.stopped || self@.taken == self@.k ==> res == off_diagonal_len(self@.taken),
    {
        proof {
            use_type_invariant(self);
        }
        self.kept
    }

    /// Records a step, broken down or not, and says whether its coupling
    /// entry is kept.
    pub fn record(&mut self, breakdown: bool) -> (keep: bool)
        requires
            !old(self)@.stopped,
            old(self)@.taken < old(self)@.k,
        ensures
            keep == (!breakdown && old(self)@.taken + 1 < old(self)@.k),
            final(self)@.k == old(self)@.k,
            final(self)@.taken == old(self)@.taken + 1,
            final(self)@.kept == old(self)@.kept + if keep {
                1nat
            } else {
                0nat
            },
            final(self)@.stopped == breakdown,
    {
        proof {
            use_type_invariant(&*self);
        }
        let taken = self.taken + 1;
        let keep = !breakdown && taken < self.k;
        let kept = if keep {
            self.kept + 1
        } else {
            self.kept
        };
        let k = self.k;
        *self = StepCounter { k, taken, kept, stopped: breakdown };
        keep
    }

}

} // verus!
