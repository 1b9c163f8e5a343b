//! The generator: one status, advanced in place by each pull.

use vstd::prelude::*;
use crate::status::{lemma_pull_stays_on_trajectory, ComputationStatus, Overflow};
use crate::trace::{after_pulls, completes_at, emitted, lemma_halts_agree, overflows_at};

verus! {

/// A lazily evaluated Collatz trajectory.
///
/// The generator owns a single status and advances it by one step per pull.
pub struct Computation {
    status: ComputationStatus,
}

impl View for Computation {
    type V = ComputationStatus;

    /// The status the generator currently holds.
    closed spec fn view(&self) -> ComputationStatus {
        self.status
    }
}

impl Computation {
    #[verifier::type_invariant]
    spec fn holds_trajectory_status(self) -> bool {
        self.status.on_trajectory()
    }

    /// Creates the generator for the trajectory that begins at `start`.
    ///
    /// For `start == 0` the generator is exhausted from the beginning and
    /// never hands out a snapshot.
    pub fn new(start: u128) -> (computation: Self)
        ensures
            computation@ == ComputationStatus::initial(start),
            computation@.on_trajectory(),
    {
        Computation {
            status: ComputationStatus { finished: false, start, highest: start, value: start, n: 0 },
        }
    }

    /// Advances the trajectory and hands out a copy of the new status.
    ///
    /// - At value 1, not yet reported: sets `finished` and hands out that
    ///   terminal snapshot.
    /// - Once finished, or at value 0: hands out nothing, `Ok(None)`, and
    ///   leaves the status as it is, on this and on every later pull.
    /// - Otherwise: takes one Collatz step and hands out the result. If the
    ///   step would leave `u128`, returns `Err(Overflow)` and leaves the
    ///   status as it is.
    pub fn pull(&mut self) -> (item: Result<Option<ComputationStatus>, Overflow>)
        ensures
            item == old(self)@.pull_result(),
            final(self)@ == old(self)@.after_pull(),
            final(self)@.on_trajectory(),
    {
        proof {
            use_type_invariant(&*self);
            lemma_pull_stays_on_trajectory(self.status);
        }
        if self.status.value == 1 && !self.status.finished {
            self.status.finished = true;
            return Ok(Some(self.status));
        }
        if self.status.value < 1 || self.status.finished {
            return Ok(None);
        }
        match self.status.step() {
            Some(next) => {
                self.status = next;
                Ok(Some(next))
            },
            None => Err(Overflow),
        }
    }

    /// Pulls until the generator reports completion, and returns every
    /// snapshot it handed out on the way, in order.
    ///
    /// Returns `Err(Overflow)`, and no snapshots, if a pull reports an
    /// overflow first. One of the two always happens: the step count is
    /// bounded, so no run of pulls goes on forever.
    pub fn collect(self) -> (result: Result<Vec<ComputationStatus>, Overflow>)
        ensures
            forall|k: nat| #[trigger]
                completes_at(self@, k) ==> (result matches Ok(snapshots) && snapshots@ == emitted(self@, k)),
            forall|k: nat| #[trigger] overflows_at(self@, k) ==> result is Err,
            result is Ok ==> exists|k: nat| completes_at(self@, k),
            result is Err ==> exists|k: nat| overflows_at(self@, k),
    {
        let ghost s = self@;
        let ghost mut pulls: nat = 0;
        let mut computation = self;
        let mut snapshots: Vec<ComputationStatus> = Vec::new();
        loop
            invariant
                s == self@,
                computation@ == after_pulls(s, pulls),
                snapshots@ == emitted(s, pulls),
            decreases 2 * (u128::MAX - computation@.n) + if computation@.finished { 0int } else { 1int },
        {
            match computation.pull() {
                Ok(Some(snapshot)) => {
                    snapshots.push(snapshot);
                    proof {
                        pulls = pulls + 1;
                    }
                },
                Ok(None) => {
                    proof {
                        assert(completes_at(s, pulls));
                        assert forall|k: nat| #[trigger] completes_at(s, k) implies emitted(s, k) == emitted(s, pulls) by {
                            lemma_halts_agree(s, pulls, k);
                        }
                        assert forall|k: nat| !#[trigger] overflows_at(s, k) by {
                            if overflows_at(s, k) {
                                lemma_halts_agree(s, pulls, k);
                            }
                        }
                    }
                    return Ok(snapshots);
                },
                Err(overflow) => {
                    proof {
                        assert(overflows_at(s, pulls));
                        assert forall|k: nat| !#[trigger] completes_at(s, k) by {
                            if completes_at(s, k) {
                                lemma_halts_agree(s, pulls, k);
                            }
                        }
                    }
                    return Err(overflow);
                },
            }
        }
    }
}

} // verus!
