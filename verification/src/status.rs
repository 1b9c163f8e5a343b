//! The snapshot type, and the rule that says what one pull does to it.

use vstd::prelude::*;
use crate::trajectory::{collatz, iterate, lemma_iterate_positive, lemma_peak_bounds, peak, step};

verus! {

/// The state of a trajectory at one point of its evolution.
///
/// A snapshot is a plain value: every pull hands out a fresh copy.
#[derive(Clone, Copy, Debug, PartialEq, Eq, Structural)]
pub struct ComputationStatus {
    /// Set once the trajectory has reached 1 and that fact has been reported.
    pub finished: bool,
    /// The value the trajectory began with.
    pub start: u128,
    /// The largest value seen so far, `start` included.
    pub highest: u128,
    /// The current value.
    pub value: u128,
    /// How many Collatz steps led from `start` to `value`.
    pub n: u128,
}

/// Reported when the next step would leave the range of `u128`.
#[derive(Clone, Copy, Debug, PartialEq, Eq, Structural)]
pub struct Overflow;

/// Where a generator stands, judged by its status alone.
#[derive(Clone, Copy, Debug, PartialEq, Eq, Structural)]
pub enum Phase {
    /// The value is above 1: the next pull takes a step.
    Running,
    /// The value is 1 and this has not been reported yet: the next pull
    /// hands out the terminal snapshot.
    JustReachedOne,
    /// Nothing is left to hand out.
    Exhausted,
}

impl ComputationStatus {
    /// The status of a generator that has not been pulled yet.
    pub open spec fn initial(start: u128) -> Self {
        ComputationStatus { finished: false, start, highest: start, value: start, n: 0 }
    }

    /// The status of a fresh generator after `j` pulls that each took a step.
    pub open spec fn after_steps(start: u128, j: nat) -> Self {
        ComputationStatus {
            finished: false,
            start,
            highest: peak(start as nat, j) as u128,
            value: iterate(start as nat, j) as u128,
            n: j as u128,
        }
    }

    /// The data invariant of every status a generator can hold: `value` and
    /// `highest` are what `n` steps from `start` give, no earlier value of
    /// the trajectory was 1 or below, and `finished` is set only at 1.
    pub open spec fn on_trajectory(self) -> bool {
        &&& self.value == iterate(self.start as nat, self.n as nat)
        &&& self.highest == peak(self.start as nat, self.n as nat)
        &&& forall|k: nat| k < self.n ==> #[trigger] iterate(self.start as nat, k) > 1
        &&& self.finished ==> self.value == 1
    }

    /// The phase a generator is in when it holds `self`.
    pub open spec fn phase(self) -> Phase {
        if self.finished || self.value < 1 {
            Phase::Exhausted
        } else if self.value == 1 {
            Phase::JustReachedOne
        } else {
            Phase::Running
        }
    }

    /// Whether one more step keeps both `value` and `n` within `u128`.
    pub open spec fn can_step(self) -> bool {
        collatz(self.value as nat) <= u128::MAX && self.n < u128::MAX
    }

    /// The status after one more Collatz step. Meaningful where `can_step` holds.
    pub open spec fn stepped(self) -> Self {
        let new = collatz(self.value as nat) as u128;
        ComputationStatus {
            finished: self.finished,
            start: self.start,
            highest: if new > self.highest { new } else { self.highest },
            value: new,
            n: (self.n + 1) as u128,
        }
    }

    /// The same status with `finished` set.
    pub open spec fn finish(self) -> Self {
        ComputationStatus { finished: true, ..self }
    }

    /// What a pull returns when the generator holds `self`.
    pub open spec fn pull_result(self) -> Result<Option<ComputationStatus>, Overflow> {
        match self.phase() {
            Phase::JustReachedOne => Ok(Some(self.finish())),
            Phase::Exhausted => Ok(None),
            Phase::Running => if self.can_step() {
                Ok(Some(self.stepped()))
            } else {
                Err(Overflow)
            },
        }
    }

    /// Whether a pull hands out a snapshot.
    pub open spec fn emits(self) -> bool {
        self.pull_result() matches Ok(Some(_))
    }

    /// What the generator holds after a pull: the snapshot it handed out, or
    /// `self` unchanged if it handed out none.
    pub open spec fn after_pull(self) -> Self {
        match self.pull_result() {
            Ok(Some(snapshot)) => snapshot,
            _ => self,
        }
    }

    /// Takes one Collatz step: replaces `value`, raises `highest` if the new
    /// value exceeds it, and counts the step.
    ///
    /// Returns `None`, taking no step, exactly when the new value or the new
    /// count would not fit in `u128`.
    pub fn step(self) -> (next: Option<Self>)
        ensures
            self.can_step() ==> next == Some(self.stepped()),
            !self.can_step() ==> next is None,
    {
        let new: u128 = match step(self.value) {
            Some(new) => new,
            None => { return None; },
        };
        let n: u128 = match self.n.checked_add(1) {
            Some(n) => n,
            None => { return None; },
        };
        let highest: u128 = if new > self.highest { new } else { self.highest };
        Some(ComputationStatus { finished: self.finished, start: self.start, highest, value: new, n })
    }
}

/// On a trajectory, `highest` is no less than `value` and `start`, and a
/// trajectory that began at 1 or above holds a `value` of 1 or above.
pub proof fn lemma_trajectory_bounds(s: ComputationStatus)
    requires
        s.on_trajectory(),
    ensures
        s.highest >= s.value,
        s.highest >= s.start,
        s.start >= 1 ==> s.value >= 1,
{
    lemma_peak_bounds(s.start as nat, s.n as nat);
    assert(iterate(s.start as nat, 0) == s.start);
    assert(iterate(s.start as nat, s.n as nat) == s.value);
    if s.start >= 1 {
        lemma_iterate_positive(s.start as nat, s.n as nat);
    }
}

/// A pull keeps the status on its trajectory.
pub proof fn lemma_pull_stays_on_trajectory(s: ComputationStatus)
    requires
        s.on_trajectory(),
    ensures
        s.after_pull().on_trajectory(),
        s.after_pull().start == s.start,
{
    if s.phase() is Running && s.can_step() {
        let next = s.stepped();
        assert forall|k: nat| k < next.n implies #[trigger] iterate(next.start as nat, k) > 1 by {
            if k == s.n {
                assert(iterate(s.start as nat, k) == s.value);
            }
        }
    }
}

} // verus!
