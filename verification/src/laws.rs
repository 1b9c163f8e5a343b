//! What holds of every run of pulls.
//!
//! Each statement is about a generator that holds the status `s` before its
//! first pull, or, where it says so, about one fresh from `Computation::new`.

use vstd::prelude::*;
use crate::status::{lemma_pull_stays_on_trajectory, ComputationStatus, Overflow};
use crate::trace::{
    after_pulls, completes_at, emitted, lemma_after_pulls_shift, lemma_emitted_prefix,
    lemma_halt_is_permanent, overflows_at, pull_at,
};
use crate::trajectory::{iterate, lemma_peak_monotonic, peak};

verus! {

/// Exhaustion is idempotent: once a pull has reported completion, every
/// later pull reports completion as well, and the status no longer changes.
pub proof fn lemma_exhaustion_is_idempotent(s: ComputationStatus, i: nat, j: nat)
    requires
        i <= j,
        completes_at(s, i),
    ensures
        completes_at(s, j),
        after_pulls(s, j) == after_pulls(s, i),
{
    lemma_halt_is_permanent(s, i, j);
}

/// An overflow is reported again by every later pull, and the status no
/// longer changes.
pub proof fn lemma_overflow_is_idempotent(s: ComputationStatus, i: nat, j: nat)
    requires
        i <= j,
        overflows_at(s, i),
    ensures
        overflows_at(s, j),
        after_pulls(s, j) == after_pulls(s, i),
{
    lemma_halt_is_permanent(s, i, j);
}

/// A pull never lowers `highest`, and never changes `start`.
pub proof fn lemma_highest_never_falls(s: ComputationStatus, i: nat, j: nat)
    requires
        i <= j,
    ensures
        after_pulls(s, i).highest <= after_pulls(s, j).highest,
        after_pulls(s, i).start == after_pulls(s, j).start,
    decreases j,
{
    if i < j {
        lemma_highest_never_falls(s, i, (j - 1) as nat);
    }
}

/// Monotonic highest: along the snapshots handed out, `highest` never
/// decreases.
pub proof fn lemma_highest_is_monotonic(s: ComputationStatus, k: nat, i: int, j: int)
    requires
        0 <= i <= j < emitted(s, k).len(),
    ensures
        emitted(s, k)[i].highest <= emitted(s, k)[j].highest,
{
    lemma_emitted_prefix(s, k);
    lemma_highest_never_falls(s, (i + 1) as nat, (j + 1) as nat);
}

/// Before a pull that hands out a snapshot, a fresh generator has taken one
/// step per earlier pull and has not finished.
proof fn lemma_steps_before_emitting_pull(start: u128, i: nat)
    requires
        after_pulls(ComputationStatus::initial(start), i).emits(),
    ensures
        after_pulls(ComputationStatus::initial(start), i).n == i,
        after_pulls(ComputationStatus::initial(start), i).start == start,
        !after_pulls(ComputationStatus::initial(start), i).finished,
        after_pulls(ComputationStatus::initial(start), i).on_trajectory(),
    decreases i,
{
    if i > 0 {
        let before = after_pulls(ComputationStatus::initial(start), (i - 1) as nat);
        lemma_steps_before_emitting_pull(start, (i - 1) as nat);
        lemma_pull_stays_on_trajectory(before);
    }
}

/// Step count correctness: every snapshot that a fresh generator hands out
/// holds in `value` the result of `n` Collatz steps from `start`, and in
/// `highest` the largest value on the way. Snapshot number `i`, counted from
/// 0, holds `n == i + 1`; only the terminal snapshot, which repeats the value
/// 1 without taking a step, holds `n == i`.
pub proof fn lemma_step_count(start: u128, k: nat, i: int)
    requires
        0 <= i < emitted(ComputationStatus::initial(start), k).len(),
    ensures
        ({
            let snapshot = emitted(ComputationStatus::initial(start), k)[i];
            &&& snapshot.start == start
            &&& snapshot.value == iterate(start as nat, snapshot.n as nat)
            &&& snapshot.highest == peak(start as nat, snapshot.n as nat)
            &&& snapshot.on_trajectory()
            &&& snapshot.n == if snapshot.finished { i } else { i + 1 }
        }),
{
    let s = ComputationStatus::initial(start);
    lemma_emitted_prefix(s, k);
    assert(pull_at(s, i as nat) == Ok::<_, Overflow>(Some(emitted(s, k)[i])));
    lemma_steps_before_emitting_pull(start, i as nat);
    lemma_pull_stays_on_trajectory(after_pulls(s, i as nat));
}

/// Terminal snapshot shape: when a pull reports completion, the last
/// snapshot handed out before it, if there is one, has `finished` set and
/// holds the value 1. There is one unless the generator was exhausted from
/// the outset.
pub proof fn lemma_terminal_snapshot_shape(s: ComputationStatus, k: nat)
    requires
        completes_at(s, k),
    ensures
        emitted(s, k).len() > 0 ==> emitted(s, k).last().finished && emitted(s, k).last().value == 1,
        emitted(s, k).len() > 0 ==> emitted(s, k).last() == after_pulls(s, k),
        emitted(s, k).len() == 0 <==> s.phase() is Exhausted,
{
    let count = emitted(s, k).len();
    lemma_emitted_prefix(s, k);
    if count < k {
        lemma_halt_is_permanent(s, count, k);
    }
    if count > 0 {
        assert(emitted(s, k)[count - 1] == after_pulls(s, count));
    } else {
        assert(after_pulls(s, 0) == s);
    }
    if s.phase() is Exhausted {
        lemma_halt_is_permanent(s, 0, k);
    }
}

/// A snapshot with `finished` set is the last one handed out.
pub proof fn lemma_finished_snapshot_is_last(s: ComputationStatus, k: nat, i: int)
    requires
        0 <= i < emitted(s, k).len(),
        emitted(s, k)[i].finished,
    ensures
        i + 1 == emitted(s, k).len(),
{
    lemma_emitted_prefix(s, k);
    if i + 1 < emitted(s, k).len() {
        assert(pull_at(s, (i + 1) as nat) == Ok::<_, Overflow>(Some(emitted(s, k)[i + 1])));
    }
}

/// Single terminal emission: of the snapshots handed out up to a pull that
/// reports completion, exactly one has `finished` set, and it is the last.
/// This needs a generator that was not exhausted from the outset: one made
/// for a start of at least 1.
pub proof fn lemma_single_terminal_emission(s: ComputationStatus, k: nat)
    requires
        completes_at(s, k),
        !(s.phase() is Exhausted),
    ensures
        emitted(s, k).len() >= 1,
        forall|i: int|
            0 <= i < emitted(s, k).len() ==> (#[trigger] emitted(s, k)[i].finished <==> i + 1 == emitted(s, k).len()),
{
    lemma_terminal_snapshot_shape(s, k);
    assert forall|i: int|
        0 <= i < emitted(s, k).len() && #[trigger] emitted(s, k)[i].finished implies i + 1 == emitted(s, k).len() by {
        lemma_finished_snapshot_is_last(s, k, i);
    }
}

/// While the trajectory stays above 1 and within `u128`, every pull of a
/// fresh generator takes one step and hands out the result.
pub proof fn lemma_run_follows_trajectory(start: u128, j: nat)
    requires
        forall|i: nat| i < j ==> #[trigger] iterate(start as nat, i) > 1,
        peak(start as nat, j) <= u128::MAX,
        j <= u128::MAX,
    ensures
        after_pulls(ComputationStatus::initial(start), j) == ComputationStatus::after_steps(start, j),
        emitted(ComputationStatus::initial(start), j).len() == j,
    decreases j,
{
    if j > 0 {
        lemma_run_follows_trajectory(start, (j - 1) as nat);
        assert(iterate(start as nat, (j - 1) as nat) > 1);
    }
}

/// The snapshots of a trajectory that first reaches 1 after `m` steps: one
/// for each step, and the terminal snapshot, which repeats the last of them
/// with `finished` set.
pub open spec fn full_run(start: u128, m: nat) -> Seq<ComputationStatus> {
    Seq::new(
        m + 1,
        |i: int|
            if i < m {
                ComputationStatus::after_steps(start, (i + 1) as nat)
            } else {
                ComputationStatus::after_steps(start, m).finish()
            },
    )
}

/// A trajectory that first reaches 1 after `m` steps, all within `u128`, is
/// handed out in full: `m` snapshots for the steps, one terminal snapshot,
/// and completion on the pull after it.
pub proof fn lemma_completes_after_reaching_one(start: u128, m: nat)
    requires
        iterate(start as nat, m) == 1,
        forall|i: nat| i < m ==> #[trigger] iterate(start as nat, i) > 1,
        peak(start as nat, m) <= u128::MAX,
        m <= u128::MAX,
    ensures
        completes_at(ComputationStatus::initial(start), m + 1),
        emitted(ComputationStatus::initial(start), m + 1) == full_run(start, m),
{
    let s = ComputationStatus::initial(start);
    let run = emitted(s, m + 1);
    lemma_run_follows_trajectory(start, m);
    assert(after_pulls(s, m + 1) == ComputationStatus::after_steps(start, m).finish());
    assert(run == emitted(s, m).push(ComputationStatus::after_steps(start, m).finish()));
    lemma_emitted_prefix(s, m + 1);
    assert forall|i: int| 0 <= i < m implies #[trigger] run[i] == ComputationStatus::after_steps(
        start,
        (i + 1) as nat,
    ) by {
        lemma_peak_monotonic(start as nat, (i + 1) as nat, m);
        lemma_run_follows_trajectory(start, (i + 1) as nat);
    }
    assert(run =~= full_run(start, m));
}

/// No run of pulls goes on forever: from any status, some pull reports
/// completion or an overflow.
pub proof fn lemma_every_run_halts(s: ComputationStatus)
    ensures
        exists|k: nat| completes_at(s, k) || overflows_at(s, k),
    decreases 2 * (u128::MAX - s.n) + if s.finished { 0int } else { 1int },
{
    if s.emits() {
        lemma_every_run_halts(s.after_pull());
        let k = choose|k: nat| completes_at(s.after_pull(), k) || overflows_at(s.after_pull(), k);
        lemma_after_pulls_shift(s, k);
        assert(completes_at(s, k + 1) || overflows_at(s, k + 1));
    } else {
        assert(completes_at(s, 0) || overflows_at(s, 0));
    }
}

} // verus!
