//! Runs of pulls: the status after `k` pulls and the snapshots they hand out.

use vstd::prelude::*;
use crate::status::{ComputationStatus, Overflow};

verus! {

/// The status a generator holds after `k` pulls, if it held `s` before them.
pub open spec fn after_pulls(s: ComputationStatus, k: nat) -> ComputationStatus
    decreases k,
{
    if k == 0 {
        s
    } else {
        after_pulls(s, (k - 1) as nat).after_pull()
    }
}

/// What pull number `k`, counted from 0, returns for a generator that held `s`
/// before the first pull.
pub open spec fn pull_at(s: ComputationStatus, k: nat) -> Result<Option<ComputationStatus>, Overflow> {
    after_pulls(s, k).pull_result()
}

/// Pull number `k` reports completion: it returns `Ok(None)`.
pub open spec fn completes_at(s: ComputationStatus, k: nat) -> bool {
    pull_at(s, k) == Ok::<Option<ComputationStatus>, Overflow>(None)
}

/// Pull number `k` reports an overflow.
pub open spec fn overflows_at(s: ComputationStatus, k: nat) -> bool {
    pull_at(s, k) is Err
}

/// The snapshots handed out by the first `k` pulls, in order.
pub open spec fn emitted(s: ComputationStatus, k: nat) -> Seq<ComputationStatus>
    decreases k,
{
    if k == 0 {
        Seq::empty()
    } else {
        let earlier = emitted(s, (k - 1) as nat);
        match pull_at(s, (k - 1) as nat) {
            Ok(Some(snapshot)) => earlier.push(snapshot),
            _ => earlier,
        }
    }
}

/// Pulling once and `k` times more is pulling `k + 1` times.
pub proof fn lemma_after_pulls_shift(s: ComputationStatus, k: nat)
    ensures
        after_pulls(s, k + 1) == after_pulls(s.after_pull(), k),
    decreases k,
{
    if k > 0 {
        lemma_after_pulls_shift(s, (k - 1) as nat);
    } else {
        assert(after_pulls(s, 0) == s);
    }
}

/// A pull that hands out nothing changes nothing: every later pull returns
/// the same, and no further snapshot appears.
pub proof fn lemma_halt_is_permanent(s: ComputationStatus, i: nat, j: nat)
    requires
        i <= j,
        !after_pulls(s, i).emits(),
    ensures
        after_pulls(s, j) == after_pulls(s, i),
        pull_at(s, j) == pull_at(s, i),
        emitted(s, j) == emitted(s, i),
    decreases j,
{
    if i < j {
        lemma_halt_is_permanent(s, i, (j - 1) as nat);
    }
}

/// Any two pulls that hand out nothing return the same, leave the same
/// status, and have the same snapshots before them.
pub proof fn lemma_halts_agree(s: ComputationStatus, i: nat, j: nat)
    requires
        !after_pulls(s, i).emits(),
        !after_pulls(s, j).emits(),
    ensures
        after_pulls(s, j) == after_pulls(s, i),
        pull_at(s, j) == pull_at(s, i),
        emitted(s, j) == emitted(s, i),
{
    if i <= j {
        lemma_halt_is_permanent(s, i, j);
    } else {
        lemma_halt_is_permanent(s, j, i);
    }
}

/// The snapshots come from an unbroken run of pulls at the front: snapshot
/// `i` is what pull `i` returned and what the generator held right after it,
/// and if fewer than `k` snapshots came out, the first pull past them handed
/// out nothing.
pub proof fn lemma_emitted_prefix(s: ComputationStatus, k: nat)
    ensures
        emitted(s, k).len() <= k,
        forall|i: int|
            0 <= i < emitted(s, k).len() ==> ({
                &&& pull_at(s, i as nat) == Ok::<_, Overflow>(Some(#[trigger] emitted(s, k)[i]))
                &&& emitted(s, k)[i] == after_pulls(s, (i + 1) as nat)
            }),
        emitted(s, k).len() < k ==> !after_pulls(s, emitted(s, k).len()).emits(),
    decreases k,
{
    if k > 0 {
        let earlier = emitted(s, (k - 1) as nat);
        lemma_emitted_prefix(s, (k - 1) as nat);
        if earlier.len() < k - 1 {
            lemma_halt_is_permanent(s, earlier.len(), (k - 1) as nat);
        }
    }
}

} // verus!
