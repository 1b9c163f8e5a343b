//! The Collatz map on the naturals, and its executable counterpart on `u128`.

use vstd::prelude::*;

verus! {

/// One Collatz step: halve an even number, map an odd `v` to `3v + 1`.
pub open spec fn collatz(v: nat) -> nat {
    if v % 2 == 0 {
        v / 2
    } else {
        3 * v + 1
    }
}

/// The value reached from `v` after `k` Collatz steps.
pub open spec fn iterate(v: nat, k: nat) -> nat
    decreases k,
{
    if k == 0 {
        v
    } else {
        collatz(iterate(v, (k - 1) as nat))
    }
}

/// The largest of `iterate(v, 0)`, ..., `iterate(v, k)`.
pub open spec fn peak(v: nat, k: nat) -> nat
    decreases k,
{
    if k == 0 {
        v
    } else {
        let before = peak(v, (k - 1) as nat);
        let here = iterate(v, k);
        if here > before {
            here
        } else {
            before
        }
    }
}

/// A trajectory that begins at 1 or above never reaches 0.
pub proof fn lemma_iterate_positive(v: nat, k: nat)
    requires
        v >= 1,
    ensures
        iterate(v, k) >= 1,
    decreases k,
{
    if k > 0 {
        lemma_iterate_positive(v, (k - 1) as nat);
    }
}

/// The peak is an upper bound of every value up to step `k`, the first
/// included, and is one of them.
pub proof fn lemma_peak_bounds(v: nat, k: nat)
    ensures
        forall|j: nat| j <= k ==> #[trigger] iterate(v, j) <= peak(v, k),
        exists|j: nat| j <= k && #[trigger] iterate(v, j) == peak(v, k),
    decreases k,
{
    if k > 0 {
        lemma_peak_bounds(v, (k - 1) as nat);
        let j = choose|j: nat| j <= k - 1 && #[trigger] iterate(v, j) == peak(v, (k - 1) as nat);
        assert(iterate(v, j) == peak(v, k) || iterate(v, k) == peak(v, k));
    } else {
        assert(iterate(v, 0) == peak(v, 0));
    }
}

/// The peak never falls as the trajectory goes on.
pub proof fn lemma_peak_monotonic(v: nat, i: nat, j: nat)
    requires
        i <= j,
    ensures
        peak(v, i) <= peak(v, j),
    decreases j,
{
    if i < j {
        lemma_peak_monotonic(v, i, (j - 1) as nat);
    }
}

/// Applies one Collatz step to `v`.
///
/// Returns `None` exactly when the result does not fit in `u128`, which can
/// only happen for an odd `v`.
pub fn step(v: u128) -> (next: Option<u128>)
    ensures
        collatz(v as nat) <= u128::MAX ==> next == Some(collatz(v as nat) as u128),
        collatz(v as nat) > u128::MAX ==> next is None,
{
    if v % 2 == 0 {
        Some(v / 2)
    } else {
        match v.checked_mul(3) {
            Some(tripled) => tripled.checked_add(1),
            None => None,
        }
    }
}

} // verus!
