//! The rule by which the backing store grows, and what follows from it.

use vstd::arithmetic::power2::{lemma2_to64, lemma_pow2_unfold, pow2};
use vstd::prelude::*;

verus! {

/// The number of slots that replace a full store of `cap` slots: one slot
/// for an empty store, twice as many otherwise.
pub open spec fn grown_capacity(cap: nat) -> nat {
    if cap == 0 {
        1
    } else {
        2 * cap
    }
}

/// The number of slots after `k` growths in a row, starting from `cap`.
pub open spec fn capacity_after_growths(cap: nat, k: nat) -> nat
    decreases k,
{
    if k == 0 {
        cap
    } else {
        grown_capacity(capacity_after_growths(cap, (k - 1) as nat))
    }
}

/// The number of slots after one append to a container that holds `len`
/// items in `cap` slots: the store grows exactly when it is full.
pub open spec fn capacity_after_push(len: nat, cap: nat) -> nat {
    if len == cap {
        grown_capacity(cap)
    } else {
        cap
    }
}

/// The number of slots after `n` appends to a container that holds `len`
/// items in `cap` slots.
pub open spec fn capacity_after_pushes(len: nat, cap: nat, n: nat) -> nat
    decreases n,
{
    if n == 0 {
        cap
    } else {
        capacity_after_push(
            (len + n - 1) as nat,
            capacity_after_pushes(len, cap, (n - 1) as nat),
        )
    }
}

/// A growth always adds at least one slot.
pub proof fn lemma_growth_adds_room(cap: nat)
    ensures
        grown_capacity(cap) > cap,
{
}

/// Growths never take slots away: the more growths, the more slots.
pub proof fn lemma_growths_never_shrink(cap: nat, j: nat, k: nat)
    requires
        j <= k,
    ensures
        capacity_after_growths(cap, j) <= capacity_after_growths(cap, k),
    decreases k,
{
    if j < k {
        lemma_growths_never_shrink(cap, j, (k - 1) as nat);
    }
}

/// Starting from no slots at all, successive growths give 1, 2, 4, 8, ...
/// slots: the `k`-th growth leaves two to the power `k - 1`.
pub proof fn lemma_growths_from_nothing(k: nat)
    requires
        k >= 1,
    ensures
        capacity_after_growths(0, k) == pow2((k - 1) as nat),
    decreases k,
{
    if k == 1 {
        lemma2_to64();
        assert(capacity_after_growths(0, 0) == 0);
    } else {
        lemma_growths_from_nothing((k - 1) as nat);
        lemma_pow2_unfold((k - 1) as nat);
    }
}

/// Starting from a store that has slots, each growth doubles them.
pub proof fn lemma_growths_double(cap: nat, k: nat)
    requires
        cap > 0,
    ensures
        capacity_after_growths(cap, k) == cap * pow2(k),
    decreases k,
{
    if k == 0 {
        lemma2_to64();
    } else {
        lemma_growths_double(cap, (k - 1) as nat);
        lemma_pow2_unfold(k);
        let half = pow2((k - 1) as nat);
        assert(2 * (cap * half) == cap * (2 * half)) by (nonlinear_arith);
    }
}

/// An append never takes slots away, and leaves room for the item it adds.
pub proof fn lemma_push_keeps_room(len: nat, cap: nat)
    requires
        len <= cap,
    ensures
        cap <= capacity_after_push(len, cap),
        len + 1 <= capacity_after_push(len, cap),
{
}

/// However many appends are made, no slots are taken away and the slots
/// cover the items.
pub proof fn lemma_pushes_keep_room(len: nat, cap: nat, n: nat)
    requires
        len <= cap,
    ensures
        cap <= capacity_after_pushes(len, cap, n),
        len + n <= capacity_after_pushes(len, cap, n),
    decreases n,
{
    if n > 0 {
        lemma_pushes_keep_room(len, cap, (n - 1) as nat);
    }
}

/// A container that starts with no slots has, after `n` appends, a power of
/// two of them: the smallest one that holds `n` items.
pub proof fn lemma_pushes_from_nothing(n: nat)
    requires
        n >= 1,
    ensures
        n <= capacity_after_pushes(0, 0, n) < 2 * n,
        exists|k: nat| capacity_after_pushes(0, 0, n) == pow2(k),
    decreases n,
{
    if n == 1 {
        lemma2_to64();
        assert(capacity_after_pushes(0, 0, 0) == 0);
        assert(capacity_after_pushes(0, 0, 1) == pow2(0));
    } else {
        let before = capacity_after_pushes(0, 0, (n - 1) as nat);
        lemma_pushes_from_nothing((n - 1) as nat);
        let k = choose|k: nat| before == pow2(k);
        if n - 1 == before {
            lemma_pow2_unfold(k + 1);
            assert(capacity_after_pushes(0, 0, n) == pow2(k + 1));
        } else {
            assert(capacity_after_pushes(0, 0, n) == pow2(k));
        }
    }
}

} // verus!
