//! Counting and listing the indices below a bound that satisfy a predicate.

use vstd::prelude::*;

verus! {

/// How many `i` with `0 <= i < k` satisfy `pred`.
pub open spec fn count_where(pred: spec_fn(int) -> bool, k: nat) -> nat
    decreases k,
{
    if k == 0 {
        0
    } else {
        count_where(pred, (k - 1) as nat) + if pred(k - 1) {
            1nat
        } else {
            0nat
        }
    }
}

/// The `i` with `0 <= i < k` that satisfy `pred`, in increasing order.
pub open spec fn indices_where(pred: spec_fn(int) -> bool, k: nat) -> Seq<int>
    decreases k,
{
    if k == 0 {
        Seq::empty()
    } else if pred(k - 1) {
        indices_where(pred, (k - 1) as nat).push(k - 1)
    } else {
        indices_where(pred, (k - 1) as nat)
    }
}

pub proof fn lemma_count_bound(pred: spec_fn(int) -> bool, k: nat)
    ensures
        count_where(pred, k) <= k,
    decreases k,
{
    if k > 0 {
        lemma_count_bound(pred, (k - 1) as nat);
    }
}

/// Two predicates that agree below `k` count the same there.
pub proof fn lemma_count_agree(p: spec_fn(int) -> bool, q: spec_fn(int) -> bool, k: nat)
    requires
        forall|i: int| 0 <= i < k ==> #[trigger] p(i) == q(i),
    ensures
        count_where(p, k) == count_where(q, k),
    decreases k,
{
    if k > 0 {
        lemma_count_agree(p, q, (k - 1) as nat);
    }
}

/// Two predicates that agree below `k` list the same indices there.
pub proof fn lemma_indices_agree(p: spec_fn(int) -> bool, q: spec_fn(int) -> bool, k: nat)
    requires
        forall|i: int| 0 <= i < k ==> #[trigger] p(i) == q(i),
    ensures
        indices_where(p, k) == indices_where(q, k),
    decreases k,
{
    if k > 0 {
        lemma_indices_agree(p, q, (k - 1) as nat);
    }
}

/// The count is zero exactly when nothing below `k` satisfies the predicate.
pub proof fn lemma_count_zero(pred: spec_fn(int) -> bool, k: nat)
    ensures
        count_where(pred, k) == 0 <==> forall|i: int| 0 <= i < k ==> !#[trigger] pred(i),
    decreases k,
{
    if k > 0 {
        lemma_count_zero(pred, (k - 1) as nat);
        if count_where(pred, k) == 0 {
            assert forall|i: int| 0 <= i < k implies !#[trigger] pred(i) by {
                if i < k - 1 {
                }
            }
        }
    }
}

/// Three predicates of which exactly one holds at every index count up to
/// the bound together.
pub proof fn lemma_count_partition(
    a: spec_fn(int) -> bool,
    b: spec_fn(int) -> bool,
    c: spec_fn(int) -> bool,
    k: nat,
)
    requires
        forall|i: int|
            0 <= i < k ==> (#[trigger] a(i) || b(i) || c(i)) && !(a(i) && b(i)) && !(a(i) && c(i))
                && !(b(i) && c(i)),
    ensures
        count_where(a, k) + count_where(b, k) + count_where(c, k) == k,
    decreases k,
{
    if k > 0 {
        lemma_count_partition(a, b, c, (k - 1) as nat);
    }
}

/// Turning one index on raises the count by one.
pub proof fn lemma_count_switch_on(
    p: spec_fn(int) -> bool,
    q: spec_fn(int) -> bool,
    j: int,
    k: nat,
)
    requires
        0 <= j < k,
        !p(j),
        q(j),
        forall|i: int| 0 <= i < k && i != j ==> #[trigger] p(i) == q(i),
    ensures
        count_where(q, k) == count_where(p, k) + 1,
    decreases k,
{
    if j == k - 1 {
        lemma_count_agree(p, q, (k - 1) as nat);
    } else {
        lemma_count_switch_on(p, q, j, (k - 1) as nat);
    }
}

/// A predicate that implies another counts no more than it.
pub proof fn lemma_count_monotone(p: spec_fn(int) -> bool, q: spec_fn(int) -> bool, k: nat)
    requires
        forall|i: int| 0 <= i < k && #[trigger] p(i) ==> q(i),
    ensures
        count_where(p, k) <= count_where(q, k),
    decreases k,
{
    if k > 0 {
        lemma_count_monotone(p, q, (k - 1) as nat);
    }
}

/// What `indices_where` lists: each satisfying index below the bound once,
/// in increasing order, as many as `count_where` counts.
pub proof fn lemma_indices_where(pred: spec_fn(int) -> bool, k: nat)
    ensures
        indices_where(pred, k).len() == count_where(pred, k),
        forall|t: int|
            0 <= t < indices_where(pred, k).len() ==> 0 <= #[trigger] indices_where(pred, k)[t] < k
                && pred(indices_where(pred, k)[t]),
        forall|i: int| 0 <= i < k && #[trigger] pred(i) ==> indices_where(pred, k).contains(i),
        forall|s: int, t: int|
            0 <= s < t < indices_where(pred, k).len() ==> indices_where(pred, k)[s]
                < indices_where(pred, k)[t],
    decreases k,
{
    if k > 0 {
        let prev = indices_where(pred, (k - 1) as nat);
        let cur = indices_where(pred, k);
        lemma_indices_where(pred, (k - 1) as nat);
        assert forall|i: int| 0 <= i < k && #[trigger] pred(i) implies cur.contains(i) by {
            if i < k - 1 {
                assert(prev.contains(i));
                let t = choose|t: int| 0 <= t < prev.len() && prev[t] == i;
                assert(cur[t] == i);
            } else {
                assert(cur[cur.len() - 1] == i);
            }
        }
    }
}

} // verus!
