//! Choosing which entries the text and JSON outputs keep.

use vstd::prelude::*;
use crate::order::{size_order, size_order_of, is_size_order, law_size_order};

verus! {

/// An entry of `size` takes at least `pct` percent of `total`.
pub open spec fn passes(size: u64, total: nat, pct: u64) -> bool {
    size as nat * 100 >= pct as nat * total
}

/// Whether the entry at position `k` of the size order is kept: with no
/// threshold and no count every entry is; otherwise those that take at
/// least the threshold percentage and the `top` largest are.
pub open spec fn keeps(sizes: Seq<u64>, total: nat, threshold: Option<u64>, top: Option<usize>, k: int) -> bool {
    let i = size_order_of(sizes)[k] as int;
    match (threshold, top) {
        (None, None) => true,
        _ => {
            ||| (threshold matches Some(p) && passes(sizes[i], total, p))
            ||| (top matches Some(t) && k < t)
        },
    }
}

/// The kept indices among the first `n` positions of the size order.
pub open spec fn kept_prefix(sizes: Seq<u64>, total: nat, threshold: Option<u64>, top: Option<usize>, n: nat) -> Seq<usize>
    decreases n,
{
    if n == 0 {
        Seq::empty()
    } else {
        let before = kept_prefix(sizes, total, threshold, top, (n - 1) as nat);
        if keeps(sizes, total, threshold, top, n - 1) {
            before.push(size_order_of(sizes)[n - 1])
        } else {
            before
        }
    }
}

/// The kept indices of `sizes`, largest first.
pub open spec fn kept(sizes: Seq<u64>, total: nat, threshold: Option<u64>, top: Option<usize>) -> Seq<usize> {
    kept_prefix(sizes, total, threshold, top, sizes.len())
}

/// The indices of `sizes` to write, largest first: those that take at
/// least `threshold` percent of `total` and the `top` largest (all of them
/// when neither is given).
pub fn select_entries(sizes: &Vec<u64>, total: u64, threshold: Option<u64>, top: Option<usize>) -> (r: Vec<usize>)
    ensures
        r@ == kept(sizes@, total as nat, threshold, top),
        forall|j: int| 0 <= j < r@.len() ==> #[trigger] r@[j] < sizes@.len(),
{
    let order = size_order(sizes);
    let mut r: Vec<usize> = Vec::new();
    let mut k: usize = 0;
    while k < order.len()
        invariant
            k <= order.len(),
            order@ == size_order_of(sizes@),
            is_size_order(sizes@, order@),
            r@ == kept_prefix(sizes@, total as nat, threshold, top, k as nat),
        decreases order.len() - k,
    {
        let i = order[k];
        let pass = match threshold {
            Some(p) => {
                assert((p as int) * (total as int) <= 0xffff_ffff_ffff_ffff * 0xffff_ffff_ffff_ffff) by (nonlinear_arith)
                    requires 0 <= p <= 0xffff_ffff_ffff_ffff, 0 <= total <= 0xffff_ffff_ffff_ffff;
                (sizes[i] as u128) * 100 >= (p as u128) * (total as u128)
            },
            None => false,
        };
        let within = match top {
            Some(t) => k < t,
            None => false,
        };
        let keep = (threshold.is_none() && top.is_none()) || pass || within;
        if keep {
            r.push(i);
        }
        k = k + 1;
    }
    proof {
        lemma_kept_prefix_facts(sizes@, total as nat, threshold, top, sizes@.len());
        assert forall|j: int| 0 <= j < r@.len() implies #[trigger] r@[j] < sizes@.len() by {
            let k = choose|k: int| 0 <= k < sizes@.len() && keeps(sizes@, total as nat, threshold, top, k) && r@[j] == size_order_of(sizes@)[k];
            assert(order@[k] < sizes@.len());
        }
    }
    r
}

proof fn lemma_kept_prefix_facts(sizes: Seq<u64>, total: nat, threshold: Option<u64>, top: Option<usize>, n: nat)
    requires
        n <= sizes.len() <= usize::MAX,
    ensures
        kept_prefix(sizes, total, threshold, top, n).len() <= n,
        forall|j: int| 0 <= j < kept_prefix(sizes, total, threshold, top, n).len() ==> exists|k: int|
            0 <= k < n && keeps(sizes, total, threshold, top, k) && #[trigger] kept_prefix(sizes, total, threshold, top, n)[j] == size_order_of(sizes)[k],
        forall|k: int| 0 <= k < n && keeps(sizes, total, threshold, top, k) ==>
            #[trigger] kept_prefix(sizes, total, threshold, top, n).contains(size_order_of(sizes)[k]),
        (forall|k: int| 0 <= k < n ==> keeps(sizes, total, threshold, top, k)) ==> kept_prefix(sizes, total, threshold, top, n).len() == n,
    decreases n,
{
    if n > 0 {
        lemma_kept_prefix_facts(sizes, total, threshold, top, (n - 1) as nat);
        let before = kept_prefix(sizes, total, threshold, top, (n - 1) as nat);
        let now = kept_prefix(sizes, total, threshold, top, n);
        assert forall|j: int| 0 <= j < now.len() implies exists|k: int|
            0 <= k < n && keeps(sizes, total, threshold, top, k) && #[trigger] now[j] == size_order_of(sizes)[k] by {
            if j < before.len() {
                assert(now[j] == before[j]);
            } else {
                assert(now[j] == size_order_of(sizes)[n - 1]);
            }
        }
        assert forall|k: int| 0 <= k < n && keeps(sizes, total, threshold, top, k) implies
            #[trigger] now.contains(size_order_of(sizes)[k]) by {
            if k < n - 1 {
                assert(before.contains(size_order_of(sizes)[k]));
                let j = choose|j: int| 0 <= j < before.len() && before[j] == size_order_of(sizes)[k];
                assert(now[j] == before[j]);
            } else {
                assert(now[now.len() - 1] == size_order_of(sizes)[k]);
            }
        }
    }
}

/// What is kept: an entry is written exactly when it takes at least the
/// threshold percentage or is among the `top` largest (every entry when
/// neither is given); kept entries stay largest first, each once.
pub proof fn law_kept_entries(sizes: Seq<u64>, total: nat, threshold: Option<u64>, top: Option<usize>, i: usize)
    requires
        sizes.len() <= usize::MAX,
        i < sizes.len(),
    ensures
        ({
            let order = size_order_of(sizes);
            let k = choose|k: int| 0 <= k < order.len() && order[k] == i;
            &&& 0 <= k < sizes.len() && order[k] == i
            &&& kept(sizes, total, threshold, top).contains(i) <==> keeps(sizes, total, threshold, top, k)
        }),
{
    law_size_order(sizes, Seq::empty());
    let order = size_order_of(sizes);
    assert(order.contains(i));
    let k = choose|k: int| 0 <= k < order.len() && order[k] == i;
    lemma_kept_prefix_facts(sizes, total, threshold, top, sizes.len());
    let kk = kept(sizes, total, threshold, top);
    if kk.contains(i) {
        let j = choose|j: int| 0 <= j < kk.len() && kk[j] == i;
        let k2 = choose|k2: int| 0 <= k2 < sizes.len() && keeps(sizes, total, threshold, top, k2) && kk[j] == order[k2];
        assert(k2 == k);
    }
}

/// With only a count, exactly that many entries are written (or all of
/// them, when there are fewer); with neither a count nor a threshold,
/// every entry is written.
pub proof fn law_top_count(sizes: Seq<u64>, total: nat, top: Option<usize>)
    requires
        sizes.len() <= usize::MAX,
    ensures
        top is None ==> kept(sizes, total, None, top).len() == sizes.len(),
        top matches Some(t) ==> kept(sizes, total, None, top).len() == if t < sizes.len() { t as nat } else { sizes.len() },
{
    lemma_top_prefix(sizes, total, top, sizes.len());
}

proof fn lemma_top_prefix(sizes: Seq<u64>, total: nat, top: Option<usize>, n: nat)
    requires
        n <= sizes.len() <= usize::MAX,
    ensures
        top is None ==> kept_prefix(sizes, total, None, top, n).len() == n,
        top matches Some(t) ==> kept_prefix(sizes, total, None, top, n).len() == if t < n { t as nat } else { n },
    decreases n,
{
    if n > 0 {
        lemma_top_prefix(sizes, total, top, (n - 1) as nat);
    }
}

} // verus!
