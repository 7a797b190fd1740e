//! Ordering entries by size, largest first.

use vstd::prelude::*;

verus! {

/// Entry `a` is listed before entry `b`: it is larger, or equally large and
/// came first.
pub open spec fn ranks_before(sizes: Seq<u64>, a: int, b: int) -> bool {
    sizes[a] > sizes[b] || (sizes[a] == sizes[b] && a < b)
}

/// `p` lists every index below `n` exactly once.
pub open spec fn is_permutation(p: Seq<usize>, n: nat) -> bool {
    &&& p.len() == n
    &&& forall|k: int| 0 <= k < p.len() ==> #[trigger] p[k] < n
    &&& forall|k: int, l: int| 0 <= k < l < p.len() ==> p[k] != p[l]
    &&& forall|j: usize| j < n ==> #[trigger] p.contains(j)
}

/// `p` lists the indices below `n` ordered by `ranks_before`.
pub open spec fn is_ranked(sizes: Seq<u64>, p: Seq<usize>, n: nat) -> bool {
    &&& is_permutation(p, n)
    &&& forall|k: int, l: int|
        0 <= k < l < p.len() ==> ranks_before(sizes, #[trigger] p[k] as int, #[trigger] p[l] as int)
}

/// `p` lists the indices of `sizes` by size, largest first; equal sizes
/// keep their input order.
pub open spec fn is_size_order(sizes: Seq<u64>, p: Seq<usize>) -> bool {
    is_ranked(sizes, p, sizes.len())
}

/// Where an entry of size `x` goes in `p`: after every entry at least as
/// large.
pub open spec fn insert_pos(p: Seq<usize>, sizes: Seq<u64>, x: u64) -> nat
    decreases p.len(),
{
    if p.len() == 0 {
        0
    } else if sizes[p[0] as int] >= x {
        1 + insert_pos(p.drop_first(), sizes, x)
    } else {
        0
    }
}

/// The first `n` indices sorted by insertion, largest first.
pub open spec fn sorted_prefix(sizes: Seq<u64>, n: nat) -> Seq<usize>
    decreases n,
{
    if n == 0 {
        Seq::empty()
    } else {
        let p = sorted_prefix(sizes, (n - 1) as nat);
        p.insert(insert_pos(p, sizes, sizes[n - 1]) as int, (n - 1) as usize)
    }
}

/// The order of the indices of `sizes` by size, largest first, ties in
/// input order.
pub open spec fn size_order_of(sizes: Seq<u64>) -> Seq<usize> {
    sorted_prefix(sizes, sizes.len())
}

proof fn lemma_insert_pos(p: Seq<usize>, sizes: Seq<u64>, x: u64)
    requires
        forall|k: int| 0 <= k < p.len() ==> #[trigger] p[k] < sizes.len(),
    ensures
        insert_pos(p, sizes, x) <= p.len(),
        forall|k: int| 0 <= k < insert_pos(p, sizes, x) ==> sizes[#[trigger] p[k] as int] >= x,
        insert_pos(p, sizes, x) < p.len() ==> sizes[p[insert_pos(p, sizes, x) as int] as int] < x,
    decreases p.len(),
{
    if p.len() > 0 && sizes[p[0] as int] >= x {
        let q = p.drop_first();
        assert forall|k: int| 0 <= k < q.len() implies #[trigger] q[k] < sizes.len() by {
            assert(q[k] == p[k + 1]);
        }
        lemma_insert_pos(q, sizes, x);
        assert forall|k: int| 0 <= k < insert_pos(p, sizes, x) implies sizes[#[trigger] p[k] as int] >= x by {
            if k > 0 {
                assert(p[k] == q[k - 1]);
            }
        }
    }
}

/// Inserting index `i` where it belongs keeps a ranked list ranked.
proof fn lemma_insert_ranked(sizes: Seq<u64>, p: Seq<usize>, i: usize, pos: int)
    requires
        i < sizes.len(),
        is_ranked(sizes, p, i as nat),
        0 <= pos <= p.len(),
        forall|k: int| 0 <= k < pos ==> sizes[#[trigger] p[k] as int] >= sizes[i as int],
        pos < p.len() ==> sizes[p[pos] as int] < sizes[i as int],
    ensures
        is_ranked(sizes, p.insert(pos, i), (i + 1) as nat),
{
    let q = p.insert(pos, i);
    assert forall|k: int| pos <= k < p.len() implies sizes[#[trigger] p[k] as int] < sizes[i as int] by {
        if k > pos {
            assert(ranks_before(sizes, p[pos] as int, p[k] as int));
        }
    }
    assert forall|k: int| 0 <= k < q.len() implies #[trigger] q[k] < i + 1 by {
        if k < pos { assert(q[k] == p[k]); } else if k > pos { assert(q[k] == p[k - 1]); }
    }
    assert forall|k: int, l: int| 0 <= k < l < q.len() implies q[k] != q[l] by {
        if k < pos && l < pos {
        } else if l == pos || k == pos {
            if k != pos { assert(q[k] == p[k]); assert(p[k] < i); }
            if l != pos { assert(q[l] == p[l - 1]); assert(p[l - 1] < i); }
        } else if k < pos {
            assert(q[k] == p[k] && q[l] == p[l - 1]);
        } else {
            assert(q[k] == p[k - 1] && q[l] == p[l - 1]);
        }
    }
    assert forall|j: usize| j < i + 1 implies #[trigger] q.contains(j) by {
        if j == i {
            assert(q[pos] == j);
        } else {
            assert(p.contains(j));
            let k0 = choose|k: int| 0 <= k < p.len() && p[k] == j;
            if k0 < pos {
                assert(q[k0] == j);
            } else {
                assert(q[k0 + 1] == j);
            }
        }
    }
    assert forall|k: int, l: int| 0 <= k < l < q.len() implies ranks_before(sizes, #[trigger] q[k] as int, #[trigger] q[l] as int) by {
        if l < pos {
            assert(q[k] == p[k] && q[l] == p[l]);
        } else if l == pos {
            assert(q[k] == p[k]);
            assert(p[k] < i);
        } else if k < pos {
            assert(q[k] == p[k] && q[l] == p[l - 1]);
            assert(ranks_before(sizes, p[k] as int, p[l - 1] as int));
        } else if k == pos {
            assert(q[l] == p[l - 1]);
        } else {
            assert(q[k] == p[k - 1] && q[l] == p[l - 1]);
            assert(ranks_before(sizes, p[k - 1] as int, p[l - 1] as int));
        }
    }
}

proof fn lemma_sorted_prefix(sizes: Seq<u64>, n: nat)
    requires
        n <= sizes.len() <= usize::MAX,
    ensures
        is_ranked(sizes, sorted_prefix(sizes, n), n),
    decreases n,
{
    if n > 0 {
        lemma_sorted_prefix(sizes, (n - 1) as nat);
        let p = sorted_prefix(sizes, (n - 1) as nat);
        lemma_insert_pos(p, sizes, sizes[n - 1]);
        lemma_insert_ranked(sizes, p, (n - 1) as usize, insert_pos(p, sizes, sizes[n - 1]) as int);
    }
}

/// Ordering by size, largest first with ties in input order, is one
/// order: [`size_order_of`] is such an order, and every such order is it.
pub proof fn law_size_order(sizes: Seq<u64>, q: Seq<usize>)
    requires
        sizes.len() <= usize::MAX,
    ensures
        is_size_order(sizes, size_order_of(sizes)),
        is_size_order(sizes, q) ==> q == size_order_of(sizes),
{
    lemma_sorted_prefix(sizes, sizes.len());
    if is_size_order(sizes, q) {
        lemma_size_order_unique(sizes, q, size_order_of(sizes));
    }
}

proof fn lemma_size_order_unique(sizes: Seq<u64>, p: Seq<usize>, q: Seq<usize>)
    requires
        is_size_order(sizes, p),
        is_size_order(sizes, q),
    ensures
        p == q,
{
    assert forall|k: int| 0 <= k < p.len() implies p[k] == q[k] by {
        lemma_prefix_agrees(sizes, p, q, k);
    }
    assert(p =~= q);
}

proof fn lemma_prefix_agrees(sizes: Seq<u64>, p: Seq<usize>, q: Seq<usize>, k: int)
    requires
        is_size_order(sizes, p),
        is_size_order(sizes, q),
        0 <= k < p.len(),
    ensures
        forall|j: int| 0 <= j <= k ==> p[j] == q[j],
    decreases k,
{
    if k > 0 {
        lemma_prefix_agrees(sizes, p, q, k - 1);
    }
    let x = p[k];
    let y = q[k];
    assert(q.contains(x));
    let m = choose|m: int| 0 <= m < q.len() && q[m] == x;
    assert(p.contains(y));
    let m2 = choose|m: int| 0 <= m < p.len() && p[m] == y;
    if x != y {
        if m < k {
            assert(p[m] == q[m]);
        }
        if m2 < k {
            assert(q[m2] == p[m2]);
        }
        assert(ranks_before(sizes, q[k] as int, q[m] as int));
        assert(ranks_before(sizes, p[k] as int, p[m2] as int));
    }
}

/// The order of the indices of `sizes` by size, largest first, with ties
/// kept in their input order (a stable sort).
pub fn size_order(sizes: &Vec<u64>) -> (p: Vec<usize>)
    ensures
        p@ == size_order_of(sizes@),
        is_size_order(sizes@, p@),
{
    let n = sizes.len();
    let mut p: Vec<usize> = Vec::new();
    let mut i: usize = 0;
    while i < n
        invariant
            i <= n,
            n == sizes.len(),
            is_ranked(sizes@, p@, i as nat),
        decreases n - i,
    {
        let mut pos: usize = 0;
        while pos < p.len() && sizes[p[pos]] >= sizes[i]
            invariant
                pos <= p.len(),
                i < n,
                n == sizes.len(),
                is_ranked(sizes@, p@, i as nat),
                forall|k: int| 0 <= k < pos ==> sizes@[#[trigger] p@[k] as int] >= sizes@[i as int],
            decreases p.len() - pos,
        {
            pos = pos + 1;
        }
        proof {
            lemma_insert_ranked(sizes@, p@, i, pos as int);
        }
        p.insert(pos, i);
        i = i + 1;
    }
    proof {
        law_size_order(sizes@, p@);
    }
    p
}

} // verus!
