//! Stable ordering of indices by text keys, as `sort_by` on keys compared
//! with `str`'s order leaves a list.
use vstd::prelude::*;
use crate::text::{seq_lt, lemma_seq_lt_irreflexive, lemma_seq_lt_asymmetric, lemma_seq_lt_transitive, lemma_seq_lt_total, chars_lt};

verus! {

/// Index `a` comes before index `b`: its key is smaller, or the keys are
/// equal and `a` came first (a stable sort keeps equal keys in input order).
pub open spec fn key_before(keys: Seq<Seq<char>>, a: int, b: int) -> bool {
    seq_lt(keys[a], keys[b]) || (keys[a] == keys[b] && a < b)
}

/// `order` lists every index of `keys` once, in the order of a stable sort.
pub open spec fn stably_sorted(keys: Seq<Seq<char>>, order: Seq<usize>) -> bool {
    &&& order.len() == keys.len()
    &&& forall|q: int| 0 <= q < order.len() ==> #[trigger] order[q] < keys.len()
    &&& forall|j: usize| j < keys.len() ==> #[trigger] order.contains(j)
    &&& forall|p: int, q: int|
        0 <= p < q < order.len() ==> key_before(keys, #[trigger] order[p] as int, #[trigger] order[q] as int)
}

proof fn lemma_key_before_transitive(keys: Seq<Seq<char>>, a: int, b: int, c: int)
    requires
        key_before(keys, a, b),
        key_before(keys, b, c),
    ensures
        key_before(keys, a, c),
{
    if seq_lt(keys[a], keys[b]) && seq_lt(keys[b], keys[c]) {
        lemma_seq_lt_transitive(keys[a], keys[b], keys[c]);
    }
}

/// The permutation of `0..keys.len()` that a stable sort by key produces.
pub fn stable_order(keys: &Vec<Vec<char>>) -> (order: Vec<usize>)
    ensures
        stably_sorted(keys@.map_values(|k: Vec<char>| k@), order@),
{
    let ghost ks = keys@.map_values(|k: Vec<char>| k@);
    let n = keys.len();
    let mut order: Vec<usize> = Vec::new();
    let mut i: usize = 0;
    while i < n
        invariant
            n == keys.len(),
            ks == keys@.map_values(|k: Vec<char>| k@),
            i <= n,
            order.len() == i,
            forall|q: int| 0 <= q < order.len() ==> #[trigger] order@[q] < i,
            forall|j: usize| j < i ==> #[trigger] order@.contains(j),
            forall|p: int, q: int|
                0 <= p < q < order.len() ==> key_before(ks, #[trigger] order@[p] as int, #[trigger] order@[q] as int),
        decreases n - i,
    {
        let mut p: usize = 0;
        while p < order.len() && !chars_lt(&keys[i], &keys[order[p]])
            invariant
                n == keys.len(),
                ks == keys@.map_values(|k: Vec<char>| k@),
                i < n,
                p <= order.len() == i,
                forall|q: int| 0 <= q < order.len() ==> #[trigger] order@[q] < i,
                forall|q: int| 0 <= q < p ==> key_before(ks, #[trigger] order@[q] as int, i as int),
            decreases order.len() - p,
        {
            proof {
                let o = order@[p as int] as int;
                if ks[o] != ks[i as int] {
                    lemma_seq_lt_total(ks[o], ks[i as int]);
                }
            }
            p += 1;
        }
        let ghost old_order = order@;
        proof {
            if p < old_order.len() {
                let op = old_order[p as int] as int;
                assert(seq_lt(ks[i as int], ks[op]));
                assert forall|q: int| p <= q < old_order.len() implies key_before(ks, i as int, #[trigger] old_order[q] as int) by {
                    let oq = old_order[q] as int;
                    if q > p {
                        assert(key_before(ks, op, oq));
                        if seq_lt(ks[op], ks[oq]) {
                            lemma_seq_lt_transitive(ks[i as int], ks[op], ks[oq]);
                        }
                    }
                }
            }
        }
        order.insert(p, i);
        proof {
            let no = order@;
            assert(no == old_order.insert(p as int, i));
            assert forall|q: int| 0 <= q < no.len() implies #[trigger] no[q] < i + 1 by {
                if q < p {
                    assert(no[q] == old_order[q]);
                } else if q > p {
                    assert(no[q] == old_order[q - 1]);
                }
            }
            assert forall|j: usize| j < i + 1 implies #[trigger] no.contains(j) by {
                if j == i {
                    assert(no[p as int] == i);
                } else {
                    assert(old_order.contains(j));
                    let q = choose|q: int| 0 <= q < old_order.len() && old_order[q] == j;
                    if q < p {
                        assert(no[q] == old_order[q]);
                    } else {
                        assert(no[q + 1] == old_order[q]);
                    }
                }
            }
            assert forall|a: int, b: int| 0 <= a < b < no.len() implies key_before(ks, #[trigger] no[a] as int, #[trigger] no[b] as int) by {
                if a < p && b < p {
                    assert(no[a] == old_order[a] && no[b] == old_order[b]);
                } else if a < p && b == p {
                    assert(no[a] == old_order[a]);
                } else if a < p && b > p {
                    assert(no[a] == old_order[a] && no[b] == old_order[b - 1]);
                    if a < b - 1 {
                        assert(key_before(ks, old_order[a] as int, old_order[b - 1] as int));
                    }
                } else if a == p {
                    assert(no[b] == old_order[b - 1]);
                } else {
                    assert(no[a] == old_order[a - 1] && no[b] == old_order[b - 1]);
                }
            }
        }
        i += 1;
    }
    order
}

/// In a stable order with pairwise distinct keys, the keys strictly increase.
pub proof fn lemma_distinct_keys_strictly_increase(keys: Seq<Seq<char>>, order: Seq<usize>, p: int, q: int)
    requires
        stably_sorted(keys, order),
        forall|a: int, b: int| 0 <= a < b < keys.len() ==> keys[a] != keys[b],
        0 <= p < q < order.len(),
    ensures
        seq_lt(keys[order[p] as int], keys[order[q] as int]),
{
    let a = order[p] as int;
    let b = order[q] as int;
    assert(key_before(keys, a, b));
    if keys[a] == keys[b] {
        lemma_seq_lt_irreflexive(keys[a]);
        assert(a < b);
        assert(keys[a] != keys[b]);
    }
}

/// Two strictly increasing sequences that hold the same elements are equal.
pub proof fn lemma_strictly_sorted_unique(a: Seq<Seq<char>>, b: Seq<Seq<char>>)
    requires
        forall|i: int, j: int| 0 <= i < j < a.len() ==> seq_lt(#[trigger] a[i], #[trigger] a[j]),
        forall|i: int, j: int| 0 <= i < j < b.len() ==> seq_lt(#[trigger] b[i], #[trigger] b[j]),
        forall|k: Seq<char>| a.contains(k) <==> b.contains(k),
    ensures
        a == b,
    decreases a.len(),
{
    if a.len() == 0 {
        if b.len() > 0 {
            assert(b.contains(b[0]));
        }
        assert(a =~= b);
    } else if b.len() == 0 {
        assert(a.contains(a[0]));
    } else {
        assert(a.contains(a[0]));
        assert(b.contains(b[0]));
        if a[0] != b[0] {
            let j = choose|j: int| 0 <= j < b.len() && b[j] == a[0];
            let i = choose|i: int| 0 <= i < a.len() && a[i] == b[0];
            assert(j > 0 && i > 0);
            assert(seq_lt(b[0], b[j]));
            assert(seq_lt(a[0], a[i]));
            lemma_seq_lt_asymmetric(a[0], b[0]);
        }
        let ra = a.drop_first();
        let rb = b.drop_first();
        assert forall|k: Seq<char>| ra.contains(k) <==> rb.contains(k) by {
            if ra.contains(k) {
                let i = choose|i: int| 0 <= i < ra.len() && ra[i] == k;
                assert(a[i + 1] == k);
                assert(seq_lt(a[0], a[i + 1]));
                lemma_seq_lt_irreflexive(k);
                assert(b.contains(k));
                let j = choose|j: int| 0 <= j < b.len() && b[j] == k;
                assert(j != 0);
                assert(rb[j - 1] == k);
            }
            if rb.contains(k) {
                let j = choose|j: int| 0 <= j < rb.len() && rb[j] == k;
                assert(b[j + 1] == k);
                assert(seq_lt(b[0], b[j + 1]));
                lemma_seq_lt_irreflexive(k);
                assert(a.contains(k));
                let i = choose|i: int| 0 <= i < a.len() && a[i] == k;
                assert(i != 0);
                assert(ra[i - 1] == k);
            }
        }
        assert forall|i: int, j: int| 0 <= i < j < ra.len() implies seq_lt(#[trigger] ra[i], #[trigger] ra[j]) by {
            assert(ra[i] == a[i + 1] && ra[j] == a[j + 1]);
        }
        assert forall|i: int, j: int| 0 <= i < j < rb.len() implies seq_lt(#[trigger] rb[i], #[trigger] rb[j]) by {
            assert(rb[i] == b[i + 1] && rb[j] == b[j + 1]);
        }
        lemma_strictly_sorted_unique(ra, rb);
        assert(a =~= seq![a[0]] + ra);
        assert(b =~= seq![b[0]] + rb);
    }
}

} // verus!
