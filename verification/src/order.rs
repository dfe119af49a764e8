//! Ordering items by a numeric key, largest first.
use vstd::prelude::*;

verus! {

/// `p` lists each of the positions `0..n` exactly once.
pub open spec fn is_permutation(p: Seq<usize>, n: nat) -> bool {
    &&& p.len() == n
    &&& forall|i: int| 0 <= i < p.len() ==> #[trigger] p[i] < n
    &&& forall|i: int, j: int| 0 <= i < j < p.len() ==> p[i] != p[j]
}

/// Walking `p`, the keys never increase.
pub open spec fn sorted_desc_by(keys: Seq<u128>, p: Seq<usize>) -> bool {
    forall|i: int, j: int| 0 <= i < j < p.len() ==> keys[p[i] as int] >= keys[p[j] as int]
}

/// Among equal keys, positions keep their order.
pub open spec fn stable_by(keys: Seq<u128>, p: Seq<usize>) -> bool {
    forall|i: int, j: int|
        0 <= i < j < p.len() && keys[p[i] as int] == keys[p[j] as int] ==> p[i] < p[j]
}

/// `p` is the order of `keys` largest first, ties in position order.
pub open spec fn ordering_of(keys: Seq<u128>, p: Seq<usize>) -> bool {
    is_permutation(p, keys.len()) && sorted_desc_by(keys, p) && stable_by(keys, p)
}

/// The positions of `keys` ordered by key, largest first; positions with
/// equal keys keep their relative order.
pub fn sort_desc_indices(keys: &Vec<u128>) -> (p: Vec<usize>)
    ensures
        is_permutation(p@, keys@.len()),
        sorted_desc_by(keys@, p@),
        stable_by(keys@, p@),
{
    let n = keys.len();
    let mut p: Vec<usize> = Vec::new();
    let mut k: usize = 0;
    while k < n
        invariant
            n == keys@.len(),
            k <= n,
            p@.len() == k,
            forall|i: int| 0 <= i < p@.len() ==> #[trigger] p@[i] < k,
            forall|i: int, j: int| 0 <= i < j < p@.len() ==> p@[i] != p@[j],
            sorted_desc_by(keys@, p@),
            stable_by(keys@, p@),
        decreases n - k,
    {
        let key = keys[k];
        let mut j: usize = 0;
        while j < p.len() && keys[p[j]] >= key
            invariant
                n == keys@.len(),
                k < n,
                key == keys@[k as int],
                j <= p@.len(),
                forall|i: int| 0 <= i < p@.len() ==> #[trigger] p@[i] < k,
                forall|m: int| 0 <= m < j ==> keys@[#[trigger] p@[m] as int] >= key,
            decreases p@.len() - j,
        {
            j = j + 1;
        }
        let ghost old_p = p@;
        p.insert(j, k);
        proof {
            old_p.insert_ensures(j as int, k);
            let q = p@;
            assert forall|i: int| 0 <= i < q.len() implies #[trigger] q[i] < k + 1 by {
                if i < j {
                    assert(q[i] == old_p[i]);
                } else if i > j {
                    assert(q[i] == old_p[i - 1]);
                }
            }
            assert forall|a: int, b: int| 0 <= a < b < q.len() implies q[a] != q[b] by {
                if a < j && b < j {
                    assert(q[a] == old_p[a] && q[b] == old_p[b]);
                } else if a < j && b == j {
                    assert(q[a] == old_p[a]);
                } else if a < j && b > j {
                    assert(q[a] == old_p[a] && q[b] == old_p[b - 1]);
                } else if a == j {
                    assert(q[b] == old_p[b - 1]);
                } else {
                    assert(q[a] == old_p[a - 1] && q[b] == old_p[b - 1]);
                }
            }
            assert forall|a: int, b: int| 0 <= a < b < q.len() implies keys@[q[a] as int]
                >= keys@[q[b] as int] by {
                if a < j && b < j {
                    assert(q[a] == old_p[a] && q[b] == old_p[b]);
                } else if a < j && b == j {
                    assert(q[a] == old_p[a]);
                } else if a < j && b > j {
                    assert(q[a] == old_p[a] && q[b] == old_p[b - 1]);
                    assert(keys@[old_p[a] as int] >= keys@[old_p[j as int] as int]);
                } else if a == j {
                    assert(q[b] == old_p[b - 1]);
                    assert(keys@[old_p[j as int] as int] < key);
                    if b - 1 > j {
                        assert(keys@[old_p[j as int] as int] >= keys@[old_p[b - 1] as int]);
                    }
                } else {
                    assert(q[a] == old_p[a - 1] && q[b] == old_p[b - 1]);
                }
            }
            assert forall|a: int, b: int|
                0 <= a < b < q.len() && keys@[q[a] as int] == keys@[q[b] as int] implies q[a]
                < q[b] by {
                if a < j && b < j {
                    assert(q[a] == old_p[a] && q[b] == old_p[b]);
                } else if a < j && b == j {
                    assert(q[a] == old_p[a]);
                } else if a < j && b > j {
                    assert(q[a] == old_p[a] && q[b] == old_p[b - 1]);
                    assert(keys@[old_p[a] as int] >= keys@[old_p[j as int] as int]);
                    assert(keys@[old_p[j as int] as int] < key);
                    assert(keys@[old_p[j as int] as int] >= keys@[old_p[b - 1] as int]);
                } else if a == j {
                    assert(q[b] == old_p[b - 1]);
                    assert(keys@[old_p[j as int] as int] < key);
                    assert(keys@[old_p[j as int] as int] >= keys@[old_p[b - 1] as int]);
                } else {
                    assert(q[a] == old_p[a - 1] && q[b] == old_p[b - 1]);
                }
            }
        }
        k = k + 1;
    }
    p
}

/// A permutation of `0..n` lists every position below `n`.
pub proof fn lemma_permutation_covers(p: Seq<usize>, n: nat, v: int)
    requires
        is_permutation(p, n),
        0 <= v < n,
    ensures
        exists|i: int| 0 <= i < p.len() && p[i] == v,
{
    broadcast use vstd::seq_lib::group_seq_properties;
    broadcast use vstd::set::group_set_axioms;

    let s = p.map_values(|x: usize| x as int);
    assert(s.no_duplicates()) by {
        assert forall|i: int, j: int| 0 <= i < s.len() && 0 <= j < s.len() && i != j implies s[i]
            != s[j] by {
            if i < j {
                assert(p[i] != p[j]);
            } else {
                assert(p[j] != p[i]);
            }
        }
    }
    s.unique_seq_to_set();
    vstd::set_lib::lemma_int_range(0, n as int);
    let r = vstd::set_lib::set_int_range(0, n as int);
    assert(s.to_set().subset_of(r)) by {
        assert forall|x: int| s.to_set().contains(x) implies r.contains(x) by {
            assert(s.contains(x));
            let i = choose|i: int| 0 <= i < s.len() && s[i] == x;
            assert(p[i] < n);
        }
    }
    vstd::set_lib::lemma_subset_equality(s.to_set(), r);
    assert(r.contains(v));
    assert(s.to_set().contains(v));
    assert(s.contains(v));
    let i = choose|i: int| 0 <= i < s.len() && s[i] == v;
    assert(p[i] == v);
}

proof fn lemma_orderings_agree_at(keys: Seq<u128>, p: Seq<usize>, q: Seq<usize>, i: int)
    requires
        ordering_of(keys, p),
        ordering_of(keys, q),
        0 <= i < p.len(),
        forall|j: int| 0 <= j < i ==> p[j] == q[j],
    ensures
        p[i] == q[i],
{
    let n = keys.len();
    let a = p[i];
    let b = q[i];
    if a != b {
        lemma_permutation_covers(p, n, b as int);
        let j = choose|j: int| 0 <= j < p.len() && p[j] == b;
        if j < i {
            assert(q[j] == b);
        }
        assert(j > i);
        lemma_permutation_covers(q, n, a as int);
        let k = choose|k: int| 0 <= k < q.len() && q[k] == a;
        if k < i {
            assert(p[k] == a);
        }
        assert(k > i);
        assert(keys[a as int] >= keys[b as int]);
        assert(keys[b as int] >= keys[a as int]);
        assert(a < b);
        assert(b < a);
    }
}

proof fn lemma_orderings_agree_upto(keys: Seq<u128>, p: Seq<usize>, q: Seq<usize>, i: int)
    requires
        ordering_of(keys, p),
        ordering_of(keys, q),
        0 <= i <= p.len(),
    ensures
        forall|j: int| 0 <= j < i ==> p[j] == q[j],
    decreases i,
{
    if i > 0 {
        lemma_orderings_agree_upto(keys, p, q, i - 1);
        lemma_orderings_agree_at(keys, p, q, i - 1);
    }
}

/// The order of positions by key, largest first with ties in position
/// order, is unique: two rankings of the same keys are the same.
pub proof fn law_ordering_unique(keys: Seq<u128>, p: Seq<usize>, q: Seq<usize>)
    requires
        ordering_of(keys, p),
        ordering_of(keys, q),
    ensures
        p == q,
{
    lemma_orderings_agree_upto(keys, p, q, p.len() as int);
    assert(p =~= q);
}

} // verus!
