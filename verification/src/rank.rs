//! Ranking positions by integer keys: the first smallest key, and a stable
//! ascending listing of all positions.
use vstd::prelude::*;

verus! {

/// `w` is the position of the first smallest key.
pub open spec fn is_first_min(keys: Seq<u64>, w: int) -> bool {
    &&& 0 <= w < keys.len()
    &&& forall|j: int| 0 <= j < keys.len() ==> keys[w] <= #[trigger] keys[j]
    &&& forall|j: int| 0 <= j < w ==> keys[w] < #[trigger] keys[j]
}

/// Position of the first smallest key.
pub fn first_min(keys: &Vec<u64>) -> (w: usize)
    requires
        keys@.len() > 0,
    ensures
        is_first_min(keys@, w as int),
        w == first_min_spec(keys@),
{
    let mut w: usize = 0;
    let mut i: usize = 1;
    while i < keys.len()
        invariant
            1 <= i <= keys@.len(),
            w < i,
            forall|j: int| 0 <= j < i ==> keys@[w as int] <= #[trigger] keys@[j],
            forall|j: int| 0 <= j < w ==> keys@[w as int] < #[trigger] keys@[j],
        decreases keys@.len() - i,
    {
        if keys[i] < keys[w] {
            w = i;
        }
        i = i + 1;
    }
    proof {
        assert(is_first_min(keys@, w as int));
        lemma_first_min_unique(keys@, w as int, first_min_spec(keys@));
    }
    w
}

/// `r` lists every position of `keys` exactly once.
pub open spec fn is_perm(r: Seq<usize>, n: int) -> bool {
    &&& r.len() == n
    &&& forall|i: int| 0 <= i < n ==> #[trigger] r[i] < n
    &&& forall|i: int, j: int| 0 <= i < j < n ==> r[i] != r[j]
    &&& forall|m: int| 0 <= m < n ==> #[trigger] listed(r, m)
}

/// `m` occurs in `r`.
pub open spec fn listed(r: Seq<usize>, m: int) -> bool {
    exists|i: int| 0 <= i < r.len() && r[i] == m
}

/// Along `r` the keys never decrease, and positions with equal keys keep
/// their original order.
pub open spec fn stably_sorted(keys: Seq<u64>, r: Seq<usize>) -> bool {
    &&& forall|i: int, j: int| 0 <= i < j < r.len() ==> keys[r[i] as int] <= keys[r[j] as int]
    &&& forall|i: int, j: int| 0 <= i < j < r.len() && keys[r[i] as int] == keys[r[j] as int] ==> r[i] < r[j]
}

/// Positions of `keys` in ascending key order (stable).
pub fn order_by_key(keys: &Vec<u64>) -> (r: Vec<usize>)
    ensures
        is_perm(r@, keys@.len() as int),
        stably_sorted(keys@, r@),
        r@ == sorted_order(keys@),
{
    let mut r: Vec<usize> = Vec::new();
    let mut k: usize = 0;
    while k < keys.len()
        invariant
            k <= keys@.len(),
            r@.len() == k,
            forall|i: int| 0 <= i < k ==> #[trigger] r@[i] < k,
            forall|i: int, j: int| 0 <= i < j < k ==> r@[i] != r@[j],
            forall|m: int| 0 <= m < k ==> #[trigger] listed(r@, m),
            stably_sorted(keys@, r@),
        decreases keys@.len() - k,
    {
        let mut p = r.len();
        while p > 0 && keys[r[p - 1]] > keys[k]
            invariant
                p <= r@.len(),
                r@.len() == k,
                k < keys@.len(),
                forall|i: int| 0 <= i < k ==> #[trigger] r@[i] < k,
                forall|i: int| p <= i < r@.len() ==> keys@[r@[i] as int] > keys@[k as int],
            decreases p,
        {
            p = p - 1;
        }
        let ghost old_r = r@;
        proof {
            if p > 0 {
                assert(keys@[old_r[p - 1] as int] <= keys@[k as int]);
                assert forall|i: int| 0 <= i < p implies keys@[old_r[i] as int] <= keys@[k as int] by {
                    if i < p - 1 {
                        assert(keys@[old_r[i] as int] <= keys@[old_r[p - 1] as int]);
                    }
                }
            }
        }
        r.insert(p, k);
        assert(r@ =~= old_r.subrange(0, p as int).push(k) + old_r.subrange(p as int, old_r.len() as int));
        proof {
            assert forall|i: int| 0 <= i < k + 1 implies #[trigger] r@[i] < k + 1 by {
                if i < p {
                    assert(r@[i] == old_r[i]);
                } else if i > p {
                    assert(r@[i] == old_r[i - 1]);
                }
            }
            assert forall|i: int, j: int| 0 <= i < j < k + 1 implies r@[i] != r@[j] by {
                if j < p {
                } else if j == p {
                    assert(r@[i] == old_r[i]);
                } else if i == p {
                    assert(r@[j] == old_r[j - 1]);
                } else if i < p {
                    assert(r@[i] == old_r[i]);
                    assert(r@[j] == old_r[j - 1]);
                } else {
                    assert(r@[i] == old_r[i - 1]);
                    assert(r@[j] == old_r[j - 1]);
                }
            }
            assert forall|i: int, j: int| 0 <= i < j < r@.len() implies keys@[r@[i] as int] <= keys@[r@[j] as int] by {
                if j < p {
                } else if j == p {
                    assert(r@[i] == old_r[i]);
                } else if i == p {
                    assert(r@[j] == old_r[j - 1]);
                } else if i < p {
                    assert(r@[i] == old_r[i]);
                    assert(r@[j] == old_r[j - 1]);
                    assert(keys@[old_r[i] as int] <= keys@[old_r[j - 1] as int]);
                } else {
                    assert(r@[i] == old_r[i - 1]);
                    assert(r@[j] == old_r[j - 1]);
                    assert(keys@[old_r[i - 1] as int] <= keys@[old_r[j - 1] as int]);
                }
            }
            assert forall|i: int, j: int|
                0 <= i < j < r@.len() && keys@[r@[i] as int] == keys@[r@[j] as int] implies r@[i] < r@[j] by {
                if j < p {
                } else if j == p {
                    assert(r@[i] == old_r[i]);
                } else if i == p {
                    assert(r@[j] == old_r[j - 1]);
                    assert(keys@[old_r[j - 1] as int] > keys@[k as int]);
                } else if i < p {
                    assert(r@[i] == old_r[i]);
                    assert(r@[j] == old_r[j - 1]);
                    assert(keys@[old_r[i] as int] == keys@[old_r[j - 1] as int] ==> old_r[i] < old_r[j - 1]);
                } else {
                    assert(r@[i] == old_r[i - 1]);
                    assert(r@[j] == old_r[j - 1]);
                    assert(keys@[old_r[i - 1] as int] == keys@[old_r[j - 1] as int] ==> old_r[i - 1] < old_r[j - 1]);
                }
            }
            assert forall|m: int| 0 <= m < k + 1 implies #[trigger] listed(r@, m) by {
                if m == k {
                    assert(r@[p as int] == k);
                } else {
                    assert(listed(old_r, m));
                    let i0 = choose|i: int| 0 <= i < old_r.len() && old_r[i] == m;
                    if i0 < p {
                        assert(r@[i0] == m);
                    } else {
                        assert(r@[i0 + 1] == m);
                    }
                }
            }
        }
        k = k + 1;
    }
    proof {
        assert(is_perm(r@, keys@.len() as int) && stably_sorted(keys@, r@));
        lemma_stable_order_unique(keys@, r@, sorted_order(keys@));
    }
    r
}

/// The position of the first smallest key.
pub open spec fn first_min_spec(keys: Seq<u64>) -> int {
    choose|w: int| is_first_min(keys, w)
}

/// The positions of `keys` listed in ascending key order, equal keys in
/// their original order.
pub open spec fn sorted_order(keys: Seq<u64>) -> Seq<usize> {
    choose|r: Seq<usize>| is_perm(r, keys.len() as int) && stably_sorted(keys, r)
}

/// There is only one first smallest key.
pub proof fn lemma_first_min_unique(keys: Seq<u64>, w1: int, w2: int)
    requires
        is_first_min(keys, w1),
        is_first_min(keys, w2),
    ensures
        w1 == w2,
{
    if w1 < w2 {
        assert(keys[w2] < keys[w1]);
    } else if w2 < w1 {
        assert(keys[w1] < keys[w2]);
    }
}

/// A stable ascending listing of the positions is unique.
pub proof fn lemma_stable_order_unique(keys: Seq<u64>, r1: Seq<usize>, r2: Seq<usize>)
    requires
        is_perm(r1, keys.len() as int),
        is_perm(r2, keys.len() as int),
        stably_sorted(keys, r1),
        stably_sorted(keys, r2),
    ensures
        r1 == r2,
{
    let n = keys.len() as int;
    assert forall|i: int| 0 <= i < n implies r1[i] == r2[i] by {
        lemma_stable_order_agree(keys, r1, r2, i);
    }
    assert(r1 =~= r2);
}

proof fn lemma_stable_order_agree(keys: Seq<u64>, r1: Seq<usize>, r2: Seq<usize>, i: int)
    requires
        is_perm(r1, keys.len() as int),
        is_perm(r2, keys.len() as int),
        stably_sorted(keys, r1),
        stably_sorted(keys, r2),
        0 <= i < keys.len(),
    ensures
        r1[i] == r2[i],
    decreases i,
{
    let n = keys.len() as int;
    assert forall|k: int| 0 <= k < i implies r1[k] == r2[k] by {
        lemma_stable_order_agree(keys, r1, r2, k);
    }
    let a = r1[i];
    let b = r2[i];
    if a != b {
        assert(0 <= b < n);
        assert(listed(r1, b as int));
        assert(listed(r2, a as int));
        let j = choose|j: int| 0 <= j < r1.len() && r1[j] == b as int;
        let m = choose|m: int| 0 <= m < r2.len() && r2[m] == a as int;
        if j < i {
            assert(r2[j] == b);
        }
        if m < i {
            assert(r1[m] == a);
        }
        assert(j > i);
        assert(m > i);
        assert(keys[a as int] <= keys[b as int]);
        assert(keys[b as int] <= keys[a as int]);
    }
}

} // verus!
