//! Ordering positions by a key, largest first.
use vstd::prelude::*;

verus! {

/// `m` occurs in `r`.
pub open spec fn placed(r: Seq<usize>, m: int) -> bool {
    exists|j: int| 0 <= j < r.len() && r[j] == m
}

/// `r` lists each position of `keys` exactly once.
pub open spec fn is_ranking(keys: Seq<usize>, r: Seq<usize>) -> bool {
    &&& r.len() == keys.len()
    &&& forall|j: int| 0 <= j < r.len() ==> #[trigger] r[j] < keys.len()
    &&& forall|a: int, b: int| 0 <= a < b < r.len() ==> r[a] != r[b]
    &&& forall|m: int| 0 <= m < keys.len() ==> #[trigger] placed(r, m)
}

/// The keys met along `r` never increase.
pub open spec fn descending(keys: Seq<usize>, r: Seq<usize>) -> bool {
    forall|a: int, b: int|
        0 <= a < b < r.len() ==> keys[#[trigger] r[a] as int] >= keys[#[trigger] r[b] as int]
}

/// The positions of `keys`, ordered by key from the largest down; among equal
/// keys the later position comes first.
pub fn rank_desc(keys: &Vec<usize>) -> (r: Vec<usize>)
    ensures
        is_ranking(keys@, r@),
        descending(keys@, r@),
{
    let mut r: Vec<usize> = Vec::new();
    let mut i: usize = 0;
    while i < keys.len()
        invariant
            0 <= i <= keys@.len(),
            r@.len() == i,
            forall|j: int| 0 <= j < r@.len() ==> #[trigger] r@[j] < i,
            forall|a: int, b: int| 0 <= a < b < r@.len() ==> r@[a] != r@[b],
            forall|m: int| 0 <= m < i ==> #[trigger] placed(r@, m),
            descending(keys@, r@),
        decreases keys@.len() - i,
    {
        let key = keys[i];
        let mut p: usize = 0;
        while p < r.len() && keys[r[p]] > key
            invariant
                0 <= p <= r@.len(),
                r@.len() == i,
                i < keys@.len(),
                key == keys@[i as int],
                forall|j: int| 0 <= j < r@.len() ==> #[trigger] r@[j] < i,
                forall|j: int| 0 <= j < p ==> keys@[#[trigger] r@[j] as int] > key,
            decreases r@.len() - p,
        {
            p += 1;
        }
        let ghost old_r = r@;
        proof {
            assert forall|j: int| p <= j < old_r.len() implies keys@[#[trigger] old_r[j] as int] <= key by {
                assert(keys@[old_r[p as int] as int] <= key);
                if j > p {
                    assert(keys@[old_r[p as int] as int] >= keys@[old_r[j] as int]);
                }
            }
        }
        r.insert(p, i);
        proof {
            old_r.insert_ensures(p as int, i);
            assert forall|j: int| 0 <= j < r@.len() implies #[trigger] r@[j] < i + 1 by {
                if j < p {
                    assert(r@[j] == old_r[j]);
                } else if j > p {
                    assert(r@[j] == old_r[j - 1]);
                }
            }
            assert forall|a: int, b: int| 0 <= a < b < r@.len() implies r@[a] != r@[b] by {
                if a < p {
                    assert(r@[a] == old_r[a]);
                } else if a > p {
                    assert(r@[a] == old_r[a - 1]);
                }
                if b < p {
                    assert(r@[b] == old_r[b]);
                } else if b > p {
                    assert(r@[b] == old_r[b - 1]);
                }
            }
            assert forall|m: int| 0 <= m < i + 1 implies #[trigger] placed(r@, m) by {
                if m == i {
                    assert(r@[p as int] == m);
                } else {
                    assert(placed(old_r, m));
                    let j = choose|j: int| 0 <= j < old_r.len() && old_r[j] == m;
                    if j < p {
                        assert(r@[j] == m);
                    } else {
                        assert(r@[j + 1] == m);
                    }
                }
            }
            assert forall|a: int, b: int|
                0 <= a < b < r@.len() implies keys@[#[trigger] r@[a] as int] >= keys@[#[trigger] r@[b] as int] by {
                if a < p {
                    assert(r@[a] == old_r[a]);
                } else if a > p {
                    assert(r@[a] == old_r[a - 1]);
                }
                if b < p {
                    assert(r@[b] == old_r[b]);
                } else if b > p {
                    assert(r@[b] == old_r[b - 1]);
                }
            }
        }
        i += 1;
    }
    r
}

} // verus!
