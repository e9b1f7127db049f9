//! Ordering of scored entries, highest score first.
//!
//! Scores reach this module as order keys: unsigned integers whose order
//! is the order of the scores they stand for. Entries with equal keys keep
//! their relative order.
use vstd::prelude::*;

verus! {

/// `order` lists the indices `0..keys.len()` once each.
pub open spec fn is_index_permutation(order: Seq<usize>, n: nat) -> bool {
    &&& order.len() == n
    &&& forall|a: int| 0 <= a < order.len() ==> order[a] < n
    &&& order.no_duplicates()
}

/// `order` lists the indices of `keys` from the highest key to the lowest,
/// equal keys in the order in which they stand in `keys`.
pub open spec fn is_descending_order(keys: Seq<u64>, order: Seq<usize>) -> bool {
    &&& is_index_permutation(order, keys.len())
    &&& forall|a: int, b: int|
        0 <= a < b < order.len() ==> keys[order[a] as int] >= keys[order[b] as int]
    &&& forall|a: int, b: int|
        0 <= a < b < order.len() && keys[order[a] as int] == keys[order[b] as int]
            ==> order[a] < order[b]
}

/// The indices of `keys`, highest key first; a stable order.
pub fn order_descending(keys: &Vec<u64>) -> (order: Vec<usize>)
    ensures
        is_descending_order(keys@, order@),
{
    let mut order: Vec<usize> = Vec::new();
    let n = keys.len();
    let mut i: usize = 0;
    while i < n
        invariant
            n == keys@.len(),
            i <= n,
            is_index_permutation(order@, i as nat),
            forall|a: int, b: int|
                0 <= a < b < order@.len() ==> keys@[order@[a] as int] >= keys@[order@[b] as int],
            forall|a: int, b: int|
                0 <= a < b < order@.len() && keys@[order@[a] as int] == keys@[order@[b] as int]
                    ==> order@[a] < order@[b],
        decreases n - i,
    {
        let k = keys[i];
        let mut p: usize = 0;
        while p < order.len() && keys[order[p]] >= k
            invariant
                n == keys@.len(),
                i < n,
                p <= order@.len(),
                is_index_permutation(order@, i as nat),
                forall|a: int| 0 <= a < p ==> keys@[order@[a] as int] >= k,
            decreases order@.len() - p,
        {
            p = p + 1;
        }
        let ghost prev = order@;
        order.insert(p, i);
        proof {
            assert(order@ == prev.insert(p as int, i));
            assert forall|a: int| 0 <= a < order@.len() implies order@[a] < i + 1 by {
                if a < p {
                    assert(order@[a] == prev[a]);
                } else if a > p {
                    assert(order@[a] == prev[a - 1]);
                }
            }
            assert forall|a: int, b: int| 0 <= a < order@.len() && 0 <= b < order@.len() && a != b
                implies order@[a] != order@[b] by {
                if a != p && b != p {
                    let pa = if a < p { a } else { a - 1 };
                    let pb = if b < p { b } else { b - 1 };
                    assert(order@[a] == prev[pa]);
                    assert(order@[b] == prev[pb]);
                } else if a == p {
                    let pb = if b < p { b } else { b - 1 };
                    assert(order@[b] == prev[pb]);
                } else {
                    let pa = if a < p { a } else { a - 1 };
                    assert(order@[a] == prev[pa]);
                }
            }
            assert forall|a: int, b: int| 0 <= a < b < order@.len()
                implies keys@[order@[a] as int] >= keys@[order@[b] as int]
                && (keys@[order@[a] as int] == keys@[order@[b] as int] ==> order@[a] < order@[b]) by {
                if b < p {
                } else if b == p {
                    assert(order@[a] == prev[a]);
                } else if a < p {
                    assert(order@[b] == prev[b - 1]);
                    assert(keys@[prev[p as int] as int] < k);
                    if b - 1 > p {
                        assert(keys@[prev[p as int] as int] >= keys@[prev[b - 1] as int]);
                    }
                } else if a == p {
                    assert(order@[b] == prev[b - 1]);
                    assert(keys@[prev[p as int] as int] < k);
                    if b - 1 > p {
                        assert(keys@[prev[p as int] as int] >= keys@[prev[b - 1] as int]);
                    }
                } else {
                    assert(order@[a] == prev[a - 1]);
                    assert(order@[b] == prev[b - 1]);
                }
            }
        }
        i = i + 1;
    }
    order
}

/// Reorders `list` by `keys` (one key per entry), highest key first;
/// entries with equal keys keep their relative order.
pub fn sort_float<T: Copy>(list: &mut Vec<T>, keys: &Vec<u64>)
    requires
        old(list)@.len() == keys@.len(),
    ensures
        exists|order: Seq<usize>|
            is_descending_order(keys@, order) && final(list)@ == order.map_values(
                |i: usize| old(list)@[i as int],
            ),
{
    let order = order_descending(keys);
    let mut sorted: Vec<T> = Vec::new();
    let mut k: usize = 0;
    while k < order.len()
        invariant
            is_descending_order(keys@, order@),
            list@.len() == keys@.len(),
            k <= order@.len(),
            sorted@ == order@.subrange(0, k as int).map_values(|i: usize| list@[i as int]),
        decreases order@.len() - k,
    {
        sorted.push(list[order[k]]);
        k = k + 1;
        assert(sorted@ =~= order@.subrange(0, k as int).map_values(|i: usize| list@[i as int]));
    }
    assert(order@.subrange(0, order@.len() as int) =~= order@);
    *list = sorted;
}

} // verus!
