//! Intake of a view event: the co-occurrence pairs that a view records.
use crate::storage::items::list::{fresh_entries, ids_of, new_ids};
use vstd::prelude::*;

verus! {

/// The co-occurrence increments of a view of `item` by a user whose
/// history is `history`: `item` next to every entry of the history, and
/// every entry of the history next to `item`.
pub open spec fn near_pairs_of(item: u128, history: Seq<u128>) -> Seq<(u128, Seq<u128>)> {
    seq![(item, history)] + history.map_values(|h: u128| (h, seq![item]))
}

/// The pairs (list owner, items to increment in its near list) that a
/// view of `item` records, for a user whose history is `history`.
pub fn near_pairs(item: u128, history: &Vec<u128>) -> (r: Vec<(u128, Vec<u128>)>)
    ensures
        r@.len() == history@.len() + 1,
        forall|i: int|
            0 <= i < r@.len() ==> (#[trigger] r@[i]).0 == near_pairs_of(item, history@)[i].0
                && r@[i].1@ == near_pairs_of(item, history@)[i].1,
{
    let mut r: Vec<(u128, Vec<u128>)> = Vec::new();
    r.push((item, history.clone()));
    let mut i: usize = 0;
    while i < history.len()
        invariant
            i <= history@.len(),
            r@.len() == i + 1,
            r@[0].0 == item,
            r@[0].1@ == history@,
            forall|j: int|
                1 <= j <= i ==> (#[trigger] r@[j]).0 == history@[j - 1] && r@[j].1@ == seq![item],
        decreases history@.len() - i,
    {
        let mut single: Vec<u128> = Vec::new();
        single.push(item);
        r.push((history[i], single));
        i = i + 1;
    }
    proof {
        let spec_pairs = near_pairs_of(item, history@);
        assert forall|j: int| 0 <= j < r@.len() implies (#[trigger] r@[j]).0 == spec_pairs[j].0
            && r@[j].1@ == spec_pairs[j].1 by {
            if j > 0 {
                assert(spec_pairs[j] == (history@[j - 1], seq![item]));
            }
        }
    }
    r
}

/// Co-occurrence is recorded both ways: after a view of `item` by a user
/// whose history holds `h`, the increments that the view records put `h`
/// into the near list of `item` and `item` into the near list of `h`,
/// whatever those lists held before (as long as no compaction cuts them).
pub proof fn view_records_both_directions(
    item: u128,
    history: Seq<u128>,
    h: u128,
    item_list: Seq<(u128, u64)>,
    h_list: Seq<(u128, u64)>,
)
    requires
        history.contains(h),
    ensures
        exists|i: int|
            0 <= i < near_pairs_of(item, history).len() && near_pairs_of(item, history)[i].0
                == item && ids_of(
                item_list + fresh_entries(
                    new_ids(ids_of(item_list), near_pairs_of(item, history)[i].1),
                ),
            ).contains(h),
        exists|i: int|
            0 <= i < near_pairs_of(item, history).len() && near_pairs_of(item, history)[i].0 == h
                && ids_of(
                h_list + fresh_entries(
                    new_ids(ids_of(h_list), near_pairs_of(item, history)[i].1),
                ),
            ).contains(item),
{
    let pairs = near_pairs_of(item, history);
    lemma_increment_holds(item_list, history, h);
    assert(pairs[0] == (item, history));
    let k = choose|k: int| 0 <= k < history.len() && history[k] == h;
    assert(pairs[k + 1] == (h, seq![item]));
    assert(seq![item].contains(item)) by {
        assert(seq![item][0] == item);
    }
    lemma_increment_holds(h_list, seq![item], item);
}

/// After an increment of `ids`, the list holds every one of them.
pub proof fn lemma_increment_holds(items: Seq<(u128, u64)>, ids: Seq<u128>, id: u128)
    requires
        ids.contains(id),
    ensures
        ids_of(items + fresh_entries(new_ids(ids_of(items), ids))).contains(id),
    decreases ids.len(),
{
    let known = ids_of(items);
    let added = new_ids(known, ids);
    let all = ids_of(items + fresh_entries(added));
    assert(all =~= known + added);
    if ids.last() == id {
        let prev = new_ids(known, ids.drop_last());
        if known.contains(id) {
            let j = choose|j: int| 0 <= j < known.len() && known[j] == id;
            assert(all[j] == id);
        } else if prev.contains(id) {
            let j = choose|j: int| 0 <= j < prev.len() && prev[j] == id;
            assert(added == prev);
            assert(all[known.len() + j] == id);
        } else {
            assert(added == prev.push(id));
            assert(all[(known.len() + prev.len()) as int] == id);
        }
    } else {
        let k = choose|k: int| 0 <= k < ids.len() && ids[k] == id;
        assert(ids.drop_last()[k] == id);
        lemma_increment_holds(items, ids.drop_last(), id);
        let prev = new_ids(known, ids.drop_last());
        assert(ids_of(items + fresh_entries(prev)) =~= known + prev);
        let j = choose|j: int| 0 <= j < (known + prev).len() && (known + prev)[j] == id;
        if known.contains(ids.last()) || prev.contains(ids.last()) {
            assert(added == prev);
        } else {
            assert(added == prev.push(ids.last()));
            assert(all[j] == id);
        }
    }
}

} // verus!
