//! The decaying ranked list: a bounded collection of (item, score) pairs
//! with a modification counter and an epoch.
//!
//! Scores are scalars (see `crate::learn::vector`); the list is ranked by
//! their order keys. Adding to a score and applying a decay function to
//! the scores are done by the caller on the slots that this module hands
//! out.
use crate::learn::vector::{order_key, order_key_of, Scalar, ZERO};
use crate::ord::{is_descending_order, order_descending};
use vstd::prelude::*;

verus! {

/// A full day in milliseconds: the elapsed time assumed for a list that
/// has never been compacted.
pub const DAY_MILLIS: u128 = 86_400_000;

pub open spec fn ids_of(items: Seq<(u128, Scalar)>) -> Seq<u128> {
    items.map_values(|e: (u128, Scalar)| e.0)
}

pub open spec fn keys_of(items: Seq<(u128, Scalar)>) -> Seq<u64> {
    items.map_values(|e: (u128, Scalar)| order_key_of(e.1))
}

/// The ids of `ids` that are neither in `known` nor earlier in `ids`,
/// in the order in which they first occur.
pub open spec fn new_ids(known: Seq<u128>, ids: Seq<u128>) -> Seq<u128>
    decreases ids.len(),
{
    if ids.len() == 0 {
        Seq::empty()
    } else {
        let prev = new_ids(known, ids.drop_last());
        if known.contains(ids.last()) || prev.contains(ids.last()) {
            prev
        } else {
            prev.push(ids.last())
        }
    }
}

/// Entries with a zero score for each of `ids`.
pub open spec fn fresh_entries(ids: Seq<u128>) -> Seq<(u128, Scalar)> {
    ids.map_values(|id: u128| (id, ZERO))
}

/// `a + b`, or the largest `u64` where the sum does not fit.
pub open spec fn saturating_sum(a: u64, b: nat) -> u64 {
    if a + b > u64::MAX {
        u64::MAX
    } else {
        (a + b) as u64
    }
}

/// `items` ranked by score, highest first, cut to `limit` entries.
pub open spec fn ranked_prefix(
    items: Seq<(u128, Scalar)>,
    result: Seq<(u128, Scalar)>,
    limit: nat,
) -> bool {
    exists|order: Seq<usize>|
        is_descending_order(keys_of(items), order) && result == order.map_values(
            |i: usize| items[i as int],
        ).take(if limit < items.len() {
            limit as int
        } else {
            items.len() as int
        })
}

#[derive(Debug, Clone)]
pub struct ItemList {
    pub items: Vec<(u128, Scalar)>,
    pub nmods: u64,
    pub epoch: u128,
}

impl ItemList {
    /// Each item is in the list at most once.
    pub open spec fn wf(&self) -> bool {
        ids_of(self.items@).no_duplicates()
    }

    pub fn new() -> (r: ItemList)
        ensures
            r.wf(),
            r.items@.len() == 0,
            r.nmods == 0,
            r.epoch == 0,
    {
        ItemList { items: Vec::new(), nmods: 0, epoch: 0 }
    }

    /// Whether each item is in the list at most once, as a list read back
    /// from storage must be before it is updated.
    pub fn has_distinct_ids(&self) -> (r: bool)
        ensures
            r == self.wf(),
    {
        let n = self.items.len();
        let mut i: usize = 0;
        while i < n
            invariant
                n == self.items@.len(),
                i <= n,
                forall|a: int, b: int| 0 <= a < b < n && a < i ==> self.items@[a].0 != self.items@[b].0,
            decreases n - i,
        {
            let mut j: usize = i + 1;
            while j < n
                invariant
                    n == self.items@.len(),
                    i < n,
                    i + 1 <= j <= n,
                    forall|a: int, b: int| 0 <= a < b < n && a < i ==> self.items@[a].0 != self.items@[b].0,
                    forall|b: int| i < b < j ==> self.items@[i as int].0 != self.items@[b].0,
                decreases n - j,
            {
                if self.items[i].0 == self.items[j].0 {
                    proof {
                        assert(ids_of(self.items@)[i as int] == ids_of(self.items@)[j as int]);
                    }
                    return false;
                }
                j = j + 1;
            }
            i = i + 1;
        }
        proof {
            assert forall|a: int, b: int| 0 <= a < ids_of(self.items@).len() && 0 <= b < ids_of(self.items@).len() && a != b
                implies ids_of(self.items@)[a] != ids_of(self.items@)[b] by {
                if a < b {
                    assert(self.items@[a].0 != self.items@[b].0);
                } else {
                    assert(self.items@[b].0 != self.items@[a].0);
                }
            }
        }
        true
    }

    /// Index of the entry of `id`, if there is one.
    pub fn position(&self, id: u128) -> (r: Option<usize>)
        ensures
            match r {
                Some(i) => i < self.items@.len() && self.items@[i as int].0 == id,
                None => !ids_of(self.items@).contains(id),
            },
    {
        let mut i: usize = 0;
        while i < self.items.len()
            invariant
                i <= self.items@.len(),
                forall|j: int| 0 <= j < i ==> self.items@[j].0 != id,
            decreases self.items@.len() - i,
        {
            if self.items[i].0 == id {
                return Some(i);
            }
            i = i + 1;
        }
        proof {
            if ids_of(self.items@).contains(id) {
                let j = choose|j: int| 0 <= j < self.items@.len() && ids_of(self.items@)[j] == id;
                assert(self.items@[j].0 == id);
            }
        }
        None
    }

    /// Makes room for one increment of each of `ids`: an item that is not
    /// in the list yet is added with a zero score, and the modification
    /// counter grows by the number of ids. The result gives, for each id,
    /// the index of its entry, to which the caller adds the increment.
    pub fn prepare_increment(&mut self, ids: &Vec<u128>) -> (slots: Vec<usize>)
        requires
            old(self).wf(),
        ensures
            final(self).wf(),
            final(self).items@ == old(self).items@ + fresh_entries(
                new_ids(ids_of(old(self).items@), ids@),
            ),
            final(self).nmods == saturating_sum(old(self).nmods, ids@.len()),
            final(self).epoch == old(self).epoch,
            slots@.len() == ids@.len(),
            forall|k: int|
                0 <= k < ids@.len() ==> #[trigger] slots@[k] < final(self).items@.len()
                    && final(self).items@[slots@[k] as int].0 == ids@[k],
    {
        let ghost start = self.items@;
        let mut slots: Vec<usize> = Vec::new();
        let mut k: usize = 0;
        while k < ids.len()
            invariant
                k <= ids@.len(),
                self.nmods == old(self).nmods,
                self.epoch == old(self).epoch,
                start == old(self).items@,
                ids_of(self.items@).no_duplicates(),
                self.items@ == start + fresh_entries(new_ids(ids_of(start), ids@.subrange(0, k as int))),
                slots@.len() == k,
                forall|j: int|
                    0 <= j < k ==> #[trigger] slots@[j] < self.items@.len() && self.items@[slots@[j] as int].0
                        == ids@[j],
            decreases ids@.len() - k,
        {
            let id = ids[k];
            let ghost before = self.items@;
            let ghost before_slots = slots@;
            let ghost prefix = ids@.subrange(0, k as int);
            let ghost next = ids@.subrange(0, k as int + 1);
            proof {
                assert(next.drop_last() =~= prefix);
                assert(next.last() == id);
                assert(ids_of(before) =~= ids_of(start) + new_ids(ids_of(start), prefix));
            }
            match self.position(id) {
                Some(i) => {
                    slots.push(i);
                    assert(self.items@ == before);
                    proof {
                        let all = ids_of(start) + new_ids(ids_of(start), prefix);
                        assert(all[i as int] == id);
                        if i < start.len() {
                            assert(ids_of(start)[i as int] == id);
                        } else {
                            assert(new_ids(ids_of(start), prefix)[i - start.len()] == id);
                        }
                    }
                },
                None => {
                    let i = self.items.len();
                    self.items.push((id, ZERO));
                    slots.push(i);
                    assert(self.items@ == before.push((id, ZERO)));
                    assert(self.items@.subrange(0, before.len() as int) =~= before);
                    proof {
                        let all = ids_of(start) + new_ids(ids_of(start), prefix);
                        assert(!all.contains(id));
                        assert(!ids_of(start).contains(id)) by {
                            if ids_of(start).contains(id) {
                                let j = choose|j: int| 0 <= j < ids_of(start).len() && ids_of(start)[j] == id;
                                assert(all[j] == id);
                            }
                        }
                        assert(!new_ids(ids_of(start), prefix).contains(id)) by {
                            if new_ids(ids_of(start), prefix).contains(id) {
                                let j = choose|j: int| 0 <= j < new_ids(ids_of(start), prefix).len() && new_ids(ids_of(start), prefix)[j] == id;
                                assert(all[ids_of(start).len() + j] == id);
                            }
                        }
                        assert(fresh_entries(new_ids(ids_of(start), next)) =~= fresh_entries(new_ids(ids_of(start), prefix)).push((id, ZERO)));
                        assert(ids_of(self.items@) =~= ids_of(before).push(id));
                    }
                },
            }
            proof {
                assert(self.items@.len() >= before.len());
                assert forall|j: int| 0 <= j < k + 1 implies slots@[j] < self.items@.len()
                    && self.items@[slots@[j] as int].0 == ids@[j] by {
                    if j < k {
                        assert(slots@[j] == before_slots[j]);
                        assert(before_slots[j] < before.len());
                        assert(before[before_slots[j] as int].0 == ids@[j]);
                        assert(self.items@.subrange(0, before.len() as int) == before);
                        assert(self.items@[slots@[j] as int] == before[slots@[j] as int]);
                    } else {
                        assert(slots@[j] == slots@[k as int]);
                    }
                }
            }
            k = k + 1;
        }
        proof {
            assert(ids@.subrange(0, ids@.len() as int) =~= ids@);
        }
        let n = ids.len() as u64;
        if self.nmods > u64::MAX - n {
            self.nmods = u64::MAX;
        } else {
            self.nmods = self.nmods + n;
        }
        slots
    }

    /// The entries ranked by score, highest first, equal scores in list
    /// order, cut to `limit` entries.
    fn ranked(&self, limit: usize) -> (r: Vec<(u128, Scalar)>)
        requires
            self.wf(),
        ensures
            ranked_prefix(self.items@, r@, limit as nat),
            ids_of(r@).no_duplicates(),
    {
        let mut keys: Vec<u64> = Vec::new();
        let mut i: usize = 0;
        while i < self.items.len()
            invariant
                i <= self.items@.len(),
                keys@ == keys_of(self.items@.subrange(0, i as int)),
            decreases self.items@.len() - i,
        {
            keys.push(order_key(self.items[i].1));
            i = i + 1;
            assert(keys@ =~= keys_of(self.items@.subrange(0, i as int)));
        }
        assert(self.items@.subrange(0, self.items@.len() as int) =~= self.items@);
        let order = order_descending(&keys);
        let n = if limit < order.len() {
            limit
        } else {
            order.len()
        };
        let mut r: Vec<(u128, Scalar)> = Vec::new();
        let mut k: usize = 0;
        while k < n
            invariant
                is_descending_order(keys@, order@),
                keys@ == keys_of(self.items@),
                n <= order@.len(),
                k <= n,
                r@ == order@.map_values(|i: usize| self.items@[i as int]).take(k as int),
            decreases n - k,
        {
            r.push(self.items[order[k]]);
            k = k + 1;
            assert(r@ =~= order@.map_values(|i: usize| self.items@[i as int]).take(k as int));
        }
        proof {
            assert(ranked_prefix(self.items@, r@, limit as nat));
            assert forall|a: int, b: int| 0 <= a < b < r@.len() implies ids_of(r@)[a] != ids_of(r@)[b] by {
                assert(order@[a] != order@[b]);
                assert(ids_of(self.items@)[order@[a] as int] != ids_of(self.items@)[order@[b] as int]);
            }
        }
        r
    }

    /// Ranks the entries by score, highest first; equal scores keep their
    /// order.
    pub fn sort_by_score(&mut self)
        requires
            old(self).wf(),
        ensures
            final(self).wf(),
            ranked_prefix(old(self).items@, final(self).items@, old(self).items@.len()),
            final(self).nmods == old(self).nmods,
            final(self).epoch == old(self).epoch,
    {
        let n = self.items.len();
        self.items = self.ranked(n);
    }

    /// Compacts the list once it has seen more than `max_modifications`
    /// modifications: the entries are ranked by score, highest first, and
    /// cut to `max_count`, and the counter starts again from zero. The
    /// result says whether that happened; the caller then applies the
    /// decay function to the scores and records the new epoch.
    pub fn compact(&mut self, max_modifications: u64, max_count: u32) -> (r: bool)
        requires
            old(self).wf(),
        ensures
            final(self).wf(),
            r == (old(self).nmods > max_modifications),
            !r ==> *final(self) == *old(self),
            r ==> ranked_prefix(old(self).items@, final(self).items@, max_count as nat),
            r ==> final(self).items@.len() <= max_count,
            r ==> final(self).nmods == 0,
            final(self).epoch == old(self).epoch,
    {
        if self.nmods > max_modifications {
            self.items = self.ranked(max_count as usize);
            self.nmods = 0;
            true
        } else {
            false
        }
    }
}

/// Milliseconds from a list's epoch to `now`; a full day for a list that
/// has no epoch yet, zero where `now` lies before the epoch.
pub fn elapsed_since(epoch: u128, now: u128) -> (r: u128)
    ensures
        epoch == 0 ==> r == DAY_MILLIS,
        epoch != 0 && now >= epoch ==> r == now - epoch,
        epoch != 0 && now < epoch ==> r == 0,
{
    if epoch == 0 {
        DAY_MILLIS
    } else if now >= epoch {
        now - epoch
    } else {
        0
    }
}

} // verus!
