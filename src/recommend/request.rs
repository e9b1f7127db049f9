//! Candidate selection for a recommendation request.
use crate::learn::vector::Scalar;
use crate::storage::models::example::{
    bare_model, model, with_position, BasicExample, ExampleModel, ListKind, ListPosition,
};
use crate::storage::users::take_at_most;
use rand::Rng;
use vstd::prelude::*;

verus! {

/// Relies on rand's `Rng::gen_range(low, high)` on the thread-local
/// generator: a value drawn from `low..high`; it panics where
/// `low >= high`, which `requires` leaves out.
#[verifier::external_body]
fn random_in(low: usize, high: usize) -> (r: usize)
    requires
        low < high,
    ensures
        low <= r < high,
{
    rand::thread_rng().gen_range(low, high)
}

/// The exploratory swap: where `upgrade` is set and there are more
/// examples than `max`, one example from past the first `max` trades
/// places with one of the first `max`, both picked at random. Otherwise
/// (and where `max` is zero, as there is no place to trade with) the
/// examples stay as they are.
pub fn resort_examples<T: Copy>(examples: &mut Vec<T>, max: usize, upgrade: bool)
    ensures
        !upgrade || max == 0 || max >= old(examples)@.len() ==> final(examples)@ == old(
            examples,
        )@,
        upgrade && 0 < max < old(examples)@.len() ==> exists|from: int, to: int|
            max <= from < old(examples)@.len() && 0 <= to < max && final(examples)@ == old(
                examples,
            )@.update(to, old(examples)@[from]).update(from, old(examples)@[to]),
{
    if max >= examples.len() || max == 0 || !upgrade {
        return;
    }
    let from = random_in(max, examples.len());
    let to = random_in(0, max);
    let a = examples[to];
    let b = examples[from];
    examples.set(to, b);
    examples.set(from, a);
}

/// Hands out the entries of a list in batches of `size`; the last batch
/// may be shorter. A size of zero gives empty batches without end.
pub struct BufIter<T> {
    items: Vec<T>,
    size: usize,
    next: usize,
}

impl<T: Copy> BufIter<T> {
    pub closed spec fn items(&self) -> Seq<T> {
        self.items@
    }

    pub closed spec fn size(&self) -> nat {
        self.size as nat
    }

    /// Index of the first entry not handed out yet.
    pub closed spec fn position(&self) -> nat {
        self.next as nat
    }

    pub fn new(items: Vec<T>, size: usize) -> (r: BufIter<T>)
        ensures
            r.items() == items@,
            r.size() == size,
            r.position() == 0,
    {
        BufIter { items, size, next: 0 }
    }

    /// The next batch, or `None` once every entry was handed out.
    pub fn next_batch(&mut self) -> (r: Option<Vec<T>>)
        ensures
            final(self).items() == old(self).items(),
            final(self).size() == old(self).size(),
            old(self).position() <= old(self).items().len() ==> final(self).position()
                <= final(self).items().len(),
            old(self).size() == 0 ==> r is Some && r->Some_0@.len() == 0,
            old(self).size() == 0 ==> final(self).position() == old(self).position(),
            old(self).size() > 0 && old(self).position() >= old(self).items().len() ==> r is None
                && final(self).position() == old(self).position(),
            old(self).size() > 0 && old(self).position() < old(self).items().len() ==> {
                let end = if old(self).position() + old(self).size() < old(self).items().len() {
                    (old(self).position() + old(self).size()) as int
                } else {
                    old(self).items().len() as int
                };
                &&& r is Some
                &&& r->Some_0@ == old(self).items().subrange(old(self).position() as int, end)
                &&& final(self).position() == end
            },
    {
        if self.size == 0 {
            return Some(Vec::new());
        }
        if self.next >= self.items.len() {
            return None;
        }
        let end = if self.items.len() - self.next > self.size {
            self.next + self.size
        } else {
            self.items.len()
        };
        let mut batch: Vec<T> = Vec::new();
        let start = self.next;
        let mut i = start;
        while i < end
            invariant
                start <= i <= end <= self.items@.len(),
                batch@ == self.items@.subrange(start as int, i as int),
            decreases end - i,
        {
            batch.push(self.items[i]);
            i = i + 1;
            assert(batch@ =~= self.items@.subrange(start as int, i as int));
        }
        self.next = end;
        Some(batch)
    }
}

pub open spec fn table_model(t: Seq<BasicExample>) -> Seq<ExampleModel> {
    t.map_values(|e: BasicExample| model(e))
}

/// Each item stands in the table at most once.
pub open spec fn ids_distinct(t: Seq<ExampleModel>) -> bool {
    forall|i: int, j: int| 0 <= i < j < t.len() ==> t[i].0 != t[j].0
}

/// The table `t` after the position `pos` of `id` in list `kind` is
/// recorded: merged into the entry of `id`, or into a new entry where
/// there is room for one (at most `max` entries), or dropped.
pub open spec fn table_apply(
    t: Seq<ExampleModel>,
    max: nat,
    id: u128,
    kind: ListKind,
    pos: ListPosition,
) -> Seq<ExampleModel> {
    if exists|i: int| 0 <= i < t.len() && t[i].0 == id {
        let i = choose|i: int| 0 <= i < t.len() && t[i].0 == id;
        t.update(i, with_position(t[i], kind, pos))
    } else if t.len() < max {
        t.push(with_position(bare_model(id), kind, pos))
    } else {
        t
    }
}

/// The table `t` after every entry of a list of kind `kind` is recorded,
/// the `i`-th at rank `i`.
pub open spec fn apply_list(
    t: Seq<ExampleModel>,
    max: nat,
    kind: ListKind,
    entries: Seq<(u128, Scalar)>,
) -> Seq<ExampleModel>
    decreases entries.len(),
{
    if entries.len() == 0 {
        t
    } else {
        table_apply(
            apply_list(t, max, kind, entries.drop_last()),
            max,
            entries.last().0,
            kind,
            ListPosition { value: entries.last().1, rank: (entries.len() - 1) as u64 },
        )
    }
}

/// The table `t` after each of `lists` is recorded, in order.
pub open spec fn apply_lists(
    t: Seq<ExampleModel>,
    max: nat,
    lists: Seq<(ListKind, Vec<(u128, Scalar)>)>,
) -> Seq<ExampleModel>
    decreases lists.len(),
{
    if lists.len() == 0 {
        t
    } else {
        apply_list(
            apply_lists(t, max, lists.drop_last()),
            max,
            lists.last().0,
            lists.last().1@,
        )
    }
}

/// A table of candidates keyed by item, bounded in size.
pub struct CandidateList {
    entries: Vec<BasicExample>,
    max: usize,
}

impl CandidateList {
    pub closed spec fn max_len(&self) -> nat {
        self.max as nat
    }

    pub closed spec fn table(&self) -> Seq<ExampleModel> {
        table_model(self.entries@)
    }

    pub closed spec fn wf(&self) -> bool {
        ids_distinct(table_model(self.entries@))
    }

    /// An empty table that takes at most `max` items.
    pub fn new(max: usize) -> (r: CandidateList)
        ensures
            r.wf(),
            r.max_len() == max,
            r.table() == Seq::<ExampleModel>::empty(),
    {
        let r = CandidateList { entries: Vec::new(), max };
        assert(table_model(r.entries@) =~= Seq::<ExampleModel>::empty());
        r
    }

    /// Records the position `pos` of `id` in list `kind`.
    pub fn mutate(&mut self, id: u128, kind: ListKind, pos: ListPosition)
        requires
            old(self).wf(),
        ensures
            final(self).wf(),
            final(self).max_len() == old(self).max_len(),
            final(self).table() == table_apply(old(self).table(), old(self).max_len(), id, kind, pos),
    {
        let ghost t = table_model(self.entries@);
        let mut i: usize = 0;
        while i < self.entries.len()
            invariant
                i <= self.entries@.len(),
                self.entries@ == old(self).entries@,
                self.max == old(self).max,
                ids_distinct(t),
                t == table_model(self.entries@),
                forall|j: int| 0 <= j < i ==> self.entries@[j].id != id,
            decreases self.entries@.len() - i,
        {
            if self.entries[i].id == id {
                let mut e = self.entries[i];
                e.with_position(kind, pos);
                self.entries.set(i, e);
                proof {
                    assert(t[i as int].0 == id);
                    let c = choose|c: int| 0 <= c < t.len() && t[c].0 == id;
                    assert(c == i);
                    assert(table_model(self.entries@) =~= t.update(i as int, with_position(t[i as int], kind, pos)));
                    assert(ids_distinct(table_model(self.entries@))) by {
                        assert forall|a: int, b: int| 0 <= a < b < t.len() implies table_model(self.entries@)[a].0 != table_model(self.entries@)[b].0 by {
                            assert(table_model(self.entries@)[a].0 == t[a].0);
                            assert(table_model(self.entries@)[b].0 == t[b].0);
                        }
                    }
                }
                return;
            }
            i = i + 1;
        }
        proof {
            assert(!exists|c: int| 0 <= c < t.len() && t[c].0 == id) by {
                if exists|c: int| 0 <= c < t.len() && t[c].0 == id {
                    let c = choose|c: int| 0 <= c < t.len() && t[c].0 == id;
                    assert(self.entries@[c].id == id);
                }
            }
        }
        if self.entries.len() < self.max {
            let mut e = BasicExample::new(id);
            e.with_position(kind, pos);
            self.entries.push(e);
            assert(table_model(self.entries@) =~= t.push(with_position(bare_model(id), kind, pos)));
            assert(ids_distinct(table_model(self.entries@))) by {
                assert forall|a: int, b: int| 0 <= a < b < table_model(self.entries@).len() implies table_model(self.entries@)[a].0 != table_model(self.entries@)[b].0 by {
                    if b == t.len() {
                        assert(self.entries@[a].id != id);
                    }
                }
            }
        }
    }

    /// The table's entries, in the order in which they were added.
    pub fn into_inner(self) -> (r: Vec<BasicExample>)
        ensures
            table_model(r@) == self.table(),
    {
        self.entries
    }

    /// Records every entry of `entries`, a list of kind `kind`, the `i`-th
    /// at rank `i`.
    pub fn record_list(&mut self, kind: ListKind, entries: &Vec<(u128, Scalar)>)
        requires
            old(self).wf(),
        ensures
            final(self).wf(),
            final(self).max_len() == old(self).max_len(),
            final(self).table() == apply_list(old(self).table(), old(self).max_len(), kind, entries@),
    {
        let ghost t0 = self.table();
        let mut i: usize = 0;
        while i < entries.len()
            invariant
                self.wf(),
                self.max_len() == old(self).max_len(),
                t0 == old(self).table(),
                i <= entries@.len(),
                self.table() == apply_list(t0, self.max_len(), kind, entries@.take(i as int)),
            decreases entries@.len() - i,
        {
            let (id, value) = entries[i];
            self.mutate(id, kind, ListPosition { value, rank: i as u64 });
            proof {
                let next = entries@.take(i as int + 1);
                assert(next.drop_last() =~= entries@.take(i as int));
                assert(next.last() == entries@[i as int]);
            }
            i = i + 1;
        }
        assert(entries@.take(entries@.len() as int) =~= entries@);
    }
}

/// Bare examples of the first `n` of `ids`.
pub open spec fn bare_table(ids: Seq<u128>) -> Seq<ExampleModel> {
    ids.map_values(|id: u128| bare_model(id))
}

/// A recommendation request.
#[derive(Debug, Clone)]
pub struct Request {
    pub part: String,
    pub user: u128,
    pub current: u128,
    pub whitelist: Option<Vec<u128>>,
    pub count: usize,
}

impl Request {
    /// The candidates of this request, at most `max` of them. With a
    /// whitelist, its first `max` items as bare examples. Otherwise the
    /// positions of `lists` (the near list of the current item, then the
    /// top and popular lists of each scope) are gathered into a table of at
    /// most `2 * max` items, and its first `max` entries are taken.
    pub fn candidates(&self, max: usize, lists: &Vec<(ListKind, Vec<(u128, Scalar)>)>) -> (r: Vec<
        BasicExample,
    >)
        requires
            max <= usize::MAX / 2,
        ensures
            self.whitelist is Some ==> table_model(r@) == take_at_most(
                bare_table(self.whitelist->Some_0@),
                max as nat,
            ),
            self.whitelist is None ==> table_model(r@) == take_at_most(
                apply_lists(Seq::empty(), 2 * max as nat, lists@),
                max as nat,
            ),
            r@.len() <= max,
    {
        match &self.whitelist {
            Some(list) => {
                let mut r: Vec<BasicExample> = Vec::new();
                let mut i: usize = 0;
                while i < list.len() && i < max
                    invariant
                        i <= list@.len(),
                        i <= max,
                        table_model(r@) == bare_table(list@).take(i as int),
                    decreases list@.len() - i,
                {
                    let ghost before = r@;
                    let e = BasicExample::new(list[i]);
                    r.push(e);
                    proof {
                        assert(r@ == before.push(e));
                        assert(table_model(r@) =~= table_model(before).push(model(e)));
                        assert(bare_table(list@).take(i as int + 1) =~= bare_table(list@).take(i as int).push(bare_model(list@[i as int])));
                    }
                    i = i + 1;
                }
                assert(i == list@.len() ==> bare_table(list@).take(i as int) =~= bare_table(list@));
                r
            },
            None => {
                let mut table = CandidateList::new(max * 2);
                let mut k: usize = 0;
                while k < lists.len()
                    invariant
                        table.wf(),
                        table.max_len() == 2 * max,
                        k <= lists@.len(),
                        table.table() == apply_lists(Seq::empty(), 2 * max as nat, lists@.take(k as int)),
                    decreases lists@.len() - k,
                {
                    table.record_list(lists[k].0, &lists[k].1);
                    proof {
                        let next = lists@.take(k as int + 1);
                        assert(next.drop_last() =~= lists@.take(k as int));
                        assert(next.last() == lists@[k as int]);
                    }
                    k = k + 1;
                }
                assert(lists@.take(lists@.len() as int) =~= lists@);
                let mut r = table.into_inner();
                r.truncate(max);
                proof {
                    let full = apply_lists(Seq::empty(), 2 * max as nat, lists@);
                    if max < full.len() {
                        assert(table_model(r@) =~= full.take(max as int));
                    } else {
                        assert(table_model(r@) =~= full);
                    }
                }
                r
            },
        }
    }
}

} // verus!
