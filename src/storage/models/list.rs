//! A named sparse feature vector: feature name to value, with zero as
//! the value of every name that is not present.
use crate::learn::vector::{Scalar, Vector, ZERO};
use vstd::prelude::*;

verus! {

/// The names of `entries` are pairwise distinct.
pub open spec fn distinct_names(entries: Seq<(String, Scalar)>) -> bool {
    forall|i: int, j: int|
        0 <= i < j < entries.len() ==> entries[i].0@ != entries[j].0@
}

/// The mapping that `entries` spell out.
pub open spec fn entries_map(entries: Seq<(String, Scalar)>) -> Map<Seq<char>, Scalar>
    decreases entries.len(),
{
    if entries.len() == 0 {
        Map::empty()
    } else {
        entries_map(entries.drop_last()).insert(entries.last().0@, entries.last().1)
    }
}

/// The value of `k` in `m`, zero where `m` has none.
pub open spec fn value_or_zero(m: Map<Seq<char>, Scalar>, k: Seq<char>) -> Scalar {
    if m.contains_key(k) {
        m[k]
    } else {
        ZERO
    }
}

proof fn lemma_entries_map(entries: Seq<(String, Scalar)>)
    requires
        distinct_names(entries),
    ensures
        forall|k: Seq<char>|
            #[trigger] entries_map(entries).contains_key(k) <==> exists|i: int|
                0 <= i < entries.len() && entries[i].0@ == k,
        forall|i: int|
            0 <= i < entries.len() ==> #[trigger] entries_map(entries)[entries[i].0@]
                == entries[i].1,
        entries_map(entries).dom().finite(),
        entries_map(entries).dom().len() == entries.len(),
    decreases entries.len(),
{
    if entries.len() > 0 {
        let init = entries.drop_last();
        assert(distinct_names(init));
        lemma_entries_map(init);
        let last = entries.last();
        assert forall|k: Seq<char>|
            #[trigger] entries_map(entries).contains_key(k) <==> exists|i: int|
                0 <= i < entries.len() && entries[i].0@ == k by {
            if entries_map(entries).contains_key(k) && k != last.0@ {
                let i = choose|i: int| 0 <= i < init.len() && init[i].0@ == k;
                assert(entries[i].0@ == k);
            }
            if exists|i: int| 0 <= i < entries.len() && entries[i].0@ == k {
                let i = choose|i: int| 0 <= i < entries.len() && entries[i].0@ == k;
                if i < entries.len() - 1 {
                    assert(init[i].0@ == k);
                }
            }
        }
        assert forall|i: int| 0 <= i < entries.len() implies #[trigger] entries_map(
            entries,
        )[entries[i].0@] == entries[i].1 by {
            if i < entries.len() - 1 {
                assert(init[i] == entries[i]);
                assert(entries[i].0@ != last.0@);
            }
        }
        assert(!entries_map(init).contains_key(last.0@)) by {
            if entries_map(init).contains_key(last.0@) {
                let i = choose|i: int| 0 <= i < init.len() && init[i].0@ == last.0@;
                assert(entries[i].0@ == entries[entries.len() - 1].0@);
            }
        }
    }
}

#[derive(Debug, Clone)]
pub struct FeatureList {
    entries: Vec<(String, Scalar)>,
}

impl View for FeatureList {
    type V = Map<Seq<char>, Scalar>;

    closed spec fn view(&self) -> Map<Seq<char>, Scalar> {
        entries_map(self.entries@)
    }
}

impl FeatureList {
    /// The list holds each name once.
    pub closed spec fn wf(&self) -> bool {
        distinct_names(self.entries@)
    }

    /// Index of the entry named `name`, if there is one.
    fn position(&self, name: &String) -> (r: Option<usize>)
        requires
            self.wf(),
        ensures
            match r {
                Some(i) => i < self.entries@.len() && self.entries@[i as int].0@ == name@,
                None => forall|i: int|
                    0 <= i < self.entries@.len() ==> self.entries@[i].0@ != name@,
            },
    {
        let mut i: usize = 0;
        while i < self.entries.len()
            invariant
                i <= self.entries@.len(),
                forall|j: int| 0 <= j < i ==> self.entries@[j].0@ != name@,
            decreases self.entries@.len() - i,
        {
            if self.entries[i].0 == *name {
                return Some(i);
            }
            i = i + 1;
        }
        None
    }

    pub fn new() -> (r: FeatureList)
        ensures
            r.wf(),
            r@ == Map::<Seq<char>, Scalar>::empty(),
    {
        FeatureList { entries: Vec::new() }
    }

    pub fn len(&self) -> (r: usize)
        requires
            self.wf(),
        ensures
            r == self@.dom().len(),
    {
        proof {
            lemma_entries_map(self.entries@);
        }
        self.entries.len()
    }

    /// The value of `name`, if the list has one.
    pub fn get(&self, name: &String) -> (r: Option<Scalar>)
        requires
            self.wf(),
        ensures
            r == if self@.contains_key(name@) {
                Some(self@[name@])
            } else {
                None::<Scalar>
            },
    {
        proof {
            lemma_entries_map(self.entries@);
        }
        match self.position(name) {
            Some(i) => Some(self.entries[i].1),
            None => None,
        }
    }

    /// Sets `name` to `value`, replacing any value it had.
    pub fn insert(&mut self, name: String, value: Scalar)
        requires
            old(self).wf(),
        ensures
            final(self).wf(),
            final(self)@ == old(self)@.insert(name@, value),
    {
        proof {
            lemma_entries_map(self.entries@);
        }
        match self.position(&name) {
            Some(i) => {
                let ghost prev = self.entries@;
                self.entries.set(i, (name, value));
                proof {
                    lemma_set_entry(prev, i as int, self.entries@[i as int]);
                    assert(self.entries@ == prev.update(i as int, self.entries@[i as int]));
                }
            },
            None => {
                let ghost prev = self.entries@;
                self.entries.push((name, value));
                proof {
                    assert(self.entries@.drop_last() =~= prev);
                }
            },
        }
    }

    /// Gives `name` the value zero unless it already has a value.
    pub fn ensure_has(&mut self, name: &String)
        requires
            old(self).wf(),
        ensures
            final(self).wf(),
            final(self)@ == if old(self)@.contains_key(name@) {
                old(self)@
            } else {
                old(self)@.insert(name@, ZERO)
            },
    {
        proof {
            lemma_entries_map(self.entries@);
        }
        if self.position(name).is_none() {
            let ghost prev = self.entries@;
            self.entries.push((name.clone(), ZERO));
            proof {
                assert(self.entries@.drop_last() =~= prev);
            }
        }
    }

    /// The value of `name`, zero where the list has none.
    pub fn value_of(&self, name: &String) -> (r: Scalar)
        requires
            self.wf(),
        ensures
            r == value_or_zero(self@, name@),
    {
        match self.get(name) {
            Some(v) => v,
            None => ZERO,
        }
    }

    /// The projection onto `required`: entry `i` is the value of the
    /// `i`-th name, zero for a name that the list does not hold.
    pub fn to_vector(&self, required: &Vec<String>) -> (r: Vector)
        requires
            self.wf(),
        ensures
            r@.len() == required@.len(),
            forall|i: int| 0 <= i < required@.len() ==> r@[i] == value_or_zero(self@, required@[i]@),
    {
        let mut out: Vec<Scalar> = Vec::new();
        let mut i: usize = 0;
        while i < required.len()
            invariant
                self.wf(),
                i <= required@.len(),
                out@.len() == i,
                forall|j: int| 0 <= j < i ==> out@[j] == value_or_zero(self@, required@[j]@),
            decreases required@.len() - i,
        {
            out.push(self.value_of(&required[i]));
            i = i + 1;
        }
        Vector::from_vec(out)
    }

    /// The names held by both lists, each once, with the value in this
    /// list and the value in `other`.
    pub fn combine(&self, other: &FeatureList) -> (r: Vec<(String, Scalar, Scalar)>)
        requires
            self.wf(),
            other.wf(),
        ensures
            triple_names_distinct(r@),
            triple_names(r@) == self@.dom().intersect(other@.dom()),
            forall|i: int|
                0 <= i < r@.len() ==> r@[i].1 == self@[r@[i].0@] && r@[i].2 == other@[r@[i].0@],
    {
        let mut r: Vec<(String, Scalar, Scalar)> = Vec::new();
        let mut i: usize = 0;
        while i < self.entries.len()
            invariant
                self.wf(),
                other.wf(),
                i <= self.entries@.len(),
                triple_names_distinct(r@),
                forall|j: int| 0 <= j < r@.len() ==> name_in(self.entries@, i as int, #[trigger] r@[j].0@),
                forall|m: int| 0 <= m < i && other@.contains_key(#[trigger] self.entries@[m].0@)
                    ==> triple_names(r@).contains(self.entries@[m].0@),
                forall|j: int| 0 <= j < r@.len() ==> other@.contains_key(#[trigger] r@[j].0@),
                forall|j: int|
                    0 <= j < r@.len() ==> r@[j].1 == self@[r@[j].0@] && r@[j].2 == other@[r@[j].0@],
            decreases self.entries@.len() - i,
        {
            proof {
                lemma_entries_map(self.entries@);
            }
            let name = &self.entries[i].0;
            match other.get(name) {
                Some(o) => {
                    let ghost prev = r@;
                    proof {
                        assert forall|j: int| 0 <= j < r@.len() implies r@[j].0@ != name@ by {
                            assert(name_in(self.entries@, i as int, r@[j].0@));
                            let m = choose|m: int| 0 <= m < i && self.entries@[m].0@ == r@[j].0@;
                        }
                    }
                    r.push((name.clone(), self.entries[i].1, o));
                    proof {
                        assert(self@[self.entries@[i as int].0@] == self.entries@[i as int].1);
                        assert forall|j: int| 0 <= j < r@.len() implies r@[j].1 == self@[r@[j].0@] && r@[j].2 == other@[r@[j].0@] by {
                            if j < prev.len() {
                                assert(prev[j] == r@[j]);
                            }
                        }
                        assert forall|j: int| 0 <= j < r@.len() implies name_in(self.entries@, i + 1, #[trigger] r@[j].0@) by {
                            if j < prev.len() {
                                assert(prev[j] == r@[j]);
                                assert(name_in(self.entries@, i as int, prev[j].0@));
                                let m = choose|m: int| 0 <= m < i && self.entries@[m].0@ == prev[j].0@;
                            } else {
                                assert(self.entries@[i as int].0@ == r@[j].0@);
                            }
                        }
                        assert forall|m: int| 0 <= m < i + 1 && other@.contains_key(#[trigger] self.entries@[m].0@)
                            implies triple_names(r@).contains(self.entries@[m].0@) by {
                            if m < i {
                                assert(triple_names(prev).contains(self.entries@[m].0@));
                                let j = choose|j: int| 0 <= j < prev.len() && prev[j].0@ == self.entries@[m].0@;
                                assert(r@[j] == prev[j]);
                            } else {
                                assert(r@[prev.len() as int].0@ == self.entries@[m].0@);
                            }
                        }
                    }
                },
                None => {
                    proof {
                        assert forall|j: int| 0 <= j < r@.len() implies name_in(self.entries@, i + 1, #[trigger] r@[j].0@) by {
                            assert(name_in(self.entries@, i as int, r@[j].0@));
                            let m = choose|m: int| 0 <= m < i && self.entries@[m].0@ == r@[j].0@;
                        }
                    }
                },
            }
            i = i + 1;
        }
        proof {
            lemma_entries_map(self.entries@);
            assert forall|k: Seq<char>| #[trigger] triple_names(r@).contains(k) <==> self@.dom().intersect(other@.dom()).contains(k) by {
                if triple_names(r@).contains(k) {
                    let j = choose|j: int| 0 <= j < r@.len() && r@[j].0@ == k;
                    assert(name_in(self.entries@, i as int, r@[j].0@));
                    let m = choose|m: int| 0 <= m < i && self.entries@[m].0@ == r@[j].0@;
                    assert(other@.contains_key(r@[j].0@));
                }
                if self@.contains_key(k) && other@.contains_key(k) {
                    let m = choose|m: int| 0 <= m < self.entries@.len() && self.entries@[m].0@ == k;
                }
            }
            assert(triple_names(r@) =~= self@.dom().intersect(other@.dom()));
        }
        r
    }

    /// Every name of either list, each once, with its value in this list
    /// and its value in `other`, zero where a list does not hold it.
    pub fn union(&self, other: &FeatureList) -> (r: Vec<(String, Scalar, Scalar)>)
        requires
            self.wf(),
            other.wf(),
        ensures
            triple_names_distinct(r@),
            triple_names(r@) == self@.dom().union(other@.dom()),
            forall|i: int|
                0 <= i < r@.len() ==> r@[i].1 == value_or_zero(self@, r@[i].0@) && r@[i].2
                    == value_or_zero(other@, r@[i].0@),
    {
        let mut r: Vec<(String, Scalar, Scalar)> = Vec::new();
        let mut i: usize = 0;
        while i < self.entries.len()
            invariant
                self.wf(),
                other.wf(),
                i <= self.entries@.len(),
                r@.len() == i,
                forall|j: int| 0 <= j < i ==> #[trigger] r@[j].0@ == self.entries@[j].0@,
                forall|j: int|
                    0 <= j < r@.len() ==> r@[j].1 == value_or_zero(self@, r@[j].0@) && r@[j].2
                        == value_or_zero(other@, r@[j].0@),
            decreases self.entries@.len() - i,
        {
            proof {
                lemma_entries_map(self.entries@);
            }
            let name = &self.entries[i].0;
            r.push((name.clone(), self.entries[i].1, other.value_of(name)));
            i = i + 1;
        }
        proof {
            lemma_entries_map(self.entries@);
            assert forall|j: int| 0 <= j < self.entries@.len() implies triple_names(r@).contains(#[trigger] self.entries@[j].0@) by {
                assert(r@[j].0@ == self.entries@[j].0@);
            }
        }
        let mut i: usize = 0;
        while i < other.entries.len()
            invariant
                self.wf(),
                other.wf(),
                i <= other.entries@.len(),
                triple_names_distinct(r@),
                forall|j: int| 0 <= j < self.entries@.len() ==> triple_names(r@).contains(#[trigger] self.entries@[j].0@),
                forall|j: int| 0 <= j < i && !self@.contains_key(#[trigger] other.entries@[j].0@)
                    ==> triple_names(r@).contains(other.entries@[j].0@),
                forall|m: int| 0 <= m < r@.len() ==> self@.contains_key(#[trigger] r@[m].0@) || name_in(other.entries@, i as int, r@[m].0@),
                forall|j: int|
                    0 <= j < r@.len() ==> r@[j].1 == value_or_zero(self@, r@[j].0@) && r@[j].2
                        == value_or_zero(other@, r@[j].0@),
            decreases other.entries@.len() - i,
        {
            proof {
                lemma_entries_map(self.entries@);
                lemma_entries_map(other.entries@);
            }
            let name = &other.entries[i].0;
            let ghost prev = r@;
            if self.get(name).is_none() {
                proof {
                    assert forall|m: int| 0 <= m < r@.len() implies r@[m].0@ != name@ by {
                        if !self@.contains_key(r@[m].0@) {
                            assert(name_in(other.entries@, i as int, r@[m].0@));
                            let j = choose|j: int| 0 <= j < i && other.entries@[j].0@ == r@[m].0@;
                            assert(other.entries@[j].0@ != other.entries@[i as int].0@);
                        }
                    }
                }
                r.push((name.clone(), ZERO, other.entries[i].1));
                proof {
                    assert(other@[other.entries@[i as int].0@] == other.entries@[i as int].1);
                    assert forall|j: int| 0 <= j < r@.len() implies r@[j].1 == value_or_zero(self@, r@[j].0@) && r@[j].2
                        == value_or_zero(other@, r@[j].0@) by {
                        if j < prev.len() {
                            assert(prev[j] == r@[j]);
                        }
                    }
                    assert forall|j: int| 0 <= j < self.entries@.len() implies triple_names(r@).contains(#[trigger] self.entries@[j].0@) by {
                        assert(triple_names(prev).contains(self.entries@[j].0@));
                        let m = choose|m: int| 0 <= m < prev.len() && prev[m].0@ == self.entries@[j].0@;
                        assert(r@[m] == prev[m]);
                    }
                    assert forall|j: int| 0 <= j < i + 1 && !self@.contains_key(#[trigger] other.entries@[j].0@)
                        implies triple_names(r@).contains(other.entries@[j].0@) by {
                        if j < i {
                            assert(triple_names(prev).contains(other.entries@[j].0@));
                            let m = choose|m: int| 0 <= m < prev.len() && prev[m].0@ == other.entries@[j].0@;
                            assert(r@[m] == prev[m]);
                        } else {
                            assert(r@[prev.len() as int].0@ == other.entries@[j].0@);
                        }
                    }
                }
            }
            proof {
                assert forall|m: int| 0 <= m < r@.len() implies self@.contains_key(#[trigger] r@[m].0@) || name_in(other.entries@, i + 1, r@[m].0@) by {
                    if m < prev.len() {
                        assert(r@[m] == prev[m]);
                        if !self@.contains_key(r@[m].0@) {
                            assert(name_in(other.entries@, i as int, prev[m].0@));
                            let j = choose|j: int| 0 <= j < i && other.entries@[j].0@ == prev[m].0@;
                        }
                    } else {
                        assert(other.entries@[i as int].0@ == r@[m].0@);
                    }
                }
            }
            i = i + 1;
        }
        proof {
            lemma_entries_map(self.entries@);
            lemma_entries_map(other.entries@);
            assert forall|k: Seq<char>| #[trigger] triple_names(r@).contains(k) <==> self@.dom().union(other@.dom()).contains(k) by {
                if triple_names(r@).contains(k) {
                    let m = choose|m: int| 0 <= m < r@.len() && r@[m].0@ == k;
                    if !self@.contains_key(r@[m].0@) {
                        assert(name_in(other.entries@, i as int, r@[m].0@));
                        let j = choose|j: int| 0 <= j < i && other.entries@[j].0@ == r@[m].0@;
                    }
                }
                if self@.contains_key(k) {
                    let j = choose|j: int| 0 <= j < self.entries@.len() && self.entries@[j].0@ == k;
                    assert(triple_names(r@).contains(self.entries@[j].0@));
                } else if other@.contains_key(k) {
                    let j = choose|j: int| 0 <= j < other.entries@.len() && other.entries@[j].0@ == k;
                    assert(triple_names(r@).contains(other.entries@[j].0@));
                }
            }
            assert(triple_names(r@) =~= self@.dom().union(other@.dom()));
        }
        r
    }

    /// The names in the list, each once.
    pub fn keys(&self) -> (r: Vec<String>)
        requires
            self.wf(),
        ensures
            r@.len() == self@.dom().len(),
            forall|i: int, j: int| 0 <= i < j < r@.len() ==> r@[i]@ != r@[j]@,
            forall|k: Seq<char>|
                self@.contains_key(k) <==> exists|i: int| 0 <= i < r@.len() && r@[i]@ == k,
    {
        proof {
            lemma_entries_map(self.entries@);
        }
        let mut r: Vec<String> = Vec::new();
        let mut i: usize = 0;
        while i < self.entries.len()
            invariant
                self.wf(),
                i <= self.entries@.len(),
                r@.len() == i,
                forall|j: int| 0 <= j < i ==> r@[j]@ == self.entries@[j].0@,
            decreases self.entries@.len() - i,
        {
            r.push(self.entries[i].0.clone());
            i = i + 1;
        }
        proof {
            assert forall|k: Seq<char>|
                self@.contains_key(k) <== exists|i: int| 0 <= i < r@.len() && r@[i]@ == k by {
                if exists|i: int| 0 <= i < r@.len() && r@[i]@ == k {
                    let i = choose|i: int| 0 <= i < r@.len() && r@[i]@ == k;
                    assert(self.entries@[i].0@ == k);
                }
            }
            assert forall|k: Seq<char>|
                self@.contains_key(k) implies exists|i: int| 0 <= i < r@.len() && r@[i]@ == k by {
                let i = choose|i: int| 0 <= i < self.entries@.len() && self.entries@[i].0@ == k;
                assert(r@[i]@ == k);
            }
        }
        r
    }
}

/// The names of `entries` are pairwise distinct.
pub open spec fn triple_names_distinct(entries: Seq<(String, Scalar, Scalar)>) -> bool {
    forall|i: int, j: int|
        0 <= i < j < entries.len() ==> entries[i].0@ != entries[j].0@
}

/// One of the first `n` of `entries` is named `k`.
pub open spec fn name_in(entries: Seq<(String, Scalar)>, n: int, k: Seq<char>) -> bool {
    exists|m: int| 0 <= m < n && entries[m].0@ == k
}

/// The names that `entries` hold.
pub open spec fn triple_names(entries: Seq<(String, Scalar, Scalar)>) -> Set<Seq<char>> {
    Set::new(|k: Seq<char>| exists|i: int| 0 <= i < entries.len() && entries[i].0@ == k)
}

proof fn lemma_set_entry(entries: Seq<(String, Scalar)>, i: int, e: (String, Scalar))
    requires
        distinct_names(entries),
        0 <= i < entries.len(),
        e.0@ == entries[i].0@,
    ensures
        distinct_names(entries.update(i, e)),
        entries_map(entries.update(i, e)) == entries_map(entries).insert(e.0@, e.1),
    decreases entries.len(),
{
    let new = entries.update(i, e);
    assert(distinct_names(new));
    if i < entries.len() - 1 {
        assert(distinct_names(entries.drop_last()));
        lemma_set_entry(entries.drop_last(), i, e);
        assert(new.drop_last() =~= entries.drop_last().update(i, e));
        assert(entries[i].0@ != entries.last().0@);
        assert(entries_map(new) =~= entries_map(entries).insert(e.0@, e.1));
    } else {
        assert(new.drop_last() =~= entries.drop_last());
        assert(entries_map(new) =~= entries_map(entries).insert(e.0@, e.1));
    }
}

} // verus!
