//! Per-partition configuration and the names and counts of the features
//! an example is described by.
use crate::storage::items::scope::{scope_name, TimeScope};
use crate::storage::models::example::ListKind;
use vstd::prelude::*;
use vstd::string::StringExecFns;

verus! {

/// Candidates gathered for a request, by default.
pub fn max_candidate_count() -> (r: usize)
    ensures
        r == 256,
{
    256
}

/// What a metadata key contributes to the features.
#[derive(Debug, Clone, Copy, PartialEq, Eq, Structural)]
pub enum MetaFeature {
    Ignore,
    Overlap,
}

impl Default for MetaFeature {
    fn default() -> (r: MetaFeature)
        ensures
            r == MetaFeature::Ignore,
    {
        MetaFeature::Ignore
    }
}

pub open spec fn string_views(s: Seq<String>) -> Seq<Seq<char>> {
    s.map_values(|x: String| x@)
}

/// The kind configured for metadata key `k`: the first entry from `i` on
/// that names it.
pub open spec fn kind_from(cfg: Seq<(String, MetaFeature)>, k: Seq<char>, i: int) -> Option<
    MetaFeature,
>
    decreases cfg.len() - i,
{
    if i < 0 || i >= cfg.len() {
        None
    } else if cfg[i].0@ == k {
        Some(cfg[i].1)
    } else {
        kind_from(cfg, k, i + 1)
    }
}

/// The tags under metadata key `k`: those of the first entry from `i` on
/// that names it, none where no entry does.
pub open spec fn tags_from(meta: Seq<(String, Vec<String>)>, k: Seq<char>, i: int) -> Seq<
    Seq<char>,
>
    decreases meta.len() - i,
{
    if i < 0 || i >= meta.len() {
        Seq::empty()
    } else if meta[i].0@ == k {
        string_views(meta[i].1@)
    } else {
        tags_from(meta, k, i + 1)
    }
}

/// How many entries of `a` also occur in `b`.
pub open spec fn common_count(a: Seq<Seq<char>>, b: Seq<Seq<char>>) -> nat
    decreases a.len(),
{
    if a.len() == 0 {
        0
    } else {
        common_count(a.drop_last(), b) + if b.contains(a.last()) {
            1nat
        } else {
            0nat
        }
    }
}

pub open spec fn meta_name(k: Seq<char>) -> Seq<char> {
    "meta:"@ + k + ":overlap"@
}

/// The overlap features of an example whose metadata is `given`, against
/// the current item's metadata `current`, for the first `n` keys of `given`.
pub open spec fn overlap_features(
    cfg: Seq<(String, MetaFeature)>,
    given: Seq<(String, Vec<String>)>,
    current: Seq<(String, Vec<String>)>,
    n: int,
) -> Seq<(Seq<char>, nat)>
    decreases n,
{
    if n <= 0 || n > given.len() {
        Seq::empty()
    } else {
        let prev = overlap_features(cfg, given, current, n - 1);
        let k = given[n - 1].0@;
        if kind_from(cfg, k, 0) == Some(MetaFeature::Overlap) {
            prev.push(
                (
                    meta_name(k),
                    common_count(string_views(given[n - 1].1@), tags_from(current, k, 0)),
                ),
            )
        } else {
            prev
        }
    }
}

pub open spec fn list_feature_name(kind: ListKind, rank: bool) -> Seq<char> {
    let suffix = if rank {
        ":rank"@
    } else {
        ":value:ln1p"@
    };
    match kind {
        ListKind::Near => "list:near"@ + suffix,
        ListKind::Top(s) => "list:top:"@ + scope_name(s) + suffix,
        ListKind::Pop(s) => "list:pop:"@ + scope_name(s) + suffix,
    }
}

/// The name of the feature that holds the rank (`rank`) or the
/// `ln(1 + value)` of an example's position in list `kind`.
pub fn list_feature(kind: ListKind, rank: bool) -> (r: String)
    ensures
        r@ == list_feature_name(kind, rank),
{
    let mut r = match kind {
        ListKind::Near => String::from_str("list:near"),
        ListKind::Top(s) => {
            let mut r = String::from_str("list:top:");
            r.append(s.name());
            r
        },
        ListKind::Pop(s) => {
            let mut r = String::from_str("list:pop:");
            r.append(s.name());
            r
        },
    };
    if rank {
        r.append(":rank");
    } else {
        r.append(":value:ln1p");
    }
    r
}

/// The configuration of a partition.
#[derive(Debug, Clone)]
pub struct PartConfig {
    pub max_candidate_count: usize,
    pub meta_features: Vec<(String, MetaFeature)>,
}

impl PartConfig {
    pub fn new() -> (r: PartConfig)
        ensures
            r.max_candidate_count == 256,
            r.meta_features@.len() == 0,
    {
        PartConfig { max_candidate_count: max_candidate_count(), meta_features: Vec::new() }
    }

    /// The kind configured for metadata key `k`.
    pub fn meta_kind(&self, k: &String) -> (r: Option<MetaFeature>)
        ensures
            r == kind_from(self.meta_features@, k@, 0),
    {
        let mut i: usize = 0;
        while i < self.meta_features.len()
            invariant
                i <= self.meta_features@.len(),
                kind_from(self.meta_features@, k@, 0) == kind_from(self.meta_features@, k@, i as int),
            decreases self.meta_features@.len() - i,
        {
            if self.meta_features[i].0 == *k {
                return Some(self.meta_features[i].1);
            }
            i = i + 1;
        }
        None
    }

    /// The overlap features of an example with metadata `given` against
    /// the current item's metadata `current`: for each key of `given`
    /// configured as an overlap, in order, the feature name and the number
    /// of the example's tags under that key that the current item has too.
    pub fn extract_all(
        &self,
        given: &Vec<(String, Vec<String>)>,
        current: &Vec<(String, Vec<String>)>,
    ) -> (r: Vec<(String, usize)>)
        ensures
            r@.len() == overlap_features(self.meta_features@, given@, current@, given@.len() as int).len(),
            forall|i: int|
                0 <= i < r@.len() ==> (#[trigger] r@[i]).0@ == overlap_features(
                    self.meta_features@,
                    given@,
                    current@,
                    given@.len() as int,
                )[i].0 && r@[i].1 == overlap_features(
                    self.meta_features@,
                    given@,
                    current@,
                    given@.len() as int,
                )[i].1,
    {
        let mut r: Vec<(String, usize)> = Vec::new();
        let mut i: usize = 0;
        while i < given.len()
            invariant
                i <= given@.len(),
                r@.len() == overlap_features(self.meta_features@, given@, current@, i as int).len(),
                forall|j: int|
                    0 <= j < r@.len() ==> (#[trigger] r@[j]).0@ == overlap_features(
                        self.meta_features@,
                        given@,
                        current@,
                        i as int,
                    )[j].0 && r@[j].1 == overlap_features(
                        self.meta_features@,
                        given@,
                        current@,
                        i as int,
                    )[j].1,
            decreases given@.len() - i,
        {
            let key = &given[i].0;
            let ghost prev = r@;
            if self.meta_kind(key) == Some(MetaFeature::Overlap) {
                let theirs = tags_of(current, key);
                let count = common(&given[i].1, &theirs);
                let mut name = String::from_str("meta:");
                name.append(key.as_str());
                name.append(":overlap");
                r.push((name, count));
            }
            proof {
                assert forall|j: int| 0 <= j < r@.len() implies (#[trigger] r@[j]).0@ == overlap_features(
                    self.meta_features@,
                    given@,
                    current@,
                    i + 1,
                )[j].0 && r@[j].1 == overlap_features(
                    self.meta_features@,
                    given@,
                    current@,
                    i + 1,
                )[j].1 by {
                    if j < prev.len() {
                        assert(r@[j] == prev[j]);
                    }
                }
            }
            i = i + 1;
        }
        r
    }
}

/// The tags under `k` in `meta`, none where `meta` has no such key.
fn tags_of(meta: &Vec<(String, Vec<String>)>, k: &String) -> (r: Vec<String>)
    ensures
        string_views(r@) == tags_from(meta@, k@, 0),
{
    let mut i: usize = 0;
    while i < meta.len()
        invariant
            i <= meta@.len(),
            tags_from(meta@, k@, 0) == tags_from(meta@, k@, i as int),
        decreases meta@.len() - i,
    {
        if meta[i].0 == *k {
            let mut r: Vec<String> = Vec::new();
            let tags = &meta[i].1;
            let mut j: usize = 0;
            while j < tags.len()
                invariant
                    j <= tags@.len(),
                    string_views(r@) == string_views(tags@).take(j as int),
                decreases tags@.len() - j,
            {
                let ghost before = r@;
                let t = tags[j].clone();
                r.push(t);
                proof {
                    assert(r@ == before.push(t));
                    assert(t@ == tags@[j as int]@);
                    assert(string_views(r@) =~= string_views(before).push(t@));
                    assert(string_views(tags@).take(j as int + 1) =~= string_views(tags@).take(j as int).push(tags@[j as int]@));
                }
                j = j + 1;
            }
            assert(string_views(tags@).take(j as int) =~= string_views(tags@));
            return r;
        }
        i = i + 1;
    }
    let r: Vec<String> = Vec::new();
    assert(string_views(r@) =~= Seq::<Seq<char>>::empty());
    r
}

/// How many of `a` also occur in `b`.
fn common(a: &Vec<String>, b: &Vec<String>) -> (r: usize)
    ensures
        r == common_count(string_views(a@), string_views(b@)),
{
    let mut n: usize = 0;
    let mut i: usize = 0;
    while i < a.len()
        invariant
            i <= a@.len(),
            n <= i,
            n == common_count(string_views(a@).take(i as int), string_views(b@)),
        decreases a@.len() - i,
    {
        let mut found = false;
        let mut j: usize = 0;
        while j < b.len()
            invariant
                i < a@.len(),
                j <= b@.len(),
                found == exists|m: int| 0 <= m < j && b@[m]@ == a@[i as int]@,
            decreases b@.len() - j,
        {
            if b[j] == a[i] {
                found = true;
            }
            j = j + 1;
        }
        proof {
            let sa = string_views(a@).take(i as int + 1);
            assert(sa.drop_last() =~= string_views(a@).take(i as int));
            assert(sa.last() == a@[i as int]@);
            if found {
                let m = choose|m: int| 0 <= m < j && b@[m]@ == a@[i as int]@;
                assert(string_views(b@)[m] == a@[i as int]@);
            }
            if string_views(b@).contains(a@[i as int]@) {
                let m = choose|m: int| 0 <= m < string_views(b@).len() && string_views(b@)[m] == a@[i as int]@;
                assert(b@[m]@ == a@[i as int]@);
            }
        }
        if found {
            n = n + 1;
        }
        i = i + 1;
    }
    assert(string_views(a@).take(a@.len() as int) =~= string_views(a@));
    n
}

} // verus!
