//! The steps of a training tick that decide what is learned from.
use crate::learn::metrics::{auc_above, Auc};
use vstd::prelude::*;

verus! {

/// Fewest labelled examples that a training tick learns from.
pub const MIN_FEATURES: usize = 64;

/// Label of each shown item: whether it is among the chosen ones.
pub fn label_examples(visible: &Vec<u128>, chosen: &Option<Vec<u128>>) -> (r: Vec<bool>)
    ensures
        r@.len() == visible@.len(),
        forall|i: int|
            0 <= i < visible@.len() ==> r@[i] == match chosen {
                Some(c) => c@.contains(visible@[i]),
                None => false,
            },
{
    let mut r: Vec<bool> = Vec::new();
    let mut i: usize = 0;
    while i < visible.len()
        invariant
            i <= visible@.len(),
            r@.len() == i,
            forall|j: int|
                0 <= j < i ==> r@[j] == match chosen {
                    Some(c) => c@.contains(visible@[j]),
                    None => false,
                },
        decreases visible@.len() - i,
    {
        let id = visible[i];
        let positive = match chosen {
            Some(c) => {
                let mut found = false;
                let mut k: usize = 0;
                while k < c.len()
                    invariant
                        k <= c@.len(),
                        found == exists|m: int| 0 <= m < k && c@[m] == id,
                    decreases c@.len() - k,
                {
                    if c[k] == id {
                        found = true;
                    }
                    k = k + 1;
                }
                proof {
                    if found {
                        let m = choose|m: int| 0 <= m < k && c@[m] == id;
                        assert(c@.contains(id));
                    }
                    if c@.contains(id) {
                        let m = choose|m: int| 0 <= m < c@.len() && c@[m] == id;
                    }
                }
                found
            },
            None => false,
        };
        r.push(positive);
        i = i + 1;
    }
    r
}

/// Whether a tick has enough labelled examples to learn from.
pub fn enough_features(n: usize) -> (r: bool)
    ensures
        r == (n >= MIN_FEATURES),
{
    n >= MIN_FEATURES
}

/// Where `n` examples are split: the first two thirds (rounded down) are
/// trained on, the rest held out.
pub fn normal_split(n: usize) -> (r: usize)
    ensures
        r == (2 * n as int) / 3,
        r <= n,
{
    let q = n / 3;
    let m = n % 3;
    let r = q * 2 + m * 2 / 3;
    assert(n == 3 * q + m);
    assert((2 * n as int) / 3 == 2 * q + (2 * m) / 3) by (nonlinear_arith)
        requires
            n == 3 * q + m,
            0 <= m < 3,
    ;
    r
}

/// The area of the model that a tick leaves in place: the new one where it
/// is strictly better on the held-out examples, the old one otherwise.
pub open spec fn kept_after_tick(old: Auc, new: Auc) -> Auc {
    if auc_above(new, old) {
        new
    } else {
        old
    }
}

/// A training tick never lowers the held-out area of the stored model.
pub proof fn promotion_never_lowers_auc(old: Auc, new: Auc)
    ensures
        kept_after_tick(old, new).num as int * old.den as int >= old.num as int * kept_after_tick(
            old,
            new,
        ).den as int,
{
    let kept = kept_after_tick(old, new);
    if !auc_above(new, old) {
        assert(old.num as int * old.den as int >= old.num as int * old.den as int);
    }
}

} // verus!
