//! Area under the receiver operating characteristic curve.
//!
//! Predictions are given as order keys (see `crate::ord`); labels say which
//! examples are positive. The area is returned as an exact fraction.
use vstd::prelude::*;
use vstd::seq_lib::{commutative_foldl, lemma_fold_left_permutation};

verus! {

/// An area under the ROC curve, `num / den`. `den` is zero where the
/// examples hold no positive or no negative one.
#[derive(Debug, Clone, Copy, PartialEq, Eq)]
pub struct Auc {
    pub num: u64,
    pub den: u64,
}

/// An example as ranked: its prediction key and its label.
pub type Scored = (u64, bool);

/// The examples with predictions `yhat` and labels `ytrue`.
pub open spec fn pairs_of(ytrue: Seq<bool>, yhat: Seq<u64>) -> Seq<Scored> {
    Seq::new(ytrue.len(), |i: int| (yhat[i], ytrue[i]))
}

/// The sum of `w` over `s`.
pub open spec fn total(s: Seq<Scored>, w: spec_fn(Scored) -> nat) -> nat {
    s.fold_left(0nat, |acc: nat, p: Scored| acc + w(p))
}

pub open spec fn positive_w() -> spec_fn(Scored) -> nat {
    |p: Scored|
        if p.1 {
            1nat
        } else {
            0nat
        }
}

pub open spec fn negative_w() -> spec_fn(Scored) -> nat {
    |p: Scored|
        if !p.1 {
            1nat
        } else {
            0nat
        }
}

/// One for a positive example ranked above `x`.
pub open spec fn above_w(x: u64) -> spec_fn(Scored) -> nat {
    |p: Scored|
        if p.1 && p.0 > x {
            1nat
        } else {
            0nat
        }
}

/// One for a positive example tied with `x`.
pub open spec fn tied_w(x: u64) -> spec_fn(Scored) -> nat {
    |p: Scored|
        if p.1 && p.0 == x {
            1nat
        } else {
            0nat
        }
}

/// For a negative example: twice the positives of `all` ranked above it
/// plus the positives tied with it.
pub open spec fn credit_w(all: Seq<Scored>) -> spec_fn(Scored) -> nat {
    |p: Scored|
        if !p.1 {
            2 * total(all, above_w(p.0)) + total(all, tied_w(p.0))
        } else {
            0nat
        }
}

/// Twice the number of (positive, negative) pairs of `s` in which the
/// positive is ranked above, plus the number of such pairs that are tied:
/// twice the area under the ROC curve drawn in counts of negatives and
/// positives, the trapezoids of tied groups included.
pub open spec fn ranked_pairs(s: Seq<Scored>) -> nat {
    total(s, credit_w(s))
}

/// `s` is ranked by key, highest first.
pub open spec fn ranked_desc(s: Seq<Scored>) -> bool {
    forall|a: int, b: int| 0 <= a < b < s.len() ==> s[a].0 >= s[b].0
}

proof fn lemma_total_push(s: Seq<Scored>, p: Scored, w: spec_fn(Scored) -> nat)
    ensures
        total(s.push(p), w) == total(s, w) + w(p),
{
    assert(s.push(p).drop_last() =~= s);
}

proof fn lemma_total_append(s1: Seq<Scored>, s2: Seq<Scored>, w: spec_fn(Scored) -> nat)
    ensures
        total(s1 + s2, w) == total(s1, w) + total(s2, w),
    decreases s2.len(),
{
    if s2.len() == 0 {
        assert(s1 + s2 =~= s1);
    } else {
        lemma_total_append(s1, s2.drop_last(), w);
        assert((s1 + s2).drop_last() =~= s1 + s2.drop_last());
        assert((s1 + s2).last() == s2.last());
    }
}

proof fn lemma_total_perm(s1: Seq<Scored>, s2: Seq<Scored>, w: spec_fn(Scored) -> nat)
    requires
        s1.to_multiset() == s2.to_multiset(),
    ensures
        total(s1, w) == total(s2, w),
{
    let f = |acc: nat, p: Scored| acc + w(p);
    assert(commutative_foldl(f)) by {
        assert forall|x: Scored, y: Scored, v: nat| #[trigger] f(f(v, x), y) == f(f(v, y), x) by {}
    }
    lemma_fold_left_permutation(s1, s2, f, 0nat);
}

proof fn lemma_total_pointwise(s: Seq<Scored>, w1: spec_fn(Scored) -> nat, w2: spec_fn(Scored) -> nat)
    requires
        forall|i: int| 0 <= i < s.len() ==> w1(s[i]) == w2(s[i]),
    ensures
        total(s, w1) == total(s, w2),
    decreases s.len(),
{
    if s.len() > 0 {
        lemma_total_pointwise(s.drop_last(), w1, w2);
    }
}

proof fn lemma_total_unfold(s: Seq<Scored>, w: spec_fn(Scored) -> nat)
    requires
        s.len() > 0,
    ensures
        total(s, w) == total(s.drop_last(), w) + w(s.last()),
{
}

proof fn lemma_total_zero(s: Seq<Scored>, w: spec_fn(Scored) -> nat)
    requires
        forall|i: int| 0 <= i < s.len() ==> w(s[i]) == 0,
    ensures
        total(s, w) == 0,
    decreases s.len(),
{
    if s.len() > 0 {
        let d = s.drop_last();
        assert forall|i: int| 0 <= i < d.len() implies w(d[i]) == 0 by {
            assert(d[i] == s[i]);
        }
        lemma_total_zero(d, w);
        lemma_total_unfold(s, w);
        assert(w(s[s.len() - 1]) == 0);
    }
}

/// `w` is `c` on negatives and zero on positives.
proof fn lemma_total_scaled(s: Seq<Scored>, w: spec_fn(Scored) -> nat, c: nat)
    requires
        forall|i: int| 0 <= i < s.len() ==> w(s[i]) == c * negative_w()(s[i]),
    ensures
        total(s, w) == c * total(s, negative_w()),
    decreases s.len(),
{
    if s.len() > 0 {
        let d = s.drop_last();
        assert forall|i: int| 0 <= i < d.len() implies w(d[i]) == c * negative_w()(d[i]) by {
            assert(d[i] == s[i]);
        }
        lemma_total_scaled(d, w, c);
        lemma_total_unfold(s, w);
        lemma_total_unfold(s, negative_w());
        let t = total(d, negative_w());
        let u = negative_w()(s.last());
        assert(w(s[s.len() - 1]) == c * negative_w()(s[s.len() - 1]));
        assert(total(s, w) == c * t + c * u);
        assert(total(s, negative_w()) == t + u);
        assert(c * t + c * u == c * (t + u)) by (nonlinear_arith);
    } else {
        assert(c * 0 == 0) by (nonlinear_arith);
    }
}

proof fn lemma_total_le(s: Seq<Scored>, w1: spec_fn(Scored) -> nat, w2: spec_fn(Scored) -> nat)
    requires
        forall|i: int| 0 <= i < s.len() ==> w1(s[i]) <= w2(s[i]),
    ensures
        total(s, w1) <= total(s, w2),
    decreases s.len(),
{
    if s.len() > 0 {
        let d = s.drop_last();
        assert forall|i: int| 0 <= i < d.len() implies w1(d[i]) <= w2(d[i]) by {
            assert(d[i] == s[i]);
        }
        lemma_total_le(d, w1, w2);
        lemma_total_unfold(s, w1);
        lemma_total_unfold(s, w2);
        assert(w1(s[s.len() - 1]) <= w2(s[s.len() - 1]));
    }
}

proof fn lemma_total_sum(s: Seq<Scored>, w1: spec_fn(Scored) -> nat, w2: spec_fn(Scored) -> nat)
    ensures
        total(s, |p: Scored| w1(p) + w2(p)) == total(s, w1) + total(s, w2),
    decreases s.len(),
{
    if s.len() > 0 {
        lemma_total_sum(s.drop_last(), w1, w2);
        lemma_total_unfold(s, w1);
        lemma_total_unfold(s, w2);
        lemma_total_unfold(s, |p: Scored| w1(p) + w2(p));
    }
}

/// No negative earns more than twice the positives: the area is at most
/// one.
proof fn lemma_credit_bounded(s: Seq<Scored>)
    ensures
        total(s, credit_w(s)) <= 2 * total(s, positive_w()) * total(s, negative_w()),
{
    let pos = total(s, positive_w());
    assert forall|x: u64| total(s, above_w(x)) + total(s, tied_w(x)) <= pos by {
        lemma_total_sum(s, above_w(x), tied_w(x));
        lemma_total_le(s, |p: Scored| above_w(x)(p) + tied_w(x)(p), positive_w());
    }
    let bound = |p: Scored| (2 * pos) * negative_w()(p);
    assert forall|i: int| 0 <= i < s.len() implies credit_w(s)(s[i]) <= bound(s[i]) by {
        let x = s[i].0;
        assert(total(s, above_w(x)) + total(s, tied_w(x)) <= pos);
        if s[i].1 {
            assert((2 * pos) * 0 == 0) by (nonlinear_arith);
        } else {
            assert((2 * pos) * 1 == 2 * pos) by (nonlinear_arith);
        }
    }
    lemma_total_le(s, credit_w(s), bound);
    lemma_total_scaled(s, bound, 2 * pos);
}

/// `g..e` is a group of the ranked `s`: the examples that share the key
/// `s[g].0`.
pub open spec fn is_group(s: Seq<Scored>, g: int, e: int) -> bool {
    &&& ranked_desc(s)
    &&& 0 <= g < e <= s.len()
    &&& forall|i: int| g <= i < e ==> s[i].0 == s[g].0
    &&& g > 0 ==> s[g - 1].0 != s[g].0
    &&& e < s.len() ==> s[e].0 != s[g].0
}

proof fn lemma_group_before(s: Seq<Scored>, g: int, e: int)
    requires
        is_group(s, g, e),
    ensures
        total(s.take(g), above_w(s[g].0)) == total(s.take(g), positive_w()),
        total(s.take(g), tied_w(s[g].0)) == 0,
{
    let x = s[g].0;
    let a = s.take(g);
    assert forall|i: int| 0 <= i < a.len() implies above_w(x)(a[i]) == positive_w()(a[i])
        && tied_w(x)(a[i]) == 0 by {
        assert(a[i] == s[i]);
        assert(s[i].0 >= s[g - 1].0);
        assert(s[g - 1].0 >= s[g].0);
    }
    lemma_total_pointwise(a, above_w(x), positive_w());
    lemma_total_zero(a, tied_w(x));
}

proof fn lemma_group_within(s: Seq<Scored>, g: int, e: int)
    requires
        is_group(s, g, e),
    ensures
        total(s.subrange(g, e), above_w(s[g].0)) == 0,
        total(s.subrange(g, e), tied_w(s[g].0)) == total(s.subrange(g, e), positive_w()),
{
    let x = s[g].0;
    let b = s.subrange(g, e);
    assert forall|i: int| 0 <= i < b.len() implies above_w(x)(b[i]) == 0 && tied_w(x)(b[i])
        == positive_w()(b[i]) by {
        assert(b[i] == s[g + i]);
    }
    lemma_total_zero(b, above_w(x));
    lemma_total_pointwise(b, tied_w(x), positive_w());
}

proof fn lemma_group_after(s: Seq<Scored>, g: int, e: int)
    requires
        is_group(s, g, e),
    ensures
        total(s.subrange(e, s.len() as int), above_w(s[g].0)) == 0,
        total(s.subrange(e, s.len() as int), tied_w(s[g].0)) == 0,
{
    let x = s[g].0;
    let c = s.subrange(e, s.len() as int);
    assert forall|i: int| 0 <= i < c.len() implies above_w(x)(c[i]) == 0 && tied_w(x)(c[i])
        == 0 by {
        assert(c[i] == s[e + i]);
        assert(s[e + i].0 <= s[e].0);
        assert(s[e].0 <= s[e - 1].0);
        assert(s[e - 1].0 == x);
    }
    lemma_total_zero(c, above_w(x));
    lemma_total_zero(c, tied_w(x));
}

/// In a ranked `s`, the positives above the key of the group `g..e` are
/// those before it, and the positives tied with it are those in it.
proof fn lemma_group_counts(s: Seq<Scored>, g: int, e: int)
    requires
        is_group(s, g, e),
    ensures
        total(s, above_w(s[g].0)) == total(s.take(g), positive_w()),
        total(s, tied_w(s[g].0)) == total(s.subrange(g, e), positive_w()),
{
    let x = s[g].0;
    let a = s.take(g);
    let b = s.subrange(g, e);
    let c = s.subrange(e, s.len() as int);
    assert(s =~= a + b + c);
    lemma_group_before(s, g, e);
    lemma_group_within(s, g, e);
    lemma_group_after(s, g, e);
    lemma_total_append(a + b, c, above_w(x));
    lemma_total_append(a, b, above_w(x));
    lemma_total_append(a + b, c, tied_w(x));
    lemma_total_append(a, b, tied_w(x));
}

/// Closing the group `g..e` of a ranked `s` adds the credit of its
/// negatives: one trapezoid under the curve.
proof fn lemma_close_group(s: Seq<Scored>, g: int, e: int)
    requires
        is_group(s, g, e),
    ensures
        total(s.take(g), positive_w()) <= total(s.take(e), positive_w()),
        total(s.take(g), negative_w()) <= total(s.take(e), negative_w()),
        total(s.take(e), credit_w(s)) == total(s.take(g), credit_w(s)) + (total(
            s.take(e),
            negative_w(),
        ) - total(s.take(g), negative_w())) * (total(s.take(e), positive_w()) + total(
            s.take(g),
            positive_w(),
        )),
{
    let a = s.take(g);
    let b = s.subrange(g, e);
    assert(s.take(e) =~= a + b);
    lemma_total_append(a, b, positive_w());
    lemma_total_append(a, b, negative_w());
    lemma_total_append(a, b, credit_w(s));
    lemma_group_counts(s, g, e);
    let x = s[g].0;
    let credit = 2 * total(s, above_w(x)) + total(s, tied_w(x));
    assert forall|i: int| 0 <= i < b.len() implies credit_w(s)(b[i]) == credit * negative_w()(
        b[i],
    ) by {
        assert(b[i] == s[g + i]);
        assert(s[g + i].0 == x);
        if b[i].1 {
            assert(credit * 0 == 0) by (nonlinear_arith);
        } else {
            assert(credit * 1 == credit) by (nonlinear_arith);
        }
    }
    lemma_total_scaled(b, credit_w(s), credit);
    let pa = total(a, positive_w());
    let pb = total(b, positive_w());
    let nb = total(b, negative_w());
    assert((2 * pa + pb) * nb == nb * ((pa + pb) + pa)) by (nonlinear_arith);
}

proof fn lemma_sorted_insert(prev: Seq<Scored>, p: int, a: Scored)
    requires
        ranked_desc(prev),
        0 <= p <= prev.len(),
        forall|i: int| 0 <= i < p ==> prev[i].0 >= a.0,
        p < prev.len() ==> prev[p].0 < a.0,
    ensures
        ranked_desc(prev.insert(p, a)),
{
    let s = prev.insert(p, a);
    assert forall|i: int, j: int| 0 <= i < j < s.len() implies s[i].0 >= s[j].0 by {
        if j < p {
        } else if j == p {
            assert(s[i] == prev[i]);
        } else if i < p {
            assert(s[j] == prev[j - 1]);
            assert(prev[p].0 >= prev[j - 1].0 || j - 1 == p);
        } else if i == p {
            assert(s[j] == prev[j - 1]);
            assert(prev[p].0 >= prev[j - 1].0 || j - 1 == p);
        } else {
            assert(s[i] == prev[i - 1]);
            assert(s[j] == prev[j - 1]);
        }
    }
}

/// The area under the ROC curve of predictions `yhat` (as order keys)
/// against labels `ytrue`. The examples are ranked by prediction, highest
/// first; each group of equal predictions moves the curve from one point
/// to the next in counts of negatives and positives, and the trapezoids
/// under it are summed and normalised by the number of positives times the
/// number of negatives. A positive tied with a negative counts half.
pub fn roc_auc_score(ytrue: &Vec<bool>, yhat: &Vec<u64>) -> (r: Auc)
    requires
        ytrue@.len() == yhat@.len(),
        ytrue@.len() < 0x8000_0000,
    ensures
        r.num == ranked_pairs(pairs_of(ytrue@, yhat@)),
        r.den == 2 * total(pairs_of(ytrue@, yhat@), positive_w()) * total(
            pairs_of(ytrue@, yhat@),
            negative_w(),
        ),
        r.num <= r.den,
{
    let sorted = ranked_examples(ytrue, yhat);
    let ghost all = pairs_of(ytrue@, yhat@);
    let ghost s = sorted@;
    let n = sorted.len();
    let mut tp: u64 = 0;
    let mut fp: u64 = 0;
    let mut tp_prev: u64 = 0;
    let mut fp_prev: u64 = 0;
    let mut area: u64 = 0;
    let mut g: usize = 0;
    let mut m: usize = 0;
    proof {
        assert(s.take(0) =~= Seq::<Scored>::empty());
    }
    while m < n
        invariant
            s == sorted@,
            n == s.len(),
            n < 0x8000_0000,
            ranked_desc(s),
            g <= m <= n,
            m > 0 ==> g < m,
            forall|j: int| g <= j < m ==> s[j].0 == s[g as int].0,
            g > 0 && g < n ==> s[g - 1].0 != s[g as int].0,
            tp == total(s.take(m as int), positive_w()),
            fp == total(s.take(m as int), negative_w()),
            tp_prev == total(s.take(g as int), positive_w()),
            fp_prev == total(s.take(g as int), negative_w()),
            tp_prev <= tp,
            fp_prev <= fp,
            tp + fp == m,
            area == total(s.take(g as int), credit_w(s)),
            area <= 2 * n * fp_prev,
        decreases n - m,
    {
        if m > 0 && sorted[m].0 != sorted[m - 1].0 {
            proof {
                lemma_close_group(s, g as int, m as int);
                bound_step(n as int, tp as int, tp_prev as int, fp as int, fp_prev as int);
            }
            area = area + (fp - fp_prev) * (tp + tp_prev);
            tp_prev = tp;
            fp_prev = fp;
            g = m;
        }
        proof {
            assert(s.take(m as int + 1) =~= s.take(m as int).push(s[m as int]));
            lemma_total_push(s.take(m as int), s[m as int], positive_w());
            lemma_total_push(s.take(m as int), s[m as int], negative_w());
        }
        if sorted[m].1 {
            tp = tp + 1;
        } else {
            fp = fp + 1;
        }
        m = m + 1;
    }
    if n > 0 {
        proof {
            lemma_close_group(s, g as int, n as int);
            bound_step(n as int, tp as int, tp_prev as int, fp as int, fp_prev as int);
        }
        area = area + (fp - fp_prev) * (tp + tp_prev);
    }
    proof {
        assert(s.take(n as int) =~= s);
        lemma_total_perm(s, all, credit_w(s));
        lemma_total_perm(s, all, positive_w());
        lemma_total_perm(s, all, negative_w());
        assert forall|i: int| 0 <= i < all.len() implies credit_w(s)(all[i]) == credit_w(all)(
            all[i],
        ) by {
            lemma_total_perm(s, all, above_w(all[i].0));
            lemma_total_perm(s, all, tied_w(all[i].0));
        }
        lemma_total_pointwise(all, credit_w(s), credit_w(all));
        lemma_credit_bounded(all);
        assert(2 * tp * fp <= 2 * 0x8000_0000 * 0x8000_0000) by (nonlinear_arith)
            requires
                tp <= 0x8000_0000,
                fp <= 0x8000_0000,
        ;
    }
    Auc { num: area, den: 2 * tp * fp }
}

proof fn bound_step(n: int, tp: int, tp_prev: int, fp: int, fp_prev: int)
    requires
        0 <= tp_prev <= tp,
        0 <= fp_prev <= fp,
        tp + fp <= n,
        n < 0x8000_0000,
    ensures
        (fp - fp_prev) * (tp + tp_prev) <= (fp - fp_prev) * (2 * n),
        2 * n * fp_prev + (fp - fp_prev) * (2 * n) == 2 * n * fp,
        2 * n * fp <= 2 * 0x8000_0000 * 0x8000_0000,
{
    assert((fp - fp_prev) * (tp + tp_prev) <= (fp - fp_prev) * (2 * n)) by (nonlinear_arith)
        requires
            tp + tp_prev <= 2 * n,
            fp >= fp_prev,
    ;
    assert(2 * n * fp_prev + (fp - fp_prev) * (2 * n) == 2 * n * fp) by (nonlinear_arith);
    assert(2 * n * fp <= 2 * 0x8000_0000 * 0x8000_0000) by (nonlinear_arith)
        requires
            0 <= n < 0x8000_0000,
            0 <= fp <= n,
    ;
}

/// The examples ranked by prediction, highest first.
fn ranked_examples(ytrue: &Vec<bool>, yhat: &Vec<u64>) -> (sorted: Vec<Scored>)
    requires
        ytrue@.len() == yhat@.len(),
    ensures
        sorted@.len() == ytrue@.len(),
        ranked_desc(sorted@),
        sorted@.to_multiset() == pairs_of(ytrue@, yhat@).to_multiset(),
{
    let n = ytrue.len();
    let ghost all = pairs_of(ytrue@, yhat@);
    let mut sorted: Vec<Scored> = Vec::new();
    let mut i: usize = 0;
    proof {
        assert(all.take(0) =~= Seq::<Scored>::empty());
        assert(sorted@ =~= Seq::<Scored>::empty());
    }
    while i < n
        invariant
            n == ytrue@.len(),
            n == yhat@.len(),
            all == pairs_of(ytrue@, yhat@),
            i <= n,
            sorted@.len() == i,
            ranked_desc(sorted@),
            sorted@.to_multiset() == all.take(i as int).to_multiset(),
        decreases n - i,
    {
        let a: Scored = (yhat[i], ytrue[i]);
        let mut p: usize = 0;
        while p < sorted.len() && sorted[p].0 >= a.0
            invariant
                p <= sorted@.len(),
                forall|j: int| 0 <= j < p ==> sorted@[j].0 >= a.0,
            decreases sorted@.len() - p,
        {
            p = p + 1;
        }
        let ghost prev = sorted@;
        sorted.insert(p, a);
        proof {
            lemma_sorted_insert(prev, p as int, a);
            assert(all.take(i as int + 1) =~= all.take(i as int).push(all[i as int]));
            assert(all[i as int] == a);
            vstd::seq_lib::to_multiset_insert(prev, p as int, a);
            vstd::seq_lib::to_multiset_build(all.take(i as int), a);
        }
        i = i + 1;
    }
    proof {
        assert(all.take(n as int) =~= all);
    }
    sorted
}

/// `new` is strictly greater than `old` as a fraction; an area with a zero
/// denominator compares with nothing.
pub open spec fn auc_above(new: Auc, old: Auc) -> bool {
    old.den > 0 && new.den > 0 && new.num as int * old.den as int > old.num as int * new.den as int
}

/// Whether `new` is strictly greater than `old`, compared as fractions.
/// An area with a zero denominator is undefined and never compares greater,
/// nor is anything greater than it.
pub fn improves(old: Auc, new: Auc) -> (r: bool)
    ensures
        r == auc_above(new, old),
{
    if old.den == 0 || new.den == 0 {
        return false;
    }
    let a = new.num as u128;
    let b = old.den as u128;
    let c = old.num as u128;
    let d = new.den as u128;
    proof {
        assert(a * b <= 0xffff_ffff_ffff_ffff * 0xffff_ffff_ffff_ffff) by (nonlinear_arith)
            requires
                a <= 0xffff_ffff_ffff_ffff,
                b <= 0xffff_ffff_ffff_ffff,
        ;
        assert(c * d <= 0xffff_ffff_ffff_ffff * 0xffff_ffff_ffff_ffff) by (nonlinear_arith)
            requires
                c <= 0xffff_ffff_ffff_ffff,
                d <= 0xffff_ffff_ffff_ffff,
        ;
    }
    a * b > c * d
}

} // verus!
