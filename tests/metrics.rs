use vilkas::learn::metrics::{improves, roc_auc_score, Auc};
use vilkas::learn::vector::order_key;

fn keys(values: &[f64]) -> Vec<u64> {
    values.iter().map(|v| order_key(v.to_bits())).collect()
}

fn labels(values: &[f64]) -> Vec<bool> {
    values.iter().map(|v| *v == 1.0).collect()
}

fn value(a: Auc) -> f64 {
    a.num as f64 / a.den as f64
}

fn close(x: f64, y: f64, e: f64) -> bool {
    (x - y).abs() < e
}

#[test]
fn test_basic_auc() {
    let ytrue = vec![1.0, 1.0, 0.0, 0.0];
    let yhat = vec![0.5, 0.2, 0.3, -1.0];
    let auc = roc_auc_score(&labels(&ytrue), &keys(&yhat));
    assert!(close(value(auc), 0.75, 0.00001));
}

#[test]
fn test_basic_other() {
    let ytrue = vec![1.0, 1.0, 0.0, 0.0];
    let yhat = vec![0.5, 0.5, -1.0, 0.5];
    let auc = roc_auc_score(&labels(&ytrue), &keys(&yhat));
    assert!(close(value(auc), 0.75, 0.00001));
}

#[test]
fn auc_is_exact_fraction() {
    let auc = roc_auc_score(&labels(&[1.0, 1.0, 0.0, 0.0]), &keys(&[0.5, 0.2, 0.3, -1.0]));
    assert_eq!(auc, Auc { num: 6, den: 8 });
}

#[test]
fn auc_of_perfect_and_reversed_ranking() {
    let perfect = roc_auc_score(&vec![true, false, false], &keys(&[3.0, 2.0, 1.0]));
    assert_eq!(perfect, Auc { num: 4, den: 4 });
    let reversed = roc_auc_score(&vec![false, false, true], &keys(&[3.0, 2.0, 1.0]));
    assert_eq!(reversed, Auc { num: 0, den: 4 });
}

#[test]
fn auc_all_tied_is_one_half() {
    let auc = roc_auc_score(&vec![true, false, true, false], &keys(&[1.0, 1.0, 1.0, 1.0]));
    assert_eq!(auc, Auc { num: 4, den: 8 });
}

#[test]
fn auc_without_negatives_is_undefined() {
    let auc = roc_auc_score(&vec![true, true], &keys(&[1.0, 2.0]));
    assert_eq!(auc.den, 0);
    let empty = roc_auc_score(&vec![], &vec![]);
    assert_eq!(empty, Auc { num: 0, den: 0 });
}

#[test]
fn improves_compares_fractions() {
    let old = Auc { num: 3, den: 4 };
    assert!(improves(old, Auc { num: 7, den: 8 }));
    assert!(!improves(old, Auc { num: 6, den: 8 }));
    assert!(!improves(old, Auc { num: 1, den: 2 }));
    assert!(!improves(Auc { num: 0, den: 0 }, Auc { num: 1, den: 1 }));
    assert!(!improves(old, Auc { num: 0, den: 0 }));
}
