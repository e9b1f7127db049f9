use vilkas::learn::vector::order_key;
use vilkas::ord::{order_descending, sort_float};

fn keys(values: &[f64]) -> Vec<u64> {
    values.iter().map(|v| order_key(v.to_bits())).collect()
}

#[test]
fn it_sorts_floats_descending() {
    let mut floats = vec![1.0, 5.0, 10.0];
    let k = keys(&floats);
    sort_float(&mut floats, &k);
    assert_eq!(floats, vec![10.0, 5.0, 1.0]);
}

#[test]
fn it_sorts_cached_floats_descending() {
    let mut floats = vec![1.0, 5.0, 10.0];
    println!("precheck");
    let k = keys(&floats);
    sort_float(&mut floats, &k);
    assert_eq!(floats, vec![10.0, 5.0, 1.0]);
}

#[test]
fn order_keys_follow_numeric_order() {
    let values = [-10.5, -1.0, -0.0, 0.0, 1e-300, 2.0, 1e300, f64::INFINITY];
    let k = keys(&values);
    for w in k.windows(2) {
        assert!(w[0] < w[1]);
    }
    assert!(order_key(f64::NEG_INFINITY.to_bits()) < k[0]);
}

#[test]
fn order_is_stable_for_equal_keys() {
    let order = order_descending(&vec![3, 7, 3, 9, 7]);
    assert_eq!(order, vec![3, 1, 4, 0, 2]);
    assert_eq!(order_descending(&vec![]), Vec::<usize>::new());
}

#[test]
fn sort_handles_negative_scores() {
    let mut floats = vec![-2.5, 0.0, -0.5, 3.0];
    let k = keys(&floats);
    sort_float(&mut floats, &k);
    assert_eq!(floats, vec![3.0, 0.0, -0.5, -2.5]);
}
