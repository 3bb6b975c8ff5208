use credit_portfolio_model::rating::{is_non_decreasing, order_key, rating_index};

fn key(x: f64) -> i64 {
    order_key(x.to_bits())
}

#[test]
fn order_key_follows_value_order() {
    let values = [-1.0e300, -2.5, -1.0, -1.0e-300, 0.0, 1.0e-300, 0.5, 1.2816, 2.0, 1.0e300];
    for w in values.windows(2) {
        assert!(key(w[0]) < key(w[1]), "{} vs {}", w[0], w[1]);
    }
}

#[test]
fn order_key_signed_zeros_equal() {
    assert_eq!(key(-0.0), key(0.0));
    assert_eq!(key(0.0), 0);
}

#[test]
fn order_key_exact_values() {
    assert_eq!(order_key(0x3FF0_0000_0000_0000), 0x3FF0_0000_0000_0000);
    assert_eq!(order_key(0xBFF0_0000_0000_0000), -0x3FF0_0000_0000_0000);
}

#[test]
fn single_threshold_scenario() {
    // two rating classes with probabilities [0.9, 0.1]: one threshold at the 90% quantile
    let thresholds = vec![key(1.2815515655446004)];
    let losses = vec![0.0_f64, 100.0];
    let high = rating_index(&thresholds, key(2.0));
    assert_eq!(high, 1);
    assert_eq!(losses[high], 100.0);
    let low = rating_index(&thresholds, key(0.0));
    assert_eq!(low, 0);
    assert_eq!(losses[low], 0.0);
}

#[test]
fn value_on_threshold_stays_in_lower_class() {
    let t = vec![-5, 0, 0, 7];
    assert_eq!(rating_index(&t, 0), 1);
    assert_eq!(rating_index(&t, 1), 3);
    assert_eq!(rating_index(&t, 7), 3);
    assert_eq!(rating_index(&t, 8), 4);
    assert_eq!(rating_index(&t, -6), 0);
}

#[test]
fn no_thresholds_single_class() {
    let t: Vec<i64> = Vec::new();
    assert_eq!(rating_index(&t, 123), 0);
    assert!(is_non_decreasing(&t));
}

#[test]
fn rating_is_monotone_in_value() {
    let t = vec![-10, -3, -3, 0, 4, 9];
    let mut last = 0;
    for z in -15..15 {
        let r = rating_index(&t, z);
        assert!(r >= last);
        last = r;
    }
    assert_eq!(last, 6);
}

#[test]
fn non_decreasing_detection() {
    assert!(is_non_decreasing(&[1, 1, 2, 5]));
    assert!(!is_non_decreasing(&[1, 3, 2]));
    assert!(is_non_decreasing(&[4]));
}
