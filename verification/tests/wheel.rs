use hawk_dove::fixed::SCALE;
use hawk_dove::wheel::{pick_weighted, spin, sum_weights, trembles};

#[test]
fn spin_stops_at_first_place_reaching_the_draw() {
    let weights = vec![1, 1, 2];
    let order = vec![0, 1, 2];
    assert_eq!(spin(&weights, &order, 0), Some(0));
    assert_eq!(spin(&weights, &order, 250_000_000), Some(0));
    assert_eq!(spin(&weights, &order, 250_000_001), Some(1));
    assert_eq!(spin(&weights, &order, 500_000_000), Some(1));
    assert_eq!(spin(&weights, &order, 500_000_001), Some(2));
    assert_eq!(spin(&weights, &order, 999_999_999), Some(2));
    assert_eq!(spin(&weights, &order, SCALE), Some(2));
}

#[test]
fn spin_follows_the_order_given() {
    let weights = vec![1, 1, 2];
    let order = vec![2, 0, 1];
    assert_eq!(spin(&weights, &order, 0), Some(0));
    assert_eq!(spin(&weights, &order, 500_000_000), Some(0));
    assert_eq!(spin(&weights, &order, 500_000_001), Some(1));
    assert_eq!(pick_weighted(&weights, &order, 500_000_000), Some(2));
    assert_eq!(pick_weighted(&weights, &order, 500_000_001), Some(0));
    assert_eq!(pick_weighted(&weights, &order, 750_000_001), Some(1));
}

#[test]
fn spin_does_not_stop_on_zero_total() {
    let weights = vec![0, 0, 0];
    let order = vec![0, 1, 2];
    assert_eq!(spin(&weights, &order, 0), None);
    assert_eq!(spin(&weights, &order, 700_000_000), None);
    let mixed = vec![5, -5];
    assert_eq!(spin(&mixed, &vec![0, 1], 100), None);
}

#[test]
fn spin_over_no_places_does_not_stop() {
    let weights = vec![3, 4];
    let order: Vec<usize> = Vec::new();
    assert_eq!(spin(&weights, &order, 0), None);
    assert_eq!(pick_weighted(&weights, &order, 0), None);
}

#[test]
fn spin_with_negative_weights() {
    let weights = vec![-1, -1];
    let order = vec![0, 1];
    assert_eq!(spin(&weights, &order, 0), None);
    assert_eq!(spin(&weights, &order, 400_000_000), None);
    assert_eq!(spin(&weights, &order, 500_000_000), Some(0));
    assert_eq!(spin(&weights, &order, 600_000_000), Some(0));
    assert_eq!(spin(&weights, &order, SCALE), Some(0));
}

#[test]
fn spin_skips_zero_weight_unless_draw_is_zero() {
    let weights = vec![0, 10];
    let order = vec![0, 1];
    assert_eq!(spin(&weights, &order, 0), Some(0));
    assert_eq!(spin(&weights, &order, 1), Some(1));
}

#[test]
fn sum_weights_adds_over_the_order() {
    let weights = vec![i64::MAX, i64::MAX, -7];
    assert_eq!(sum_weights(&weights, &vec![0, 1]), 2 * (i64::MAX as i128));
    assert_eq!(sum_weights(&weights, &vec![2, 2, 2]), -21);
    assert_eq!(sum_weights(&weights, &Vec::new()), 0);
}

#[test]
fn trembles_below_the_probability_only() {
    assert!(trembles(0, 1));
    assert!(!trembles(1, 1));
    assert!(!trembles(0, 0));
    assert!(trembles(999_999_999, SCALE));
    assert!(!trembles(500_000_000, 500_000_000));
    assert!(trembles(499_999_999, 500_000_000));
}

#[test]
fn certain_tremble_holds_for_every_draw() {
    let mut draw: i64 = 0;
    while draw < SCALE {
        assert!(trembles(draw, SCALE));
        assert!(!trembles(draw, 0));
        draw += 9_999_991;
    }
    assert!(trembles(SCALE - 1, SCALE));
}
