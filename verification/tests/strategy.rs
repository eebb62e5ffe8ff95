use hawk_dove::fixed::SCALE;
use hawk_dove::strategy::{available, decay, index_range, Role, StratVector, Strategy};

#[test]
fn strategies_have_their_places() {
    assert_eq!(Strategy::from_index(0), Strategy::Hawk);
    assert_eq!(Strategy::from_index(1), Strategy::Dove);
    assert_eq!(Strategy::from_index(2), Strategy::Fox);
    assert_eq!(Strategy::Hawk.index(), 0);
    assert_eq!(Strategy::Dove.index(), 1);
    assert_eq!(Strategy::Fox.index(), 2);
}

#[test]
fn fox_is_open_to_deviant_visitors_only() {
    assert_eq!(available(Role::Visitor, true), 3);
    assert_eq!(available(Role::Visitor, false), 2);
    assert_eq!(available(Role::Host, true), 2);
    assert_eq!(available(Role::Host, false), 2);
}

#[test]
fn index_range_counts_up() {
    assert_eq!(index_range(0), Vec::<usize>::new());
    assert_eq!(index_range(3), vec![0, 1, 2]);
}

#[test]
fn new_strategy_vector_is_uniform() {
    let s = StratVector::new();
    assert_eq!(s.visit, vec![SCALE, SCALE, SCALE]);
    assert_eq!(s.host, vec![SCALE, SCALE]);
}

#[test]
fn get_strat_selects_by_role() {
    let mut s = StratVector::new();
    s.get_strat(&Role::Host)[1] = 5;
    s.get_strat(&Role::Visitor)[2] = 7;
    assert_eq!(s.host, vec![SCALE, 5]);
    assert_eq!(s.visit, vec![SCALE, SCALE, 7]);
}

#[test]
fn decay_scales_the_open_strategies_only() {
    let mut w = vec![SCALE, 500_000_000, 200_000_000];
    decay(&mut w, 2, 100_000_000);
    assert_eq!(w, vec![900_000_000, 450_000_000, 200_000_000]);
    decay(&mut w, 3, 500_000_000);
    assert_eq!(w, vec![450_000_000, 225_000_000, 100_000_000]);
    decay(&mut w, 0, 500_000_000);
    assert_eq!(w, vec![450_000_000, 225_000_000, 100_000_000]);
}

#[test]
fn decay_at_rate_zero_changes_nothing() {
    let mut w = vec![1, -7, i64::MAX, i64::MIN, 0];
    decay(&mut w, 5, 0);
    assert_eq!(w, vec![1, -7, i64::MAX, i64::MIN, 0]);
}

#[test]
fn decay_comes_closer_to_zero_without_reaching_it() {
    let mut w = vec![5, -5];
    decay(&mut w, 2, 500_000_000);
    assert_eq!(w, vec![3, -3]);
    decay(&mut w, 2, 500_000_000);
    assert_eq!(w, vec![2, -2]);
    decay(&mut w, 2, 500_000_000);
    assert_eq!(w, vec![1, -1]);
    decay(&mut w, 2, 500_000_000);
    assert_eq!(w, vec![1, -1]);
    decay(&mut w, 2, SCALE);
    assert_eq!(w, vec![0, 0]);
}
