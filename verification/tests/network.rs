use hawk_dove::fixed::SCALE;
use hawk_dove::network::{AgentId, Network, NetworkError};

fn row_sum_of(network: &Network, a: usize) -> i64 {
    network.0[a].iter().sum()
}

#[test]
fn new_network_is_uniform() {
    let n = Network::new(3);
    assert_eq!(n.population(), 3);
    assert_eq!(
        n.0,
        vec![
            vec![0, 500_000_000, 500_000_000],
            vec![500_000_000, 0, 500_000_000],
            vec![500_000_000, 500_000_000, 0],
        ]
    );
    let m = Network::new(4);
    assert_eq!(m.0[2], vec![333_333_333, 333_333_333, 0, 333_333_334]);
    assert_eq!(m.0[3], vec![333_333_333, 333_333_333, 333_333_334, 0]);
    let two = Network::new(2);
    assert_eq!(two.0, vec![vec![0, SCALE], vec![SCALE, 0]]);
}

#[test]
fn new_network_rows_add_up_to_one() {
    for pop in 2..60usize {
        let n = Network::new(pop);
        assert_eq!(n.population(), pop);
        let share = SCALE / (pop as i64 - 1);
        for a in 0..pop {
            assert_eq!(n.0[a].len(), pop);
            assert_eq!(row_sum_of(&n, a), SCALE);
            for b in 0..pop {
                if a == b {
                    assert_eq!(n.0[a][b], 0);
                } else {
                    assert!(n.0[a][b] == share || n.0[a][b] == share + 1);
                }
            }
        }
    }
    let eight = Network::new(8);
    assert_eq!(
        eight.0[0],
        vec![
            0,
            142_857_142,
            142_857_143,
            142_857_143,
            142_857_143,
            142_857_143,
            142_857_143,
            142_857_143
        ]
    );
}

#[test]
fn discount_below_one_never_loses_a_weight() {
    let mut n = Network(vec![vec![0, 1, -1], vec![0, 0, 0], vec![0, 0, 0]]);
    n.discount_weight(AgentId(0), AgentId(1), 500_000_000);
    assert_eq!(n.0[0][1], 1);
    n.discount_weight(AgentId(0), AgentId(1), 999_999_999);
    assert_eq!(n.0[0][1], 1);
    n.discount_weight(AgentId(0), AgentId(2), 500_000_000);
    assert_eq!(n.0[0][2], -1);
    n.discount_weight(AgentId(0), AgentId(1), SCALE);
    assert_eq!(n.0[0][1], 0);
    let mut m = Network(vec![vec![0, 7, i64::MAX, i64::MIN], vec![0; 4], vec![0; 4], vec![0; 4]]);
    for p in 1..4u32 {
        m.discount_weight(AgentId(0), AgentId(p), 0);
    }
    assert_eq!(m.0[0], vec![0, 7, i64::MAX, i64::MIN]);
    let mut w = Network(vec![vec![0, SCALE], vec![0, 0]]);
    let mut last = SCALE;
    for _ in 0..200 {
        w.discount_weight(AgentId(0), AgentId(1), 500_000_000);
        assert!(0 < w.0[0][1] && w.0[0][1] <= last);
        last = w.0[0][1];
    }
    assert_eq!(last, 1);
}

#[test]
fn discount_weight_scales_one_weight() {
    let mut n = Network::new(3);
    n.discount_weight(AgentId(0), AgentId(1), 100_000_000);
    assert_eq!(n.0[0], vec![0, 450_000_000, 500_000_000]);
    assert_eq!(n.0[1], vec![500_000_000, 0, 500_000_000]);
    n.discount_weight(AgentId(0), AgentId(1), 0);
    assert_eq!(n.0[0][1], 450_000_000);
    n.discount_weight(AgentId(0), AgentId(1), SCALE);
    assert_eq!(n.0[0][1], 0);
}

#[test]
fn discount_candidates_discounts_each_once() {
    let mut n = Network::new(4);
    n.discount_candidates(AgentId(1), &vec![3, 0], 500_000_000);
    assert_eq!(n.0[1], vec![166_666_667, 0, 333_333_333, 166_666_667]);
    n.discount_candidates(AgentId(1), &vec![2, 2], 500_000_000);
    assert_eq!(n.0[1][2], 83_333_334);
    assert_eq!(n.0[0], vec![0, 333_333_333, 333_333_333, 333_333_334]);
}

#[test]
fn reinforce_adds_to_one_weight() {
    let mut n = Network::new(3);
    n.reinforce(AgentId(2), AgentId(0), 250_000_000, false);
    assert_eq!(n.0[2], vec![750_000_000, 500_000_000, 0]);
    n.reinforce(AgentId(2), AgentId(0), -1_000_000_000, false);
    assert_eq!(n.0[2][0], -250_000_000);
    n.reinforce(AgentId(2), AgentId(1), -1_000_000_000, true);
    assert_eq!(n.0[2][1], 0);
    n.reinforce(AgentId(2), AgentId(0), 100_000_000, true);
    assert_eq!(n.0[2][0], 0);
    n.reinforce(AgentId(2), AgentId(0), 350_000_000, true);
    assert_eq!(n.0[2][0], 350_000_000);
}

#[test]
fn row_sum_adds_a_row() {
    let n = Network(vec![vec![i64::MAX, i64::MAX], vec![-3, 1]]);
    assert_eq!(n.row_sum(AgentId(0)), 2 * (i64::MAX as i128));
    assert_eq!(n.row_sum(AgentId(1)), -2);
}

#[test]
fn normalize_divides_by_the_row_sum() {
    let mut n = Network(vec![vec![0, 1, 3], vec![1, 0, 1], vec![2, 2, 0]]);
    assert_eq!(n.normalize_network_weights(AgentId(0)), Ok(()));
    assert_eq!(n.0[0], vec![0, 250_000_000, 750_000_000]);
    assert_eq!(n.0[1], vec![1, 0, 1]);
    assert_eq!(n.normalize_network_weights(AgentId(1)), Ok(()));
    assert_eq!(n.0[1], vec![500_000_000, 0, 500_000_000]);
}

#[test]
fn normalized_row_adds_up_to_exactly_one() {
    let mut n = Network(vec![
        vec![0, 1, 1, 1, 1, 1, 1],
        vec![7, 0, 11, 13, 17, 19, 23],
        vec![SCALE, 3, 0, 999, 5, 123_456_789, 1],
        vec![1, 0, 0, 0, 0, 0, 0],
        vec![i64::MAX, i64::MAX, i64::MAX, 1, 0, 2, 3],
        vec![0, 0, 0, 0, 0, 0, 9],
        vec![3, 3, 3, 3, 3, 3, 0],
    ]);
    for a in 0..7u32 {
        assert_eq!(n.normalize_network_weights(AgentId(a)), Ok(()));
        assert_eq!(row_sum_of(&n, a as usize), SCALE);
        assert!(n.0[a as usize].iter().all(|w| *w >= 0));
        assert_eq!(n.0[a as usize][a as usize], 0);
    }
    assert_eq!(
        n.0[0],
        vec![0, 166_666_666, 166_666_667, 166_666_667, 166_666_666, 166_666_667, 166_666_667]
    );
    assert_eq!(n.0[3], vec![SCALE, 0, 0, 0, 0, 0, 0]);
    assert_eq!(n.0[5], vec![0, 0, 0, 0, 0, 0, SCALE]);
}

#[test]
fn normalize_hands_back_what_rounding_takes() {
    let mut n = Network(vec![vec![0, 1, 1, 5], vec![0; 4], vec![0; 4], vec![0; 4]]);
    assert_eq!(n.normalize_network_weights(AgentId(0)), Ok(()));
    assert_eq!(n.0[0], vec![0, 142_857_142, 142_857_143, 714_285_715]);
    assert_eq!(row_sum_of(&n, 0), SCALE);
}

#[test]
fn normalize_leaves_a_normalized_row_as_it_is() {
    let mut n = Network(vec![
        vec![0, 1, 1, 1, 1000],
        vec![0; 5],
        vec![0; 5],
        vec![0; 5],
        vec![0; 5],
    ]);
    assert_eq!(n.normalize_network_weights(AgentId(0)), Ok(()));
    let once = n.0[0].clone();
    assert_eq!(once, vec![0, 997_008, 997_009, 997_009, 997_008_974]);
    assert_eq!(row_sum_of(&n, 0), SCALE);
    assert_eq!(n.normalize_network_weights(AgentId(0)), Ok(()));
    assert_eq!(n.0[0], once);
}

#[test]
fn normalize_rejects_zero_row_sum() {
    let mut n = Network(vec![vec![0, 0], vec![5, -5]]);
    assert_eq!(n.normalize_network_weights(AgentId(0)), Err(NetworkError::ZeroRowSum));
    assert_eq!(n.normalize_network_weights(AgentId(1)), Err(NetworkError::ZeroRowSum));
    assert_eq!(n.0, vec![vec![0, 0], vec![5, -5]]);
}

#[test]
fn normalize_with_negative_sum() {
    let mut n = Network(vec![vec![0, -1, -3], vec![0, 0, 0], vec![0, 0, 0]]);
    assert_eq!(n.normalize_network_weights(AgentId(0)), Ok(()));
    assert_eq!(n.0[0], vec![0, 250_000_000, 750_000_000]);
    let mut m = Network(vec![vec![0, 3, -1], vec![0, 0, 0], vec![0, 0, 0]]);
    assert_eq!(m.normalize_network_weights(AgentId(0)), Ok(()));
    assert_eq!(m.0[0], vec![0, 1_500_000_000, -500_000_000]);
}
