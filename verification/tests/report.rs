use hawk_dove::agent::{Agent, AgentParameters};
use hawk_dove::config::CSVFiles;
use hawk_dove::fixed::SCALE;
use hawk_dove::network::{AgentId, Network};
use hawk_dove::report::{
    column_sums, frequencies, interaction_record, is_snapshot_round, outputs_due, shares,
    rank_record, ranks, scores_record, share, strategy_host_record, strategy_visit_record,
    total_payoff_record, weights_record,
};
use hawk_dove::tracker::{AgentInteractionTracker, InteractionTracker};

fn params() -> AgentParameters {
    AgentParameters {
        strat_learning_speed: 100_000_000,
        net_learning_speed: 100_000_000,
        strat_discount: 10_000_000,
        net_discount: 10_000_000,
        strat_tremble: 50_000_000,
        net_tremble: 50_000_000,
        clamp_weights: false,
    }
}

fn all_reports() -> CSVFiles {
    CSVFiles {
        weights: true,
        scores: true,
        totalinteractions: true,
        evostats: true,
        strategyvisit: true,
        strategyhost: true,
        netstd: true,
        outscore: true,
        totalpayoff: true,
    }
}

#[test]
fn snapshot_rounds_thin_out_by_decades() {
    let expected: Vec<u64> = vec![
        1, 2, 3, 4, 5, 6, 7, 8, 9, 10, 20, 30, 40, 50, 60, 70, 80, 90, 100, 200, 300, 400, 500,
        600, 700, 800, 900, 1000, 2000, 3000, 4000, 5000, 6000, 7000, 8000, 9000, 10000, 20000,
        30000, 40000, 50000, 60000, 70000, 80000, 90000, 100000,
    ];
    let mut found: Vec<u64> = Vec::new();
    for i in 0..=100_001u64 {
        if is_snapshot_round(i) {
            found.push(i);
        }
    }
    assert_eq!(found, expected);
    assert!(!is_snapshot_round(0));
    assert!(!is_snapshot_round(200_000));
    assert!(!is_snapshot_round(u64::MAX));
}

#[test]
fn gated_reports_are_due_at_snapshot_rounds_only() {
    assert_eq!(outputs_due(10, &all_reports()), all_reports());
    let between = outputs_due(11, &all_reports());
    assert!(!between.weights && !between.scores && !between.totalinteractions);
    assert!(between.evostats && between.strategyvisit && between.strategyhost);
    assert!(between.netstd && between.outscore && between.totalpayoff);
    let start = outputs_due(0, &all_reports());
    assert!(!start.weights && !start.scores && !start.totalinteractions && start.evostats);
    let mut some = all_reports();
    some.weights = false;
    some.netstd = false;
    let due = outputs_due(1000, &some);
    assert_eq!(due, some);
}

#[test]
fn weights_record_lists_rows_in_order() {
    let n = Network(vec![vec![0, 1, 2], vec![3, 0, 4], vec![5, 6, 0]]);
    assert_eq!(weights_record(&n), vec![0, 1, 2, 3, 0, 4, 5, 6, 0]);
    assert_eq!(weights_record(&Network(Vec::new())), Vec::<i64>::new());
}

#[test]
fn column_sums_add_what_each_agent_receives() {
    let n = Network(vec![vec![0, 1, 2], vec![3, 0, 4], vec![5, 6, 0]]);
    assert_eq!(column_sums(3, &n), vec![8, 7, 6]);
    assert_eq!(column_sums(2, &n), vec![3, 1]);
    assert_eq!(column_sums(0, &n), Vec::<i128>::new());
}

#[test]
fn ranks_share_the_best_place_among_equals() {
    assert_eq!(ranks(&vec![5, 5, 3]), vec![1, 1, 3]);
    assert_eq!(ranks(&vec![1, 2, 3, 4]), vec![4, 3, 2, 1]);
    assert_eq!(ranks(&vec![7, 7, 7]), vec![1, 1, 1]);
    assert_eq!(ranks(&vec![-1, 10, -1, 10, 0]), vec![4, 1, 4, 1, 3]);
    assert_eq!(ranks(&Vec::new()), Vec::<usize>::new());
    assert_eq!(ranks(&vec![i64::MIN, i64::MAX]), vec![2, 1]);
}

#[test]
fn records_read_the_agents() {
    let mut agents = vec![
        Agent::new(AgentId(0), 30, params()),
        Agent::new(AgentId(1), 10, params()),
        Agent::new(AgentId(2), 30, params()),
    ];
    agents[0].total_payoff = 4;
    agents[1].total_payoff = 5;
    agents[2].total_payoff = 6;
    assert_eq!(scores_record(&agents), vec![30, 10, 30]);
    assert_eq!(total_payoff_record(3, &agents), vec![4, 5, 6]);
    assert_eq!(total_payoff_record(2, &agents), vec![4, 5]);
    assert_eq!(rank_record(3, &agents), vec![1, 3, 1]);
    assert_eq!(rank_record(2, &agents), vec![1, 2]);
}

#[test]
fn share_is_a_part_of_the_sum() {
    assert_eq!(share(1, 3), Some(250_000_000));
    assert_eq!(share(3, 1), Some(750_000_000));
    assert_eq!(share(0, 0), None);
    assert_eq!(share(5, -5), None);
    assert_eq!(share(i64::MAX, i64::MAX), Some(500_000_000));
    assert_eq!(share(-1, -3), Some(250_000_000));
}

#[test]
fn strategy_records_give_hawk_and_dove_shares() {
    let mut agents = vec![Agent::new(AgentId(0), 0, params()), Agent::new(AgentId(1), 0, params())];
    agents[0].strategy.visit = vec![SCALE, 3 * SCALE, 9 * SCALE];
    agents[1].strategy.visit = vec![0, 0, SCALE];
    agents[1].strategy.host = vec![4, 1];
    assert_eq!(
        strategy_visit_record(&agents),
        vec![Some(250_000_000), Some(750_000_000), None, None]
    );
    assert_eq!(
        strategy_host_record(&agents),
        vec![Some(500_000_000), Some(500_000_000), Some(800_000_000), Some(200_000_000)]
    );
}

#[test]
fn interaction_record_lists_six_counters_per_agent() {
    let mut a = AgentInteractionTracker::new();
    a.hawk_hawk = 1;
    a.hawk_dove = 2;
    a.dove_hawk = 3;
    a.dove_dove = 4;
    a.fox_hawk = 5;
    a.fox_dove = 6;
    let b = AgentInteractionTracker::new();
    assert_eq!(interaction_record(2, &vec![a, b]), vec![1, 2, 3, 4, 5, 6, 0, 0, 0, 0, 0, 0]);
    assert_eq!(interaction_record(1, &vec![a, b]), vec![1, 2, 3, 4, 5, 6]);
}

#[test]
fn frequencies_are_counts_over_population() {
    let mut t = InteractionTracker::new();
    t.hawk_hawk = 1;
    t.hawk_dove = 2;
    t.dove_dove = 5;
    assert_eq!(
        frequencies(&t, 8),
        Some(vec![125_000_000, 250_000_000, 0, 625_000_000, 0, 0, 0, 0])
    );
    assert_eq!(frequencies(&t, 0), None);
    assert_eq!(shares(&vec![1], 3), vec![333_333_333]);
    assert_eq!(shares(&vec![u64::MAX], 1), vec![i64::MAX]);
    let start = InteractionTracker::default(20);
    assert_eq!(
        frequencies(&start, 20),
        Some(vec![250_000_000, 250_000_000, 250_000_000, 250_000_000, 0, 0, 0, 0])
    );
}

#[test]
fn frequencies_of_a_full_round_add_up_to_one() {
    let mut t = InteractionTracker::new();
    t.hawk_hawk = 1;
    t.hawk_dove = 1;
    t.dove_hawk = 1;
    t.dove_dove = 4;
    let parts = frequencies(&t, 7).unwrap();
    assert_eq!(
        parts,
        vec![142_857_142, 142_857_143, 142_857_143, 571_428_572, 0, 0, 0, 0]
    );
    assert_eq!(parts.iter().sum::<i64>(), SCALE);
    for pop in 1..40u64 {
        for hawks in 0..=pop {
            for foxes in 0..=(pop - hawks) {
                let mut t = InteractionTracker::new();
                t.hawk_hawk = hawks;
                t.fox_dove = foxes;
                t.dove_hawk = pop - hawks - foxes;
                let parts = frequencies(&t, pop as usize).unwrap();
                assert_eq!(parts.iter().sum::<i64>(), SCALE);
                assert!(parts.iter().all(|p| *p >= 0));
                let exact = (hawks as i128 * SCALE as i128) / pop as i128;
                assert!(parts[0] as i128 == exact || parts[0] as i128 == exact + 1);
            }
        }
    }
}

#[test]
fn shares_round_each_count_down_or_up() {
    assert_eq!(shares(&vec![1, 1, 1], 3), vec![333_333_333, 333_333_333, 333_333_334]);
    assert_eq!(shares(&vec![], 5), Vec::<i64>::new());
    assert_eq!(shares(&vec![2, 0, 1], 6), vec![333_333_333, 0, 166_666_667]);
}
