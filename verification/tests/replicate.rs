use hawk_dove::agent::AgentParameters;
use hawk_dove::fixed::SCALE;
use hawk_dove::network::AgentId;
use hawk_dove::payoff::{PayoffMap, PayoffScores};
use hawk_dove::replicate::{Replicate, ReplicateError};
use hawk_dove::strategy::Strategy;

fn params() -> AgentParameters {
    AgentParameters {
        strat_learning_speed: 100_000_000,
        net_learning_speed: 100_000_000,
        strat_discount: 10_000_000,
        net_discount: 10_000_000,
        strat_tremble: 50_000_000,
        net_tremble: 50_000_000,
        clamp_weights: false,
    }
}

fn table() -> PayoffMap {
    PayoffMap::new(PayoffScores {
        hd: 500_000_000,
        dh: 100_000_000,
        dd: 300_000_000,
        fh: 50_000_000,
        hf: 70_000_000,
        fd: 400_000_000,
        df: 20_000_000,
        hh_f: 600_000_000,
    })
}

#[test]
fn replicate_needs_two_agents() {
    assert!(matches!(
        Replicate::new(0, params(), table(), false, 1),
        Err(ReplicateError::PopulationTooSmall)
    ));
    assert!(matches!(
        Replicate::new(1, params(), table(), false, 1),
        Err(ReplicateError::PopulationTooSmall)
    ));
    assert!(Replicate::new(2, params(), table(), false, 1).is_ok());
}

#[test]
fn new_replicate_is_fresh() {
    let r = match Replicate::new(4, params(), table(), true, 9) {
        Ok(r) => r,
        Err(_) => panic!("a population of four was refused"),
    };
    assert_eq!(r.round(), 0);
    assert_eq!(r.population(), 4);
    assert!(r.can_advance());
    assert_eq!(r.agents().len(), 4);
    assert_eq!(r.trackers().len(), 4);
    for (i, a) in r.agents().iter().enumerate() {
        assert_eq!(a.agent_id, AgentId(i as u32));
        assert_eq!(a.agent_param, params());
        assert!(0 <= a.score && a.score < SCALE);
        assert_eq!(a.total_payoff, 0);
        assert_eq!(a.current_strategy, Strategy::Undecided);
        assert_eq!(a.strategy.visit, vec![SCALE, SCALE, SCALE]);
        assert_eq!(a.strategy.host, vec![SCALE, SCALE]);
    }
    assert_eq!(r.network().0[1], vec![333_333_333, 0, 333_333_333, 333_333_334]);
    for row in r.network().0.iter() {
        assert_eq!(row.iter().sum::<i64>(), SCALE);
    }
    for t in r.trackers().iter() {
        assert_eq!(t.hawk_hawk
        + t.hawk_dove
        + t.dove_hawk
        + t.dove_dove
        + t.fox_hawk
        + t.fox_dove
        + t.hawk_fox
        + t.dove_fox, 0);
    }
}

#[test]
fn step_plays_one_round() {
    let mut r = match Replicate::new(3, params(), table(), false, 5) {
        Ok(r) => r,
        Err(_) => panic!("a population of three was refused"),
    };
    for i in 1..=50u64 {
        let (next, t) = r.step();
        r = next;
        let t = t.unwrap();
        assert_eq!(t.hawk_hawk
        + t.hawk_dove
        + t.dove_hawk
        + t.dove_dove
        + t.fox_hawk
        + t.fox_dove
        + t.hawk_fox
        + t.dove_fox, 3);
        assert_eq!(r.round(), i);
        assert_eq!(r.population(), 3);
        for (a, row) in r.network().0.iter().enumerate() {
            assert_eq!(row.iter().sum::<i64>(), SCALE);
            assert!(row.iter().all(|w| *w >= 0));
            assert_eq!(row[a], 0);
        }
    }
}

#[test]
fn advance_latches_scores_at_round_one_thousand() {
    let mut r = match Replicate::new(2, params(), table(), true, 77) {
        Ok(r) => r,
        Err(_) => panic!("a population of two was refused"),
    };
    let first: Vec<i64> = r.agents().iter().map(|a| a.score).collect();
    for i in 1..=1000u64 {
        let (next, _) = r.advance();
        r = next;
        let now: Vec<i64> = r.agents().iter().map(|a| a.score).collect();
        if i < 1000 {
            assert_eq!(now, first);
        } else {
            let totals: Vec<i64> = r.agents().iter().map(|a| a.total_payoff).collect();
            assert_eq!(now, totals);
        }
    }
}

#[test]
fn replicates_of_one_seed_agree() {
    let mut snapshots: Vec<Vec<i64>> = Vec::new();
    for _ in 0..2 {
        let mut r = match Replicate::new(4, params(), table(), false, 2024) {
            Ok(r) => r,
            Err(_) => panic!("a population of four was refused"),
        };
        let mut seen: Vec<i64> = r.agents().iter().map(|a| a.score).collect();
        for _ in 0..100 {
            let (next, _) = r.step();
            r = next;
            seen.extend(r.network().0.iter().flat_map(|row| row.iter().cloned()));
            seen.extend(r.agents().iter().map(|a| a.total_payoff));
        }
        snapshots.push(seen);
    }
    assert_eq!(snapshots[0], snapshots[1]);
}

#[test]
fn replicates_of_different_seeds_differ() {
    let a = match Replicate::new(6, params(), table(), false, 1) {
        Ok(r) => r,
        Err(_) => panic!("a population of six was refused"),
    };
    let b = match Replicate::new(6, params(), table(), false, 2) {
        Ok(r) => r,
        Err(_) => panic!("a population of six was refused"),
    };
    let sa: Vec<i64> = a.agents().iter().map(|x| x.score).collect();
    let sb: Vec<i64> = b.agents().iter().map(|x| x.score).collect();
    assert_ne!(sa, sb);
}
