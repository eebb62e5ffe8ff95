use hawk_dove::agent::{Agent, AgentParameters};
use hawk_dove::network::AgentId;
use hawk_dove::payoff::{game, PayoffMap, PayoffScores};
use hawk_dove::strategy::Strategy;
use hawk_dove::tracker::{classify, AgentInteractionTracker, InteractionTracker, Pairing};

fn scores() -> PayoffScores {
    PayoffScores {
        hd: 500_000_000,
        dh: 100_000_000,
        dd: 300_000_000,
        fh: 50_000_000,
        hf: 70_000_000,
        fd: 400_000_000,
        df: 20_000_000,
        hh_f: 600_000_000,
    }
}

fn params() -> AgentParameters {
    AgentParameters {
        strat_learning_speed: 100_000_000,
        net_learning_speed: 100_000_000,
        strat_discount: 10_000_000,
        net_discount: 10_000_000,
        strat_tremble: 10_000_000,
        net_tremble: 10_000_000,
        clamp_weights: false,
    }
}

fn pair(vs: Strategy, v_score: i64, hs: Strategy, h_score: i64) -> Vec<Agent> {
    let mut v = Agent::new(AgentId(0), v_score, params());
    v.current_strategy = vs;
    let mut h = Agent::new(AgentId(1), h_score, params());
    h.current_strategy = hs;
    vec![v, h]
}

fn counts(t: &InteractionTracker) -> Vec<u64> {
    vec![
        t.hawk_hawk,
        t.hawk_dove,
        t.dove_hawk,
        t.dove_dove,
        t.fox_hawk,
        t.fox_dove,
        t.hawk_fox,
        t.dove_fox,
    ]
}

fn agent_counts(t: &AgentInteractionTracker) -> Vec<u64> {
    vec![
        t.hawk_hawk,
        t.hawk_dove,
        t.dove_hawk,
        t.dove_dove,
        t.fox_hawk,
        t.fox_dove,
        t.hawk_fox,
        t.dove_fox,
    ]
}

#[test]
fn payoff_map_takes_a_third_for_the_loser() {
    let m = PayoffMap::new(scores());
    assert_eq!(m.hh, 0);
    assert_eq!(m.win, 600_000_000);
    assert_eq!(m.lose, 200_000_000);
    assert_eq!(m.hd, 500_000_000);
    assert_eq!(m.dh, 100_000_000);
    assert_eq!(m.dd, 300_000_000);
    assert_eq!(m.fh, 50_000_000);
    assert_eq!(m.hf, 70_000_000);
    assert_eq!(m.fd, 400_000_000);
    assert_eq!(m.df, 20_000_000);
}

#[test]
fn losing_share_rounds_toward_zero() {
    let mut s = scores();
    s.hh_f = 10;
    assert_eq!(PayoffMap::new(s).lose, 3);
    s.hh_f = -10;
    assert_eq!(PayoffMap::new(s).lose, -3);
    s.hh_f = 2;
    assert_eq!(PayoffMap::new(s).lose, 0);
}

#[test]
fn resolve_looks_up_each_pair() {
    let m = PayoffMap::new(scores());
    assert_eq!(m.resolve(Strategy::Hawk, Strategy::Dove, 0, 0), (500_000_000, 100_000_000));
    assert_eq!(m.resolve(Strategy::Dove, Strategy::Hawk, 0, 0), (100_000_000, 500_000_000));
    assert_eq!(m.resolve(Strategy::Dove, Strategy::Dove, 0, 0), (300_000_000, 300_000_000));
    assert_eq!(m.resolve(Strategy::Fox, Strategy::Hawk, 0, 0), (50_000_000, 70_000_000));
    assert_eq!(m.resolve(Strategy::Fox, Strategy::Dove, 0, 0), (400_000_000, 20_000_000));
}

#[test]
fn resolve_pays_a_host_that_plays_fox() {
    let m = PayoffMap::new(scores());
    assert_eq!(m.resolve(Strategy::Hawk, Strategy::Fox, 3, 9), (70_000_000, 50_000_000));
    assert_eq!(m.resolve(Strategy::Dove, Strategy::Fox, 9, 3), (20_000_000, 400_000_000));
    assert_eq!(classify(Strategy::Hawk, Strategy::Fox), Pairing::HawkFox);
    assert_eq!(classify(Strategy::Dove, Strategy::Fox), Pairing::DoveFox);
}

#[test]
fn hawks_contest_by_score_and_host_wins_ties() {
    let m = PayoffMap::new(scores());
    assert_eq!(m.resolve(Strategy::Hawk, Strategy::Hawk, 5, 4), (600_000_000, 200_000_000));
    assert_eq!(m.resolve(Strategy::Hawk, Strategy::Hawk, 4, 5), (200_000_000, 600_000_000));
    assert_eq!(m.resolve(Strategy::Hawk, Strategy::Hawk, 5, 5), (200_000_000, 600_000_000));
    assert_eq!(m.resolve(Strategy::Hawk, Strategy::Hawk, -1, -2), (600_000_000, 200_000_000));
}

#[test]
fn classify_names_the_pair() {
    assert_eq!(classify(Strategy::Hawk, Strategy::Hawk), Pairing::HawkHawk);
    assert_eq!(classify(Strategy::Hawk, Strategy::Dove), Pairing::HawkDove);
    assert_eq!(classify(Strategy::Dove, Strategy::Hawk), Pairing::DoveHawk);
    assert_eq!(classify(Strategy::Dove, Strategy::Dove), Pairing::DoveDove);
    assert_eq!(classify(Strategy::Fox, Strategy::Hawk), Pairing::FoxHawk);
    assert_eq!(classify(Strategy::Fox, Strategy::Dove), Pairing::FoxDove);
}

#[test]
fn game_pays_and_counts_exactly_one_pair() {
    let m = PayoffMap::new(scores());
    let all = [
        (Strategy::Hawk, Strategy::Hawk, 0usize),
        (Strategy::Hawk, Strategy::Dove, 1),
        (Strategy::Dove, Strategy::Hawk, 2),
        (Strategy::Dove, Strategy::Dove, 3),
        (Strategy::Fox, Strategy::Hawk, 4),
        (Strategy::Fox, Strategy::Dove, 5),
        (Strategy::Hawk, Strategy::Fox, 6),
        (Strategy::Dove, Strategy::Fox, 7),
    ];
    for (vs, hs, slot) in all {
        let mut agents = pair(vs, 10, hs, 20);
        let mut round = InteractionTracker::new();
        let mut per_agent = vec![AgentInteractionTracker::new(), AgentInteractionTracker::new()];
        game(AgentId(0), AgentId(1), &mut agents, &m, &mut round, &mut per_agent);
        let mut expected = vec![0u64; 8];
        expected[slot] = 1;
        assert_eq!(counts(&round), expected);
        assert_eq!(counts(&round).iter().sum::<u64>(), 1);
        assert_eq!(agent_counts(&per_agent[0]), expected);
        assert_eq!(agent_counts(&per_agent[1]), expected);
        assert_eq!(per_agent[0].fox_this_round, vs == Strategy::Fox);
        assert!(!per_agent[1].fox_this_round);
        let paid = m.resolve(vs, hs, 10, 20);
        assert_eq!(agents[0].current_payoff, paid.0);
        assert_eq!(agents[1].current_payoff, paid.1);
        assert_eq!(agents[0].score, 10);
        assert_eq!(agents[1].score, 20);
        assert_eq!(agents[0].total_payoff, 0);
    }
}

#[test]
fn game_clears_the_fox_flag_of_the_visitor() {
    let m = PayoffMap::new(scores());
    let mut agents = pair(Strategy::Dove, 1, Strategy::Dove, 2);
    let mut round = InteractionTracker::new();
    let mut per_agent = vec![AgentInteractionTracker::new(), AgentInteractionTracker::new()];
    per_agent[0].fox_this_round = true;
    per_agent[1].fox_this_round = true;
    game(AgentId(0), AgentId(1), &mut agents, &m, &mut round, &mut per_agent);
    assert!(!per_agent[0].fox_this_round);
    assert!(per_agent[1].fox_this_round);
}

#[test]
fn game_with_visitor_at_higher_place() {
    let m = PayoffMap::new(scores());
    let mut agents = pair(Strategy::Hawk, 3, Strategy::Hawk, 9);
    let mut round = InteractionTracker::new();
    let mut per_agent = vec![AgentInteractionTracker::new(), AgentInteractionTracker::new()];
    game(AgentId(1), AgentId(0), &mut agents, &m, &mut round, &mut per_agent);
    assert_eq!(agents[1].current_payoff, 600_000_000);
    assert_eq!(agents[0].current_payoff, 200_000_000);
    assert_eq!(round.hawk_hawk, 1);
}

#[test]
fn tracker_record_counts_up() {
    let mut t = InteractionTracker::new();
    t.record(Pairing::FoxDove);
    t.record(Pairing::FoxDove);
    t.record(Pairing::HawkDove);
    assert_eq!(counts(&t), vec![0, 1, 0, 0, 0, 2, 0, 0]);
    t.record(Pairing::HawkFox);
    t.record(Pairing::DoveFox);
    assert_eq!(counts(&t), vec![0, 1, 0, 0, 0, 2, 1, 1]);
    let mut a = AgentInteractionTracker::new();
    a.fox_this_round = true;
    a.record(Pairing::DoveHawk);
    assert_eq!(agent_counts(&a), vec![0, 0, 1, 0, 0, 0, 0, 0]);
    a.record(Pairing::DoveFox);
    assert_eq!(agent_counts(&a), vec![0, 0, 1, 0, 0, 0, 0, 1]);
    assert!(a.fox_this_round);
}
