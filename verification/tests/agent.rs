use hawk_dove::agent::{settle_partner, Agent, AgentParameters};
use hawk_dove::fixed::SCALE;
use hawk_dove::network::{AgentId, Network};
use hawk_dove::random::RandomSource;
use hawk_dove::strategy::{Role, Strategy};

fn params() -> AgentParameters {
    AgentParameters {
        strat_learning_speed: 500_000_000,
        net_learning_speed: 250_000_000,
        strat_discount: 100_000_000,
        net_discount: 200_000_000,
        strat_tremble: 10_000_000,
        net_tremble: 10_000_000,
        clamp_weights: false,
    }
}

#[test]
fn new_agent_is_fresh() {
    let a = Agent::new(AgentId(4), 123, params());
    assert_eq!(a.agent_id, AgentId(4));
    assert_eq!(a.agent_param, params());
    assert_eq!(a.score, 123);
    assert_eq!(a.total_payoff, 0);
    assert_eq!(a.current_partner, AgentId(0));
    assert_eq!(a.strategy.visit, vec![SCALE, SCALE, SCALE]);
    assert_eq!(a.strategy.host, vec![SCALE, SCALE]);
    assert_eq!(a.current_strategy, Strategy::Undecided);
    assert_eq!(a.current_payoff, 0);
    assert_eq!(a.morality_rate, SCALE);
    assert_eq!(a.deviancy_rate, SCALE);
    assert!(!a.deviant);
}

#[test]
fn set_deviancy_compares_draw_with_morality_share() {
    let mut a = Agent::new(AgentId(0), 0, params());
    a.set_deviancy(499_999_999);
    assert!(!a.deviant);
    a.set_deviancy(500_000_000);
    assert!(a.deviant);
    a.morality_rate = 3 * SCALE;
    a.set_deviancy(749_999_999);
    assert!(!a.deviant);
    a.set_deviancy(750_000_000);
    assert!(a.deviant);
    a.morality_rate = 0;
    a.deviancy_rate = 0;
    a.set_deviancy(0);
    assert!(a.deviant);
}

#[test]
fn explore_plays_the_drawn_strategy_and_decays() {
    let mut a = Agent::new(AgentId(0), 0, params());
    a.explore(Role::Host, 1);
    assert_eq!(a.current_strategy, Strategy::Dove);
    assert_eq!(a.strategy.host, vec![900_000_000, 900_000_000]);
    assert_eq!(a.strategy.visit, vec![SCALE, SCALE, SCALE]);
    a.explore(Role::Visitor, 0);
    assert_eq!(a.current_strategy, Strategy::Hawk);
    assert_eq!(a.strategy.visit, vec![900_000_000, 900_000_000, SCALE]);
    a.deviant = true;
    a.explore(Role::Visitor, 2);
    assert_eq!(a.current_strategy, Strategy::Fox);
    assert_eq!(a.strategy.visit, vec![810_000_000, 810_000_000, 900_000_000]);
    assert_eq!(a.strategy.host, vec![900_000_000, 900_000_000]);
}

#[test]
fn exploit_spins_over_the_weights() {
    let mut a = Agent::new(AgentId(0), 0, params());
    a.strategy.host = vec![SCALE, 3 * SCALE];
    a.exploit(Role::Host, &vec![0, 1], 250_000_000);
    assert_eq!(a.current_strategy, Strategy::Hawk);
    assert_eq!(a.strategy.host, vec![900_000_000, 2_700_000_000]);
    a.exploit(Role::Host, &vec![0, 1], 250_000_001);
    assert_eq!(a.current_strategy, Strategy::Dove);
    a.strategy.host = vec![SCALE, 3 * SCALE];
    a.exploit(Role::Host, &vec![1, 0], 750_000_000);
    assert_eq!(a.current_strategy, Strategy::Dove);
    a.exploit(Role::Host, &vec![1, 0], 750_000_001);
    assert_eq!(a.current_strategy, Strategy::Hawk);
}

#[test]
fn exploit_falls_back_to_last_of_order_on_zero_total() {
    let mut a = Agent::new(AgentId(0), 0, params());
    a.strategy.host = vec![0, 0];
    a.exploit(Role::Host, &vec![0, 1], 0);
    assert_eq!(a.current_strategy, Strategy::Dove);
    a.exploit(Role::Host, &vec![1, 0], 0);
    assert_eq!(a.current_strategy, Strategy::Hawk);
    a.deviant = true;
    a.strategy.visit = vec![5, -5, 0];
    a.exploit(Role::Visitor, &vec![1, 2, 0], 300_000_000);
    assert_eq!(a.current_strategy, Strategy::Hawk);
    a.strategy.visit = vec![5, -5, 0];
    a.exploit(Role::Visitor, &vec![1, 0, 2], 300_000_000);
    assert_eq!(a.current_strategy, Strategy::Fox);
}

#[test]
fn exploit_leaves_fox_alone_unless_deviant() {
    let mut a = Agent::new(AgentId(0), 0, params());
    a.strategy.visit = vec![0, 0, 9 * SCALE];
    a.exploit(Role::Visitor, &vec![0, 1], 999_999_999);
    assert_eq!(a.current_strategy, Strategy::Dove);
    assert_eq!(a.strategy.visit, vec![0, 0, 9 * SCALE]);
    a.deviant = true;
    a.exploit(Role::Visitor, &vec![0, 1, 2], 999_999_999);
    assert_eq!(a.current_strategy, Strategy::Fox);
    assert_eq!(a.strategy.visit, vec![0, 0, 8_100_000_000]);
}

#[test]
fn choose_strategy_plays_an_open_strategy_and_decays_once() {
    let mut rng = RandomSource::new(17);
    let mut fox = 0;
    for _ in 0..300 {
        let mut a = Agent::new(AgentId(0), 0, params());
        a.choose_strategy(Role::Host, &mut rng);
        assert!(a.current_strategy == Strategy::Hawk || a.current_strategy == Strategy::Dove);
        assert_eq!(a.strategy.host, vec![900_000_000, 900_000_000]);
        assert_eq!(a.strategy.visit, vec![SCALE, SCALE, SCALE]);
        a.choose_strategy(Role::Visitor, &mut rng);
        assert_ne!(a.current_strategy, Strategy::Undecided);
        if a.deviant {
            assert_eq!(a.strategy.visit, vec![900_000_000, 900_000_000, 900_000_000]);
        } else {
            assert_ne!(a.current_strategy, Strategy::Fox);
            assert_eq!(a.strategy.visit, vec![900_000_000, 900_000_000, SCALE]);
        }
        if a.current_strategy == Strategy::Fox {
            fox += 1;
        }
        assert_eq!(a.strategy.host, vec![900_000_000, 900_000_000]);
        assert_eq!(a.score, 0);
        assert_eq!(a.total_payoff, 0);
    }
    assert!(fox > 0);
}

#[test]
fn choose_strategy_with_certain_tremble_is_uniform() {
    let mut rng = RandomSource::new(23);
    let mut p = params();
    p.strat_tremble = SCALE;
    p.strat_discount = 0;
    let mut a = Agent::new(AgentId(0), 0, p);
    a.strategy.host = vec![0, 1_000_000 * SCALE];
    let mut hawk = 0;
    let rounds = 4000;
    for _ in 0..rounds {
        a.choose_strategy(Role::Host, &mut rng);
        if a.current_strategy == Strategy::Hawk {
            hawk += 1;
        }
    }
    assert!(hawk > rounds * 45 / 100 && hawk < rounds * 55 / 100);
    assert_eq!(a.strategy.host, vec![0, 1_000_000 * SCALE]);
}

#[test]
fn choose_strategy_without_tremble_follows_the_weights() {
    let mut rng = RandomSource::new(29);
    let mut p = params();
    p.strat_tremble = 0;
    p.strat_discount = 0;
    let mut a = Agent::new(AgentId(0), 0, p);
    a.strategy.host = vec![0, SCALE];
    for _ in 0..500 {
        a.choose_strategy(Role::Host, &mut rng);
        assert_eq!(a.current_strategy, Strategy::Dove);
    }
}

#[test]
fn add_strategy_payoff_reinforces_the_played_strategy() {
    let mut a = Agent::new(AgentId(0), 0, params());
    a.current_strategy = Strategy::Dove;
    a.current_payoff = 600_000_000;
    a.add_strategy_payoff(Role::Host);
    assert_eq!(a.strategy.host, vec![SCALE, 1_300_000_000]);
    assert_eq!(a.strategy.visit, vec![SCALE, SCALE, SCALE]);
    assert_eq!(a.total_payoff, 600_000_000);
    a.current_strategy = Strategy::Fox;
    a.current_payoff = -4 * SCALE;
    a.add_strategy_payoff(Role::Visitor);
    assert_eq!(a.strategy.visit, vec![SCALE, SCALE, -SCALE]);
    assert_eq!(a.total_payoff, -3_400_000_000);
}

#[test]
fn add_strategy_payoff_can_hold_weights_at_zero() {
    let mut p = params();
    p.clamp_weights = true;
    let mut a = Agent::new(AgentId(0), 0, p);
    a.current_strategy = Strategy::Hawk;
    a.current_payoff = -4 * SCALE;
    a.add_strategy_payoff(Role::Visitor);
    assert_eq!(a.strategy.visit, vec![0, SCALE, SCALE]);
    assert_eq!(a.total_payoff, -4 * SCALE);
}

#[test]
fn zero_discount_and_nonnegative_payoffs_never_lower_a_weight() {
    let mut rng = RandomSource::new(31);
    let mut p = params();
    p.strat_discount = 0;
    let mut a = Agent::new(AgentId(0), 0, p);
    for round in 0..500i64 {
        let before_host = a.strategy.host.clone();
        let before_visit = a.strategy.visit.clone();
        let role = if round % 2 == 0 { Role::Host } else { Role::Visitor };
        a.choose_strategy(role, &mut rng);
        a.current_payoff = (round % 7) * 100_000_000;
        a.add_strategy_payoff(role);
        for j in 0..2 {
            assert!(a.strategy.host[j] >= before_host[j]);
        }
        for j in 0..3 {
            assert!(a.strategy.visit[j] >= before_visit[j]);
        }
    }
    assert!(a.strategy.host[0] + a.strategy.host[1] > 2 * SCALE);
}

#[test]
fn update_score_takes_the_total() {
    let mut a = Agent::new(AgentId(0), 77, params());
    a.total_payoff = 12;
    a.update_score();
    assert_eq!(a.score, 12);
    assert_eq!(a.total_payoff, 12);
}

#[test]
fn morality_rates_decay_and_take_the_payoff() {
    let mut a = Agent::new(AgentId(0), 0, params());
    a.discount_morality();
    assert_eq!(a.morality_rate, 900_000_000);
    assert_eq!(a.deviancy_rate, 900_000_000);
    a.current_payoff = 400_000_000;
    a.add_morality_payoff();
    assert_eq!(a.morality_rate, 1_100_000_000);
    assert_eq!(a.deviancy_rate, 900_000_000);
    a.deviant = true;
    a.add_morality_payoff();
    assert_eq!(a.morality_rate, 1_100_000_000);
    assert_eq!(a.deviancy_rate, 1_100_000_000);
}

#[test]
fn add_network_payoff_reinforces_the_edge_to_the_partner() {
    let mut network = Network::new(3);
    let mut a = Agent::new(AgentId(1), 0, params());
    a.current_partner = AgentId(2);
    a.current_payoff = 400_000_000;
    a.add_network_payoff(&mut network);
    assert_eq!(network.0[1], vec![500_000_000, 0, 600_000_000]);
    assert_eq!(network.0[2], vec![500_000_000, 500_000_000, 0]);
    a.current_payoff = -4 * SCALE;
    a.add_network_payoff(&mut network);
    assert_eq!(network.0[1][2], -400_000_000);
    a.agent_param.clamp_weights = true;
    a.add_network_payoff(&mut network);
    assert_eq!(network.0[1][2], 0);
}

#[test]
fn partner_pick_picks_a_candidate_and_discounts_them_all() {
    let mut rng = RandomSource::new(37);
    let mut seen = vec![false; 4];
    for _ in 0..200 {
        let mut network = Network::new(4);
        let mut a = Agent::new(AgentId(1), 0, params());
        let candidates = vec![3, 0, 2];
        let partner = a.partner_pick(&candidates, &mut network, &mut rng);
        assert!(candidates.contains(&(partner.0 as usize)));
        assert_eq!(a.current_partner, partner);
        assert_eq!(network.0[1], vec![266_666_667, 0, 266_666_667, 266_666_668]);
        assert_eq!(network.0[0], vec![0, 333_333_333, 333_333_333, 333_333_334]);
        seen[partner.0 as usize] = true;
    }
    assert_eq!(seen, vec![true, false, true, true]);
}

#[test]
fn partner_pick_without_tremble_follows_the_weights() {
    let mut rng = RandomSource::new(41);
    let mut p = params();
    p.net_tremble = 0;
    for _ in 0..200 {
        let mut network = Network(vec![vec![0, 0, SCALE], vec![0, 0, 0], vec![0, 0, 0]]);
        let mut a = Agent::new(AgentId(0), 0, p);
        let partner = a.partner_pick(&vec![1, 2], &mut network, &mut rng);
        assert!(partner == AgentId(2) || partner == AgentId(1));
        if partner == AgentId(1) {
            panic!("a candidate of weight zero was chosen over one of weight one");
        }
    }
}

#[test]
fn partner_pick_on_zero_row_picks_uniformly() {
    let mut rng = RandomSource::new(43);
    let mut p = params();
    p.net_tremble = 0;
    let mut seen = vec![false; 3];
    for _ in 0..200 {
        let mut network = Network(vec![vec![0, 0, 0], vec![0, 0, 0], vec![0, 0, 0]]);
        let mut a = Agent::new(AgentId(0), 0, p);
        let partner = a.partner_pick(&vec![1, 2], &mut network, &mut rng);
        seen[partner.0 as usize] = true;
    }
    assert_eq!(seen, vec![false, true, true]);
}

#[test]
fn partner_pick_without_candidates_stays_with_the_partner() {
    let mut rng = RandomSource::new(47);
    let mut network = Network::new(3);
    let mut a = Agent::new(AgentId(1), 0, params());
    a.current_partner = AgentId(2);
    let partner = a.partner_pick(&vec![], &mut network, &mut rng);
    assert_eq!(partner, AgentId(2));
    assert_eq!(a.current_partner, AgentId(2));
    assert_eq!(network.0, Network::new(3).0);
}

#[test]
fn settle_partner_trembles_or_follows_the_wheel() {
    let weights = vec![0, 250_000_000, 750_000_000];
    let candidates = vec![1, 2];
    assert_eq!(settle_partner(&weights, &candidates, 10_000_000, 9_999_999, 0), None);
    assert_eq!(settle_partner(&weights, &candidates, 10_000_000, 10_000_000, 0), Some(1));
    assert_eq!(settle_partner(&weights, &candidates, 10_000_000, 10_000_000, 250_000_000), Some(1));
    assert_eq!(settle_partner(&weights, &candidates, 10_000_000, 10_000_000, 250_000_001), Some(2));
    assert_eq!(settle_partner(&weights, &candidates, 0, 0, 999_999_999), Some(2));
    assert_eq!(settle_partner(&weights, &vec![2, 1], 0, 0, 750_000_000), Some(2));
    assert_eq!(settle_partner(&weights, &vec![2, 1], 0, 0, 750_000_001), Some(1));
    assert_eq!(settle_partner(&weights, &candidates, SCALE, 999_999_999, 0), None);
    assert_eq!(settle_partner(&vec![0, 0, 0], &candidates, 0, 0, 0), None);
    assert_eq!(settle_partner(&weights, &vec![], 0, 0, 0), None);
}

#[test]
fn settle_strategy_follows_its_draws() {
    let mut p = params();
    p.strat_tremble = 100_000_000;
    let mut a = Agent::new(AgentId(0), 0, p);
    a.strategy.host = vec![250_000_000, 750_000_000];
    a.settle_strategy(Role::Host, 0, 99_999_999, 0, &vec![1, 0], 999_999_999);
    assert!(!a.deviant);
    assert_eq!(a.current_strategy, Strategy::Hawk);
    assert_eq!(a.strategy.host, vec![225_000_000, 675_000_000]);
    assert_eq!(a.strategy.visit, vec![SCALE, SCALE, SCALE]);

    let mut b = Agent::new(AgentId(0), 0, p);
    b.strategy.host = vec![250_000_000, 750_000_000];
    b.settle_strategy(Role::Host, 0, 100_000_000, 0, &vec![0, 1], 250_000_000);
    assert_eq!(b.current_strategy, Strategy::Hawk);
    b.settle_strategy(Role::Host, 0, 100_000_000, 0, &vec![0, 1], 250_000_001);
    assert_eq!(b.current_strategy, Strategy::Dove);
    b.settle_strategy(Role::Host, 0, 100_000_000, 0, &vec![1, 0], 250_000_001);
    assert_eq!(b.current_strategy, Strategy::Dove);

    let mut c = Agent::new(AgentId(0), 0, p);
    c.settle_strategy(Role::Visitor, 500_000_000, 0, 2, &vec![0, 1, 2], 0);
    assert!(c.deviant);
    assert_eq!(c.current_strategy, Strategy::Fox);
    assert_eq!(c.strategy.visit, vec![900_000_000, 900_000_000, 900_000_000]);
    c.settle_strategy(Role::Visitor, 499_999_999, 999_999_999, 1, &vec![1, 0], 0);
    assert!(!c.deviant);
    assert_eq!(c.current_strategy, Strategy::Dove);
    assert_eq!(c.strategy.visit, vec![810_000_000, 810_000_000, 900_000_000]);
}

#[test]
fn deviancy_for_reads_the_draw() {
    let a = Agent::new(AgentId(0), 0, params());
    assert!(!a.deviancy_for(499_999_999));
    assert!(a.deviancy_for(500_000_000));
}

#[test]
fn morality_rates_never_reach_zero_below_full_discount() {
    let mut p = params();
    p.strat_discount = 900_000_000;
    let mut a = Agent::new(AgentId(0), 0, p);
    for _ in 0..40 {
        a.discount_morality();
        assert!(a.morality_rate > 0 && a.deviancy_rate > 0);
    }
    assert_eq!(a.morality_rate, 1);
    a.agent_param.strat_discount = SCALE;
    a.discount_morality();
    assert_eq!(a.morality_rate, 0);
}
