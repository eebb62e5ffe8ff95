use hawk_dove::tracker::{AgentInteractionTracker, InteractionTracker};

#[test]
fn new_round_tracker_counts_nothing() {
    let t = InteractionTracker::new();
    assert_eq!(t.hawk_hawk, 0);
    assert_eq!(t.hawk_dove, 0);
    assert_eq!(t.dove_hawk, 0);
    assert_eq!(t.dove_dove, 0);
    assert_eq!(t.fox_hawk, 0);
    assert_eq!(t.fox_dove, 0);
    assert_eq!(t.hawk_fox, 0);
    assert_eq!(t.dove_fox, 0);
}

#[test]
fn default_tracker_spreads_population_in_quarters() {
    let t = InteractionTracker::default(22);
    assert_eq!(t.hawk_hawk, 5);
    assert_eq!(t.hawk_dove, 5);
    assert_eq!(t.dove_hawk, 5);
    assert_eq!(t.dove_dove, 5);
    assert_eq!(t.fox_hawk, 0);
    assert_eq!(t.fox_dove, 0);
    assert_eq!(t.hawk_fox, 0);
    assert_eq!(t.dove_fox, 0);
}

#[test]
fn new_agent_tracker_counts_nothing() {
    let t = AgentInteractionTracker::new();
    assert_eq!(t.hawk_hawk + t.hawk_dove + t.dove_hawk + t.dove_dove + t.fox_hawk + t.fox_dove, 0);
    assert_eq!(t.hawk_fox + t.dove_fox, 0);
    assert!(!t.fox_this_round);
}
