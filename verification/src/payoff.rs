//! The payoff table and the resolution of one meeting.

use vstd::prelude::*;

use crate::agent::Agent;
use crate::network::AgentId;
use crate::strategy::Strategy;
use crate::tracker::{
    classify, pairing_of, playable, AgentInteractionTracker, InteractionTracker, Pairing,
};

verus! {

/// The payoffs as they are configured. The first letter of a name is the
/// strategy of the agent that is paid, the second the strategy it met;
/// `hh_f` is what the winner of a contest between two Hawks receives.
#[derive(Clone, Copy, Debug, PartialEq, Eq, Structural)]
pub struct PayoffScores {
    pub hd: i64,
    pub dh: i64,
    pub dd: i64,
    pub fh: i64,
    pub hf: i64,
    pub fd: i64,
    pub df: i64,
    pub hh_f: i64,
}

/// The payoff table of a replicate.
#[derive(Clone, Copy, Debug, PartialEq, Eq, Structural)]
pub struct PayoffMap {
    pub hh: i64,
    pub hd: i64,
    pub dh: i64,
    pub dd: i64,
    pub fh: i64,
    pub hf: i64,
    pub fd: i64,
    pub df: i64,
    pub win: i64,
    pub lose: i64,
}

/// The loser's payoff in a contest: a third of the winner's, rounded toward
/// zero.
pub open spec fn losing_share(win: int) -> int {
    if win >= 0 {
        win / 3
    } else {
        -((-win) / 3)
    }
}

/// Whether the visitor wins a contest between two Hawks: only with a score
/// strictly above the host's; on equal scores the host wins.
pub open spec fn visitor_wins(visitor_score: int, host_score: int) -> bool {
    visitor_score > host_score
}

/// What the visitor is paid.
pub open spec fn visitor_payoff(
    payoffs: PayoffMap,
    visitor: Strategy,
    host: Strategy,
    visitor_score: int,
    host_score: int,
) -> i64
    recommends
        playable(visitor, host),
{
    match (visitor, host) {
        (Strategy::Hawk, Strategy::Hawk) => if visitor_wins(visitor_score, host_score) {
            payoffs.win
        } else {
            payoffs.lose
        },
        (Strategy::Hawk, Strategy::Fox) => payoffs.hf,
        (Strategy::Hawk, _) => payoffs.hd,
        (Strategy::Dove, Strategy::Hawk) => payoffs.dh,
        (Strategy::Dove, Strategy::Fox) => payoffs.df,
        (Strategy::Dove, _) => payoffs.dd,
        (_, Strategy::Hawk) => payoffs.fh,
        (_, _) => payoffs.fd,
    }
}

/// What the host is paid.
pub open spec fn host_payoff(
    payoffs: PayoffMap,
    visitor: Strategy,
    host: Strategy,
    visitor_score: int,
    host_score: int,
) -> i64
    recommends
        playable(visitor, host),
{
    match (visitor, host) {
        (Strategy::Hawk, Strategy::Hawk) => if visitor_wins(visitor_score, host_score) {
            payoffs.lose
        } else {
            payoffs.win
        },
        (Strategy::Hawk, Strategy::Fox) => payoffs.fh,
        (Strategy::Hawk, _) => payoffs.dh,
        (Strategy::Dove, Strategy::Hawk) => payoffs.hd,
        (Strategy::Dove, Strategy::Fox) => payoffs.fd,
        (Strategy::Dove, _) => payoffs.dd,
        (_, Strategy::Hawk) => payoffs.hf,
        (_, _) => payoffs.df,
    }
}

impl PayoffMap {
    /// Builds the table from the configured payoffs. The winner of a contest
    /// receives `hh_f` and the loser a third of it.
    pub fn new(payoff: PayoffScores) -> (map: PayoffMap)
        ensures
            map.hh == 0,
            map.hd == payoff.hd,
            map.dh == payoff.dh,
            map.dd == payoff.dd,
            map.fh == payoff.fh,
            map.hf == payoff.hf,
            map.fd == payoff.fd,
            map.df == payoff.df,
            map.win == payoff.hh_f,
            map.lose == losing_share(payoff.hh_f as int),
    {
        PayoffMap {
            hh: 0,
            hd: payoff.hd,
            dh: payoff.dh,
            dd: payoff.dd,
            fh: payoff.fh,
            hf: payoff.hf,
            fd: payoff.fd,
            df: payoff.df,
            win: payoff.hh_f,
            lose: payoff.hh_f / 3,
        }
    }

    /// Looks up what a meeting pays: first to the visitor, then to the host.
    pub fn resolve(
        &self,
        visitor: Strategy,
        host: Strategy,
        visitor_score: i64,
        host_score: i64,
    ) -> (paid: (i64, i64))
        requires
            playable(visitor, host),
        ensures
            paid.0 == visitor_payoff(*self, visitor, host, visitor_score as int, host_score as int),
            paid.1 == host_payoff(*self, visitor, host, visitor_score as int, host_score as int),
    {
        match visitor {
            Strategy::Hawk => match host {
                Strategy::Hawk => if visitor_score > host_score {
                    (self.win, self.lose)
                } else {
                    (self.lose, self.win)
                },
                Strategy::Fox => (self.hf, self.fh),
                _ => (self.hd, self.dh),
            },
            Strategy::Dove => match host {
                Strategy::Hawk => (self.dh, self.hd),
                Strategy::Fox => (self.df, self.fd),
                _ => (self.dd, self.dd),
            },
            _ => match host {
                Strategy::Hawk => (self.fh, self.hf),
                _ => (self.fd, self.df),
            },
        }
    }
}

/// Resolves the meeting of a visitor and its host from the strategies they
/// have chosen and their scores.
///
/// Both agents receive their current payoff, and nothing else about them
/// changes. The meeting is counted once for the round and once for each of
/// the two agents: the round's count rises by one, in the one counter of the
/// meeting's kind. The visitor's Fox flag says whether it played Fox.
pub fn game(
    visitor: AgentId,
    host: AgentId,
    agents: &mut Vec<Agent>,
    payoffs: &PayoffMap,
    interaction_tracker: &mut InteractionTracker,
    agent_interaction_tracker: &mut Vec<AgentInteractionTracker>,
)
    requires
        visitor.0 < old(agents)@.len(),
        host.0 < old(agents)@.len(),
        visitor.0 != host.0,
        old(agent_interaction_tracker)@.len() == old(agents)@.len(),
        playable(
            old(agents)@[visitor.0 as int].current_strategy,
            old(agents)@[host.0 as int].current_strategy,
        ),
        ({
            let p = pairing_of(
                old(agents)@[visitor.0 as int].current_strategy,
                old(agents)@[host.0 as int].current_strategy,
            );
            &&& old(interaction_tracker).count(p) < u64::MAX
            &&& old(agent_interaction_tracker)@[visitor.0 as int].count(p) < u64::MAX
            &&& old(agent_interaction_tracker)@[host.0 as int].count(p) < u64::MAX
        }),
    ensures
        final(agents)@.len() == old(agents)@.len(),
        final(agent_interaction_tracker)@.len() == old(agent_interaction_tracker)@.len(),
        ({
            let v = old(agents)@[visitor.0 as int];
            let h = old(agents)@[host.0 as int];
            let p = pairing_of(v.current_strategy, h.current_strategy);
            &&& final(agents)@[visitor.0 as int] == (Agent {
                current_payoff: visitor_payoff(
                    *payoffs,
                    v.current_strategy,
                    h.current_strategy,
                    v.score as int,
                    h.score as int,
                ),
                ..v
            })
            &&& final(agents)@[host.0 as int] == (Agent {
                current_payoff: host_payoff(
                    *payoffs,
                    v.current_strategy,
                    h.current_strategy,
                    v.score as int,
                    h.score as int,
                ),
                ..h
            })
            &&& *final(interaction_tracker) == old(interaction_tracker).with_one_more(p)
            &&& final(interaction_tracker).total() == old(interaction_tracker).total() + 1
            &&& final(interaction_tracker).count(p) == old(interaction_tracker).count(p) + 1
            &&& forall|q: Pairing|
                q != p ==> final(interaction_tracker).count(q) == old(interaction_tracker).count(q)
            &&& final(agent_interaction_tracker)@[visitor.0 as int] == (AgentInteractionTracker {
                fox_this_round: v.current_strategy == Strategy::Fox,
                ..old(agent_interaction_tracker)@[visitor.0 as int].with_one_more(p)
            })
            &&& final(agent_interaction_tracker)@[host.0 as int] == old(
                agent_interaction_tracker,
            )@[host.0 as int].with_one_more(p)
        }),
        forall|i: int|
            0 <= i < old(agents)@.len() && i != visitor.0 && i != host.0
                ==> (#[trigger] final(agents)@[i]) == old(agents)@[i],
        forall|i: int|
            0 <= i < old(agents)@.len() && i != visitor.0 && i != host.0
                ==> (#[trigger] final(agent_interaction_tracker)@[i])
                == old(agent_interaction_tracker)@[i],
{
    let v = visitor.0 as usize;
    let h = host.0 as usize;
    let visitor_score = agents[v].score;
    let host_score = agents[h].score;
    let visitor_strategy = agents[v].current_strategy;
    let host_strategy = agents[h].current_strategy;

    let paid = payoffs.resolve(visitor_strategy, host_strategy, visitor_score, host_score);
    agents[v].current_payoff = paid.0;
    agents[h].current_payoff = paid.1;

    let pairing = classify(visitor_strategy, host_strategy);
    interaction_tracker.record(pairing);
    agent_interaction_tracker[v].record(pairing);
    agent_interaction_tracker[v].fox_this_round = match visitor_strategy {
        Strategy::Fox => true,
        _ => false,
    };
    agent_interaction_tracker[h].record(pairing);
}

} // verus!
