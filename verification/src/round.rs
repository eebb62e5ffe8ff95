//! One round of the simulation: every agent, in a shuffled order, takes one
//! turn as visitor. The turns are applied one after the other, so that each
//! of them sees what the turns before it did to the network and to the
//! strategy weights.

use vstd::prelude::*;

use crate::agent::{
    choice_drawn, partner_chosen, reward, rewards_keep_sign, Agent, AgentParameters,
};
use crate::fixed::{spec_plus, SCALE};
use crate::network::{
    discounted, discounted_row, is_partial_rate, is_rate, lemma_discounted_row_live,
    lemma_discounted_row_nonnegative, lemma_normalized_row_sum, lemma_positive_entry,
    lemma_sum_positive, normalized_row, reinforced, row_live, row_nonnegative, row_settled,
    row_total, AgentId, Network, MAX_POPULATION,
};
use crate::payoff::{game, host_payoff, visitor_payoff, PayoffMap};
use crate::random::RandomSource;
use crate::strategy::{
    available_count, decayed, index_range, is_available, lemma_decayed_nonnegative,
    place_of_strategy, Role, Strategy,
};
use crate::tracker::{pairing_of, AgentInteractionTracker, InteractionTracker, Pairing};

verus! {

/// Every so many rounds the scores are taken anew from the total payoffs,
/// where the ranks are dynamic.
pub const LATCH_INTERVAL: u64 = 1000;

/// Whether the scores are taken anew at the end of round `round`.
pub open spec fn latches(round: u64, dynamic_rank: bool) -> bool {
    dynamic_rank && round % LATCH_INTERVAL == 0
}

/// The population, its network and its trackers fit together: at least two
/// agents, each standing at the place that its handle names, one network row
/// and one tracker for each.
pub open spec fn population_wf(
    agents: Seq<Agent>,
    network: Network,
    trackers: Seq<AgentInteractionTracker>,
) -> bool {
    &&& 2 <= agents.len() <= MAX_POPULATION
    &&& network.wf()
    &&& network.size() == agents.len()
    &&& trackers.len() == agents.len()
    &&& forall|i: int|
        0 <= i < agents.len() ==> (#[trigger] agents[i]).wf() && agents[i].agent_id.0 == i
}

/// The agents are who they were: same handles, same parameters, same
/// scores.
pub open spec fn same_standing(before: Seq<Agent>, after: Seq<Agent>) -> bool {
    &&& after.len() == before.len()
    &&& forall|i: int|
        0 <= i < before.len() ==> {
            &&& (#[trigger] after[i]).agent_id == before[i].agent_id
            &&& after[i].agent_param == before[i].agent_param
            &&& after[i].score == before[i].score
        }
}

/// No counter has fallen, and none has risen by more than `most`.
pub open spec fn counted_up_to(
    before: Seq<AgentInteractionTracker>,
    after: Seq<AgentInteractionTracker>,
    most: int,
) -> bool {
    &&& after.len() == before.len()
    &&& forall|i: int, p: Pairing|
        0 <= i < before.len() ==> before[i].count(p) <= (#[trigger] after[i].count(p))
            <= before[i].count(p) + most
}

/// Every tracker has room for `room` more meetings of any kind.
pub open spec fn all_have_room(trackers: Seq<AgentInteractionTracker>, room: int) -> bool {
    forall|i: int| 0 <= i < trackers.len() ==> (#[trigger] trackers[i]).has_room(room)
}

/// `order` lists each agent of a population of `pop` once.
pub open spec fn is_turn_order(order: Seq<usize>, pop: int) -> bool {
    &&& order.len() == pop
    &&& order.no_duplicates()
    &&& forall|i: int| 0 <= i < order.len() ==> (#[trigger] order[i]) < pop
}

/// No payoff of the table is negative.
pub open spec fn payoffs_nonnegative(payoffs: PayoffMap) -> bool {
    &&& payoffs.hd >= 0
    &&& payoffs.dh >= 0
    &&& payoffs.dd >= 0
    &&& payoffs.fh >= 0
    &&& payoffs.hf >= 0
    &&& payoffs.fd >= 0
    &&& payoffs.df >= 0
    &&& payoffs.win >= 0
    &&& payoffs.lose >= 0
}

/// With these parameters no weight of the agent's row of the network can
/// turn negative: the network discount is a rate between zero and 1.0, and
/// reinforced weights are held at zero or neither a payoff nor the network
/// learning speed is negative.
pub open spec fn keeps_rows_nonnegative(param: AgentParameters, payoffs: PayoffMap) -> bool {
    &&& is_rate(param.net_discount as int)
    &&& param.clamp_weights || (param.net_learning_speed >= 0 && payoffs_nonnegative(payoffs))
}

/// The parameters of every agent keep its row of the network from turning
/// negative.
pub open spec fn all_keep_rows_nonnegative(agents: Seq<Agent>, payoffs: PayoffMap) -> bool {
    forall|i: int|
        0 <= i < agents.len() ==> keeps_rows_nonnegative((#[trigger] agents[i]).agent_param, payoffs)
}

/// Every row of the network adds up to zero or to exactly 1.0.
pub open spec fn rows_settled(network: Network) -> bool {
    forall|i: int| 0 <= i < network.size() ==> row_settled(#[trigger] network.row(i))
}

/// With these parameters no weight can turn negative: both discounts are
/// rates between zero and 1.0, and reinforced weights are held at zero or
/// neither a payoff nor a learning speed is negative.
pub open spec fn keeps_weights_nonnegative(param: AgentParameters, payoffs: PayoffMap) -> bool {
    &&& is_rate(param.net_discount as int)
    &&& is_rate(param.strat_discount as int)
    &&& param.clamp_weights || (param.net_learning_speed >= 0 && param.strat_learning_speed >= 0
        && payoffs_nonnegative(payoffs))
}

/// No weight of the network and no strategy weight is negative, and the
/// parameters of every agent keep it so.
pub open spec fn weights_nonnegative(agents: Seq<Agent>, network: Network, payoffs: PayoffMap) -> bool {
    &&& network.nonnegative()
    &&& forall|i: int|
        0 <= i < agents.len() ==> (#[trigger] agents[i]).strategy.nonnegative()
            && keeps_weights_nonnegative(agents[i].agent_param, payoffs)
}

/// With these parameters no turn of the agent can empty its row of the
/// network: a discount takes less than all of a weight, and what a meeting
/// adds to a weight is not negative.
pub open spec fn keeps_rows_live(param: AgentParameters, payoffs: PayoffMap) -> bool {
    &&& is_partial_rate(param.net_discount as int)
    &&& param.net_learning_speed >= 0
    &&& payoffs_nonnegative(payoffs)
}

/// The parameters of every agent keep its row of the network alive.
pub open spec fn all_keep_rows_live(agents: Seq<Agent>, payoffs: PayoffMap) -> bool {
    forall|i: int| 0 <= i < agents.len() ==> keeps_rows_live((#[trigger] agents[i]).agent_param, payoffs)
}

/// No weight of the network is negative, and every row adds up to more than
/// zero.
pub open spec fn network_live(network: Network) -> bool {
    forall|i: int| 0 <= i < network.size() ==> row_live(#[trigger] network.row(i))
}

/// The weight of every agent toward itself is zero.
pub open spec fn no_self_weight(network: Network) -> bool {
    forall|i: int| 0 <= i < network.size() ==> (#[trigger] network.row(i))[i] == 0
}

/// Every row of the network adds up to exactly 1.0.
pub open spec fn network_settled(network: Network) -> bool {
    forall|i: int| 0 <= i < network.size() ==> row_total(#[trigger] network.row(i)) == SCALE
}

/// The agents of `order` other than `id`, in the order in which they stand.
pub open spec fn others_of(order: Seq<usize>, id: usize) -> Seq<usize> {
    order.filter(is_other(id))
}

/// The test that tells the agents other than `id`.
pub open spec fn is_other(id: usize) -> spec_fn(usize) -> bool {
    |x: usize| x != id
}

/// Lists the agents of `order` other than `id`, in the order in which they
/// stand.
pub fn others(order: &Vec<usize>, id: usize) -> (rest: Vec<usize>)
    ensures
        rest@ == others_of(order@, id),
        rest@.len() <= order@.len(),
        forall|k: int| 0 <= k < rest@.len() ==> (#[trigger] rest@[k]) != id && order@.contains(rest@[k]),
        forall|k: int| 0 <= k < order@.len() && order@[k] != id ==> rest@.contains(#[trigger] order@[k]),
{
    let ghost keep = is_other(id);
    let mut rest: Vec<usize> = Vec::new();
    let mut i: usize = 0;
    assert(order@.take(0) =~= Seq::<usize>::empty());
    assert(Seq::<usize>::empty().filter(keep) =~= Seq::<usize>::empty()) by {
        reveal(Seq::filter);
    }
    while i < order.len()
        invariant
            i <= order@.len(),
            keep == is_other(id),
            rest@ == order@.take(i as int).filter(keep),
        decreases order@.len() - i,
    {
        let x = order[i];
        proof {
            assert(order@.take(i as int + 1) =~= order@.take(i as int).push(x));
            order@.take(i as int).lemma_filter_push(x, keep);
        }
        if x != id {
            rest.push(x);
        }
        i = i + 1;
    }
    proof {
        assert(order@.take(order@.len() as int) =~= order@);
        order@.lemma_filter_len(keep);
        assert forall|k: int| 0 <= k < rest@.len() implies (#[trigger] rest@[k]) != id
            && order@.contains(rest@[k]) by {
            order@.lemma_filter_pred(keep, k);
            assert(rest@.contains(rest@[k]));
            order@.lemma_filter_contains_rev(keep, rest@[k]);
        }
        assert forall|k: int| 0 <= k < order@.len() && order@[k] != id implies rest@.contains(
            #[trigger] order@[k],
        ) by {
            order@.lemma_filter_contains(keep, k);
        }
    }
    rest
}

/// What the choice of a strategy in `role` makes of an agent: the deviancy
/// flag and the strategy are what some draws give it, the strategy is one of
/// those open to it, the weights of the open strategies are decayed once,
/// and everything else but the payoff of the turn is what it was.
#[verifier::opaque]
pub open spec fn played(before: Agent, after: Agent, role: Role) -> bool {
    &&& after.wf()
    &&& after.agent_id == before.agent_id
    &&& after.agent_param == before.agent_param
    &&& after.score == before.score
    &&& after.current_partner == before.current_partner
    &&& after.total_payoff == before.total_payoff
    &&& after.morality_rate == before.morality_rate
    &&& after.deviancy_rate == before.deviancy_rate
    &&& is_available(after.current_strategy, role, after.deviant)
    &&& choice_drawn(
        before.strategy.weights(role),
        before.morality_rate as int,
        before.deviancy_rate as int,
        before.agent_param.strat_tremble as int,
        role,
        after.deviant,
        after.current_strategy,
    )
    &&& after.strategy.weights(role) == decayed(
        before.strategy.weights(role),
        available_count(role, after.deviant),
        before.agent_param.strat_discount as int,
    )
    &&& after.strategy.other_weights(role) == before.strategy.other_weights(role)
}

/// What learning from a meeting makes of an agent that played in `role`:
/// the weight of the strategy played is reinforced by the reward for the
/// payoff, the payoff is added to the total, and the morality rates are
/// decayed, the reward going to the rate that the deviancy flag names.
#[verifier::opaque]
pub open spec fn learned(before: Agent, after: Agent, role: Role) -> bool {
    let place = place_of_strategy(before.current_strategy);
    let amount = reward(
        before.current_payoff as int,
        before.agent_param.strat_learning_speed as int,
    );
    let rate = before.agent_param.strat_discount as int;
    &&& after.wf()
    &&& after.agent_id == before.agent_id
    &&& after.agent_param == before.agent_param
    &&& after.score == before.score
    &&& after.current_partner == before.current_partner
    &&& after.current_strategy == before.current_strategy
    &&& after.current_payoff == before.current_payoff
    &&& after.deviant == before.deviant
    &&& after.total_payoff == spec_plus(before.total_payoff as int, before.current_payoff as int)
    &&& after.strategy.weights(role) == before.strategy.weights(role).update(
        place,
        reinforced(
            before.strategy.weights(role)[place] as int,
            amount,
            before.agent_param.clamp_weights,
        ) as i64,
    )
    &&& after.strategy.other_weights(role) == before.strategy.other_weights(role)
    &&& after.morality_rate == (if before.deviant {
        discounted(before.morality_rate as int, rate)
    } else {
        spec_plus(discounted(before.morality_rate as int, rate), amount)
    })
    &&& after.deviancy_rate == (if before.deviant {
        spec_plus(discounted(before.deviancy_rate as int, rate), amount)
    } else {
        discounted(before.deviancy_rate as int, rate)
    })
}

/// What a whole meeting makes of an agent that took part in it in `role` and
/// was paid `payoff`. Given the deviancy flag and the strategy that the agent
/// came out with, every other part of it is settled.
#[verifier::opaque]
pub open spec fn turned(before: Agent, after: Agent, role: Role, payoff: i64) -> bool {
    let count = available_count(role, after.deviant);
    let rate = before.agent_param.strat_discount as int;
    let place = place_of_strategy(after.current_strategy);
    let amount = reward(payoff as int, before.agent_param.strat_learning_speed as int);
    let decayed_weights = decayed(before.strategy.weights(role), count, rate);
    &&& after.wf()
    &&& after.agent_id == before.agent_id
    &&& after.agent_param == before.agent_param
    &&& after.score == before.score
    &&& after.current_partner == before.current_partner
    &&& is_available(after.current_strategy, role, after.deviant)
    &&& after.current_payoff == payoff
    &&& after.total_payoff == spec_plus(before.total_payoff as int, payoff as int)
    &&& after.strategy.weights(role) == decayed_weights.update(
        place,
        reinforced(decayed_weights[place] as int, amount, before.agent_param.clamp_weights) as i64,
    )
    &&& after.strategy.other_weights(role) == before.strategy.other_weights(role)
    &&& after.morality_rate == (if after.deviant {
        discounted(before.morality_rate as int, rate)
    } else {
        spec_plus(discounted(before.morality_rate as int, rate), amount)
    })
    &&& after.deviancy_rate == (if after.deviant {
        spec_plus(discounted(before.deviancy_rate as int, rate), amount)
    } else {
        discounted(before.deviancy_rate as int, rate)
    })
}

/// The visitor's row after its turn: every weight toward another agent is
/// discounted, in the order in which the others stand; the weight toward the
/// host is reinforced by the reward for the visitor's payoff; and the row is
/// normalized, unless it adds up to zero.
pub open spec fn row_after_turn(
    row: Seq<i64>,
    candidates: Seq<usize>,
    host: int,
    payoff: i64,
    param: AgentParameters,
) -> Seq<i64> {
    let faded = discounted_row(row, candidates, param.net_discount as int, candidates.len() as int);
    let amount = reward(payoff as int, param.net_learning_speed as int);
    let raised = faded.update(
        host,
        reinforced(faded[host] as int, amount, param.clamp_weights) as i64,
    );
    if row_total(raised) != 0 {
        normalized_row(raised)
    } else {
        raised
    }
}

/// No payoff of a table without negative payoffs is negative.
pub proof fn lemma_payoffs_nonnegative(
    payoffs: PayoffMap,
    visitor: Strategy,
    host: Strategy,
    visitor_score: int,
    host_score: int,
)
    requires
        payoffs_nonnegative(payoffs),
    ensures
        visitor_payoff(payoffs, visitor, host, visitor_score, host_score) >= 0,
        host_payoff(payoffs, visitor, host, visitor_score, host_score) >= 0,
{
}

/// A turn leaves a row without negative weights without negative weights,
/// where the discount is a rate between zero and 1.0 and the reward cannot
/// drive a weight below zero; the row then adds up to exactly 1.0, unless it
/// adds up to zero.
pub proof fn lemma_row_after_turn_nonnegative(
    row: Seq<i64>,
    candidates: Seq<usize>,
    host: int,
    payoff: i64,
    param: AgentParameters,
)
    requires
        row_nonnegative(row),
        0 <= host < row.len(),
        forall|k: int| 0 <= k < candidates.len() ==> (#[trigger] candidates[k]) < row.len(),
        is_rate(param.net_discount as int),
        rewards_keep_sign(
            payoff as int,
            param.net_learning_speed as int,
            param.clamp_weights,
        ),
    ensures
        row_after_turn(row, candidates, host, payoff, param).len() == row.len(),
        row_nonnegative(row_after_turn(row, candidates, host, payoff, param)),
        row_settled(row_after_turn(row, candidates, host, payoff, param)),
{
    let rate = param.net_discount as int;
    let faded = discounted_row(row, candidates, rate, candidates.len() as int);
    lemma_discounted_row_nonnegative(row, candidates, rate, candidates.len() as int);
    let amount = reward(payoff as int, param.net_learning_speed as int);
    if payoff >= 0 && param.net_learning_speed >= 0 {
        crate::fixed::lemma_times_nonnegative(payoff as int, param.net_learning_speed as int);
    }
    assert(faded[host] >= 0);
    let raised = faded.update(
        host,
        reinforced(faded[host] as int, amount, param.clamp_weights) as i64,
    );
    assert(raised[host] >= 0);
    assert(row_nonnegative(raised));
    crate::network::lemma_sum_nonnegative(raised, 0, raised.len() as int);
    if row_total(raised) != 0 {
        lemma_normalized_row_sum(raised);
    }
}

/// A turn keeps the network from turning negative: see
/// [`lemma_row_after_turn_nonnegative`].
pub proof fn lemma_turn_keeps_nonnegative(
    visitor: usize,
    order: Seq<usize>,
    payoffs: PayoffMap,
    before: RoundState,
    after: RoundState,
)
    requires
        visitor < before.agents.len(),
        before.network.wf(),
        before.network.size() == before.agents.len(),
        is_turn_order(order, before.agents.len() as int),
        turn_taken(visitor, order, payoffs, before, after),
        before.network.nonnegative(),
        keeps_rows_nonnegative(before.agents[visitor as int].agent_param, payoffs),
    ensures
        after.network.nonnegative(),
        row_settled(after.network.row(visitor as int)),
{
    reveal(turn_taken);
    let id = visitor as int;
    let v = after.agents[id];
    let host = v.current_partner.0 as int;
    let h = after.agents[host];
    let paid = visitor_payoff(
        payoffs,
        v.current_strategy,
        h.current_strategy,
        v.score as int,
        h.score as int,
    );
    if payoffs_nonnegative(payoffs) {
        lemma_payoffs_nonnegative(
            payoffs,
            v.current_strategy,
            h.current_strategy,
            v.score as int,
            h.score as int,
        );
    }
    let candidates = others_of(order, visitor);
    let row = before.network.row(id);
    assert(row_nonnegative(row));
    assert(row.len() == before.network.size());
    assert forall|k: int| 0 <= k < candidates.len() implies (#[trigger] candidates[k])
        < row.len() by {
        assert(candidates.contains(candidates[k]));
        order.lemma_filter_contains_rev(is_other(visitor), candidates[k]);
    }
    lemma_row_after_turn_nonnegative(row, candidates, host, paid, before.agents[id].agent_param);
    assert forall|i: int| 0 <= i < after.network.size() implies row_nonnegative(
        #[trigger] after.network.row(i),
    ) by {
        if i != id {
            assert(after.network.row(i) == before.network.row(i));
            assert(row_nonnegative(before.network.row(i)));
        }
    }
}

/// A turn keeps the visitor's row alive. A row without negative weights
/// that adds up to more than zero is such a row after the turn, and adds up
/// to exactly 1.0, where the discount is below 1.0 and neither the payoff nor
/// the learning speed is negative: the discount leaves every positive weight
/// positive, the reward lowers none, and normalization shares out exactly
/// 1.0. The visitor's weight toward itself is zero afterwards if it was
/// before.
pub proof fn lemma_row_after_turn_live(
    row: Seq<i64>,
    candidates: Seq<usize>,
    me: int,
    host: int,
    payoff: i64,
    param: AgentParameters,
)
    requires
        row_live(row),
        row.len() <= MAX_POPULATION,
        0 <= me < row.len(),
        0 <= host < row.len(),
        host != me,
        forall|k: int|
            0 <= k < candidates.len() ==> (#[trigger] candidates[k]) < row.len() && candidates[k]
                != me,
        is_partial_rate(param.net_discount as int),
        param.net_learning_speed >= 0,
        payoff >= 0,
    ensures
        row_after_turn(row, candidates, host, payoff, param).len() == row.len(),
        row_live(row_after_turn(row, candidates, host, payoff, param)),
        row_total(row_after_turn(row, candidates, host, payoff, param)) == SCALE,
        row[me] == 0 ==> row_after_turn(row, candidates, host, payoff, param)[me] == 0,
{
    let rate = param.net_discount as int;
    let faded = discounted_row(row, candidates, rate, candidates.len() as int);
    lemma_discounted_row_nonnegative(row, candidates, rate, candidates.len() as int);
    lemma_discounted_row_live(row, candidates, rate);
    assert(!candidates.contains(me as usize));
    assert(faded[me] == row[me]);
    let amount = reward(payoff as int, param.net_learning_speed as int);
    crate::fixed::lemma_times_nonnegative(payoff as int, param.net_learning_speed as int);
    assert(faded[host] >= 0);
    let raised = faded.update(
        host,
        reinforced(faded[host] as int, amount, param.clamp_weights) as i64,
    );
    assert(raised[host] >= faded[host]);
    assert(row_nonnegative(raised));
    let j = lemma_positive_entry(faded, faded.len() as int);
    assert(raised[j] > 0);
    lemma_sum_positive(raised, j);
    assert(raised[me] == row[me]);
    lemma_normalized_row_sum(raised);
}

/// A turn keeps the network alive: see [`lemma_row_after_turn_live`]. The
/// visitor's row adds up to exactly 1.0 after its turn, the weights of the
/// agents toward themselves are still zero if they were, and no other row
/// has changed.
pub proof fn lemma_turn_keeps_network(
    visitor: usize,
    order: Seq<usize>,
    payoffs: PayoffMap,
    before: RoundState,
    after: RoundState,
)
    requires
        visitor < before.agents.len(),
        before.network.wf(),
        before.network.size() == before.agents.len(),
        is_turn_order(order, before.agents.len() as int),
        turn_taken(visitor, order, payoffs, before, after),
        network_live(before.network),
        keeps_rows_live(before.agents[visitor as int].agent_param, payoffs),
    ensures
        network_live(after.network),
        row_total(after.network.row(visitor as int)) == SCALE,
        no_self_weight(before.network) ==> no_self_weight(after.network),
        forall|i: int|
            0 <= i < before.network.size() && i != visitor ==> (#[trigger] after.network.row(i))
                == before.network.row(i),
{
    reveal(turn_taken);
    let id = visitor as int;
    let v = after.agents[id];
    let host = v.current_partner.0 as int;
    let h = after.agents[host];
    let paid = visitor_payoff(
        payoffs,
        v.current_strategy,
        h.current_strategy,
        v.score as int,
        h.score as int,
    );
    lemma_payoffs_nonnegative(
        payoffs,
        v.current_strategy,
        h.current_strategy,
        v.score as int,
        h.score as int,
    );
    let candidates = others_of(order, visitor);
    let row = before.network.row(id);
    assert(row_live(row));
    assert(row.len() == before.network.size());
    assert forall|k: int| 0 <= k < candidates.len() implies (#[trigger] candidates[k]) < row.len()
        && candidates[k] != id by {
        order.lemma_filter_pred(is_other(visitor), k);
        assert(candidates.contains(candidates[k]));
        order.lemma_filter_contains_rev(is_other(visitor), candidates[k]);
    }
    lemma_row_after_turn_live(row, candidates, id, host, paid, before.agents[id].agent_param);
    assert forall|i: int| 0 <= i < after.network.size() implies row_live(
        #[trigger] after.network.row(i),
    ) by {
        if i != id {
            assert(after.network.row(i) == before.network.row(i));
            assert(row_live(before.network.row(i)));
        }
    }
    if no_self_weight(before.network) {
        assert forall|i: int| 0 <= i < after.network.size() implies (#[trigger] after.network.row(
            i,
        ))[i] == 0 by {
            assert(before.network.row(i)[i] == 0);
            if i != id {
                assert(after.network.row(i) == before.network.row(i));
            }
        }
    }
}

/// Choosing and learning, one after the other, make a whole meeting.
pub proof fn lemma_played_and_learned(before: Agent, between: Agent, after: Agent, role: Role)
    requires
        played(before, between, role),
        learned(between, after, role),
    ensures
        turned(before, after, role, between.current_payoff),
{
    reveal(played);
    reveal(learned);
    reveal(turned);
}

/// A meeting leaves strategy weights that are not negative not negative,
/// where the parameters keep them so.
pub proof fn lemma_turned_nonnegative(before: Agent, after: Agent, role: Role, payoff: i64)
    requires
        before.wf(),
        turned(before, after, role, payoff),
        before.strategy.nonnegative(),
        is_rate(before.agent_param.strat_discount as int),
        rewards_keep_sign(
            payoff as int,
            before.agent_param.strat_learning_speed as int,
            before.agent_param.clamp_weights,
        ),
    ensures
        after.strategy.nonnegative(),
{
    reveal(turned);
    let count = available_count(role, after.deviant);
    let rate = before.agent_param.strat_discount as int;
    let place = place_of_strategy(after.current_strategy);
    let weights = decayed(before.strategy.weights(role), count, rate);
    lemma_decayed_nonnegative(before.strategy.weights(role), count, rate);
    assert(row_nonnegative(before.strategy.weights(role)));
    assert(row_nonnegative(before.strategy.other_weights(role)));
    assert(weights[place] >= 0);
    if payoff >= 0 && before.agent_param.strat_learning_speed >= 0 {
        crate::fixed::lemma_times_nonnegative(
            payoff as int,
            before.agent_param.strat_learning_speed as int,
        );
    }
    assert(row_nonnegative(after.strategy.weights(role)));
    assert(row_nonnegative(after.strategy.other_weights(role)));
}

/// The meeting of a visitor and its host: both choose their strategies, the
/// visitor first, and the game is resolved and counted.
///
/// Whatever is drawn: the visitor plays a strategy open to it and the host
/// plays Hawk or Dove; each is paid what the table gives for the two
/// strategies and the two scores; the meeting is counted once for the round
/// and once for each of the two; no other agent changes.
pub fn play(
    visitor: AgentId,
    host: AgentId,
    agents: &mut Vec<Agent>,
    payoffs: &PayoffMap,
    interaction_tracker: &mut InteractionTracker,
    agent_interaction_tracker: &mut Vec<AgentInteractionTracker>,
    rng: &mut RandomSource,
)
    requires
        visitor.0 < old(agents)@.len(),
        host.0 < old(agents)@.len(),
        visitor.0 != host.0,
        old(agent_interaction_tracker)@.len() == old(agents)@.len(),
        old(agents)@[visitor.0 as int].wf(),
        old(agents)@[host.0 as int].wf(),
        old(interaction_tracker).total() < u64::MAX,
        old(agent_interaction_tracker)@[visitor.0 as int].has_room(1),
        old(agent_interaction_tracker)@[host.0 as int].has_room(1),
    ensures
        final(agents)@.len() == old(agents)@.len(),
        final(agent_interaction_tracker)@.len() == old(agent_interaction_tracker)@.len(),
        final(interaction_tracker).total() == old(interaction_tracker).total() + 1,
        ({
            let v = final(agents)@[visitor.0 as int];
            let h = final(agents)@[host.0 as int];
            let met = pairing_of(v.current_strategy, h.current_strategy);
            &&& played(old(agents)@[visitor.0 as int], v, Role::Visitor)
            &&& played(old(agents)@[host.0 as int], h, Role::Host)
            &&& v.current_payoff == visitor_payoff(
                *payoffs,
                v.current_strategy,
                h.current_strategy,
                v.score as int,
                h.score as int,
            )
            &&& h.current_payoff == host_payoff(
                *payoffs,
                v.current_strategy,
                h.current_strategy,
                v.score as int,
                h.score as int,
            )
            &&& *final(interaction_tracker) == old(interaction_tracker).with_one_more(met)
            &&& final(agent_interaction_tracker)@[visitor.0 as int] == (AgentInteractionTracker {
                fox_this_round: v.current_strategy == Strategy::Fox,
                ..old(agent_interaction_tracker)@[visitor.0 as int].with_one_more(met)
            })
            &&& final(agent_interaction_tracker)@[host.0 as int] == old(
                agent_interaction_tracker,
            )@[host.0 as int].with_one_more(met)
        }),
        forall|i: int|
            0 <= i < old(agents)@.len() && i != visitor.0 && i != host.0
                ==> (#[trigger] final(agents)@[i]) == old(agents)@[i],
        forall|i: int|
            0 <= i < old(agents)@.len() && i != visitor.0 && i != host.0
                ==> (#[trigger] final(agent_interaction_tracker)@[i])
                == old(agent_interaction_tracker)@[i],
{
    let v = visitor.0 as usize;
    let h = host.0 as usize;
    let ghost trackers0 = agent_interaction_tracker@;
    agents[v].choose_strategy(Role::Visitor, rng);
    agents[h].choose_strategy(Role::Host, rng);
    let ghost met = pairing_of(agents@[v as int].current_strategy, agents@[h as int].current_strategy);
    proof {
        assert(trackers0[v as int].count(met) + 1 <= u64::MAX);
        assert(trackers0[h as int].count(met) + 1 <= u64::MAX);
    }
    game(visitor, host, agents, payoffs, interaction_tracker, agent_interaction_tracker);
    proof {
        reveal(played);
    }
}

/// What the two agents of a meeting learn from it: each reinforces the
/// strategy it played in its role and adds its payoff to its total, then
/// decays its morality rates and credits the payoff to one of them.
pub fn learn(visitor: AgentId, host: AgentId, agents: &mut Vec<Agent>)
    requires
        visitor.0 < old(agents)@.len(),
        host.0 < old(agents)@.len(),
        visitor.0 != host.0,
        old(agents)@[visitor.0 as int].wf(),
        old(agents)@[host.0 as int].wf(),
        is_available(
            old(agents)@[visitor.0 as int].current_strategy,
            Role::Visitor,
            old(agents)@[visitor.0 as int].deviant,
        ),
        is_available(
            old(agents)@[host.0 as int].current_strategy,
            Role::Host,
            old(agents)@[host.0 as int].deviant,
        ),
    ensures
        final(agents)@.len() == old(agents)@.len(),
        forall|i: int|
            0 <= i < old(agents)@.len() && i != visitor.0 && i != host.0
                ==> (#[trigger] final(agents)@[i]) == old(agents)@[i],
        learned(old(agents)@[visitor.0 as int], final(agents)@[visitor.0 as int], Role::Visitor),
        learned(old(agents)@[host.0 as int], final(agents)@[host.0 as int], Role::Host),
{
    let v = visitor.0 as usize;
    let h = host.0 as usize;
    agents[v].add_strategy_payoff(Role::Visitor);
    agents[h].add_strategy_payoff(Role::Host);

    agents[v].discount_morality();
    agents[v].add_morality_payoff();

    agents[h].discount_morality();
    agents[h].add_morality_payoff();
    proof {
        reveal(learned);
    }
}

/// The deviancy flag and the strategy that an agent came out of a meeting
/// with are what some draws give it in `role`, over the weights and rates it
/// went in with.
pub open spec fn drew(before: Agent, after: Agent, role: Role) -> bool {
    choice_drawn(
        before.strategy.weights(role),
        before.morality_rate as int,
        before.deviancy_rate as int,
        before.agent_param.strat_tremble as int,
        role,
        after.deviant,
        after.current_strategy,
    )
}

/// A population in the middle of a round: the agents, their network, the
/// meetings counted for the round so far, and the agents' trackers.
pub struct RoundState {
    pub agents: Seq<Agent>,
    pub network: Network,
    pub counted: InteractionTracker,
    pub trackers: Seq<AgentInteractionTracker>,
}

/// What a turn of agent `visitor` makes of a population: the visitor has a
/// host other than itself, the one that some draws give it over its row; the
/// deviancy flags and the strategies of the two are what some draws give
/// them; the two are what their meeting made of them, paid by the table for
/// the strategies they played and the scores they have; the meeting is
/// counted once for the round and once for each of the two; the visitor's
/// row is discounted, reinforced toward the host and normalized; and no
/// other agent, tracker or row has changed.
#[verifier::opaque]
pub open spec fn turn_taken(
    visitor: usize,
    order: Seq<usize>,
    payoffs: PayoffMap,
    before: RoundState,
    after: RoundState,
) -> bool {
    let id = visitor as int;
    let v = after.agents[id];
    let host = v.current_partner.0 as int;
    let h = after.agents[host];
    let met = pairing_of(v.current_strategy, h.current_strategy);
    let paid_visitor = visitor_payoff(
        payoffs,
        v.current_strategy,
        h.current_strategy,
        v.score as int,
        h.score as int,
    );
    let paid_host = host_payoff(
        payoffs,
        v.current_strategy,
        h.current_strategy,
        v.score as int,
        h.score as int,
    );
    &&& after.agents.len() == before.agents.len()
    &&& after.trackers.len() == before.trackers.len()
    &&& 0 <= host < before.agents.len()
    &&& host != id
    &&& partner_chosen(
        before.network.row(id),
        others_of(order, visitor),
        before.agents[id].agent_param.net_tremble as int,
        before.agents[id].current_partner,
        v.current_partner,
    )
    &&& drew(before.agents[id], v, Role::Visitor)
    &&& drew(before.agents[host], h, Role::Host)
    &&& turned(
        (Agent { current_partner: v.current_partner, ..before.agents[id] }),
        v,
        Role::Visitor,
        paid_visitor,
    )
    &&& turned(before.agents[host], h, Role::Host, paid_host)
    &&& after.counted == before.counted.with_one_more(met)
    &&& after.trackers[id] == (AgentInteractionTracker {
        fox_this_round: v.current_strategy == Strategy::Fox,
        ..before.trackers[id].with_one_more(met)
    })
    &&& after.trackers[host] == before.trackers[host].with_one_more(met)
    &&& before.network.same_but_row(after.network, id)
    &&& after.network.row(id) == row_after_turn(
        before.network.row(id),
        others_of(order, visitor),
        host,
        paid_visitor,
        before.agents[id].agent_param,
    )
    &&& forall|i: int|
        0 <= i < before.agents.len() && i != id && i != host ==> (#[trigger] after.agents[i])
            == before.agents[i]
    &&& forall|i: int|
        0 <= i < before.agents.len() && i != id && i != host ==> (#[trigger] after.trackers[i])
            == before.trackers[i]
}

/// Two agents agree in everything that can be read of them.
pub open spec fn same_agent(a: Agent, b: Agent) -> bool {
    &&& a.agent_id == b.agent_id
    &&& a.agent_param == b.agent_param
    &&& a.score == b.score
    &&& a.total_payoff == b.total_payoff
    &&& a.current_partner == b.current_partner
    &&& a.strategy.visit@ == b.strategy.visit@
    &&& a.strategy.host@ == b.strategy.host@
    &&& a.current_strategy == b.current_strategy
    &&& a.current_payoff == b.current_payoff
    &&& a.morality_rate == b.morality_rate
    &&& a.deviancy_rate == b.deviancy_rate
    &&& a.deviant == b.deviant
}

/// The choices made in the turn of agent `visitor`, as two outcomes of it
/// show them, are the same: the same host, and for the visitor and the host
/// the same deviancy flag and the same strategy.
pub open spec fn same_choices(visitor: usize, first: RoundState, second: RoundState) -> bool {
    let id = visitor as int;
    let host = first.agents[id].current_partner.0 as int;
    &&& second.agents[id].current_partner == first.agents[id].current_partner
    &&& second.agents[id].deviant == first.agents[id].deviant
    &&& second.agents[id].current_strategy == first.agents[id].current_strategy
    &&& second.agents[host].deviant == first.agents[host].deviant
    &&& second.agents[host].current_strategy == first.agents[host].current_strategy
}

/// Two states of a round agree in everything that can be read of them: in
/// every agent, every weight and every counter.
pub open spec fn same_state(a: RoundState, b: RoundState) -> bool {
    &&& a.agents.len() == b.agents.len()
    &&& forall|i: int| 0 <= i < a.agents.len() ==> same_agent(#[trigger] a.agents[i], b.agents[i])
    &&& a.network.size() == b.network.size()
    &&& forall|i: int| 0 <= i < a.network.size() ==> (#[trigger] a.network.row(i)) == b.network.row(i)
    &&& a.counted == b.counted
    &&& a.trackers =~= b.trackers
}

/// The same choices give the same turn: two outcomes of the turn of one
/// agent, from states that agree, in which the same host was picked and the
/// same deviancy flags and strategies were drawn, agree in every agent,
/// every counter and every weight. Nothing but the draws makes two runs
/// differ.
pub proof fn lemma_turn_settled_by_choices(
    visitor: usize,
    order: Seq<usize>,
    payoffs: PayoffMap,
    before: RoundState,
    first: RoundState,
    again: RoundState,
    second: RoundState,
)
    requires
        visitor < before.agents.len(),
        before.network.size() == before.agents.len(),
        before.trackers.len() == before.agents.len(),
        same_state(before, again),
        turn_taken(visitor, order, payoffs, before, first),
        turn_taken(visitor, order, payoffs, again, second),
        same_choices(visitor, first, second),
    ensures
        same_state(first, second),
        first.agents.len() == before.agents.len(),
        first.network.size() == before.network.size(),
        first.trackers.len() == before.trackers.len(),
{
    reveal(turn_taken);
    reveal(turned);
    let id = visitor as int;
    let host = first.agents[id].current_partner.0 as int;
    assert(same_agent(before.agents[id], again.agents[id]));
    assert(same_agent(before.agents[host], again.agents[host]));
    assert(before.trackers[id] == again.trackers[id]);
    assert(before.trackers[host] == again.trackers[host]);
    assert(before.network.row(id) == again.network.row(id));
    assert forall|i: int| 0 <= i < first.agents.len() implies same_agent(
        #[trigger] first.agents[i],
        second.agents[i],
    ) by {
        if i == id {
            lemma_weights_by_role(first.agents[i], second.agents[i], Role::Visitor);
        } else if i == host {
            lemma_weights_by_role(first.agents[i], second.agents[i], Role::Host);
        } else {
            assert(first.agents[i] == before.agents[i]);
            assert(second.agents[i] == again.agents[i]);
            assert(same_agent(before.agents[i], again.agents[i]));
        }
    }
    assert forall|i: int| 0 <= i < first.network.size() implies (#[trigger] first.network.row(i))
        == second.network.row(i) by {
        if i != id {
            assert(first.network.row(i) == before.network.row(i));
            assert(second.network.row(i) == again.network.row(i));
            assert(before.network.row(i) == again.network.row(i));
        }
    }
    assert forall|i: int| 0 <= i < first.trackers.len() implies (#[trigger] first.trackers[i])
        == second.trackers[i] by {
        if i != id && i != host {
            assert(first.trackers[i] == before.trackers[i]);
            assert(second.trackers[i] == again.trackers[i]);
            assert(before.trackers[i] == again.trackers[i]);
        }
    }
}

/// Two strategy vectors that agree in the weights of a role and in the
/// weights of the other role agree in both of their vectors.
proof fn lemma_weights_by_role(a: Agent, b: Agent, role: Role)
    requires
        a.strategy.weights(role) == b.strategy.weights(role),
        a.strategy.other_weights(role) == b.strategy.other_weights(role),
    ensures
        a.strategy.visit@ == b.strategy.visit@,
        a.strategy.host@ == b.strategy.host@,
{
}

/// The states of a round in which the first `k` agents of `order` have
/// taken their turns, one after the other: each state follows from the one
/// before it by the turn of the next agent.
pub open spec fn turns_chained(
    order: Seq<usize>,
    payoffs: PayoffMap,
    chain: Seq<RoundState>,
    k: int,
) -> bool {
    &&& chain.len() == k + 1
    &&& forall|j: int|
        0 <= j < k ==> turn_taken(order[j], order, payoffs, #[trigger] chain[j], chain[j + 1])
}

/// The agents with every score taken anew from the total payoff.
pub open spec fn latched(agents: Seq<Agent>) -> Seq<Agent> {
    Seq::new(agents.len(), |a: int| (Agent { score: agents[a].total_payoff, ..agents[a] }))
}

/// A whole round `i`: in some order that lists every agent once, each agent
/// takes its turn, beginning from the state `before` with nothing counted;
/// then the scores are taken anew where that is due.
pub open spec fn round_played(
    i: u64,
    dynamic_rank: bool,
    payoffs: PayoffMap,
    before: RoundState,
    after: RoundState,
    order: Seq<usize>,
    chain: Seq<RoundState>,
) -> bool {
    let pop = before.agents.len() as int;
    &&& is_turn_order(order, pop)
    &&& turns_chained(order, payoffs, chain, pop)
    &&& chain[0] == before
    &&& chain[pop].network == after.network
    &&& chain[pop].counted == after.counted
    &&& chain[pop].trackers == after.trackers
    &&& after.agents == (if latches(i, dynamic_rank) {
        latched(chain[pop].agents)
    } else {
        chain[pop].agents
    })
}

/// In turn `j` of a round, two runs made the same choices.
pub open spec fn choices_agree(
    order: Seq<usize>,
    first: Seq<RoundState>,
    second: Seq<RoundState>,
    j: int,
) -> bool {
    same_choices(order[j], first[j + 1], second[j + 1])
}

/// Two runs of the turns of a round, in the same order and from states that
/// agree, agree after `k` turns if they made the same choices in each.
proof fn lemma_turns_settled_by_choices(
    order: Seq<usize>,
    payoffs: PayoffMap,
    first: Seq<RoundState>,
    second: Seq<RoundState>,
    k: int,
)
    requires
        0 <= k <= order.len(),
        is_turn_order(order, order.len() as int),
        turns_chained(order, payoffs, first, order.len() as int),
        turns_chained(order, payoffs, second, order.len() as int),
        same_state(first[0], second[0]),
        first[0].agents.len() == order.len(),
        first[0].network.size() == order.len(),
        first[0].trackers.len() == order.len(),
        forall|j: int| 0 <= j < order.len() ==> #[trigger] choices_agree(order, first, second, j),
    ensures
        same_state(first[k], second[k]),
        first[k].agents.len() == order.len(),
        first[k].network.size() == order.len(),
        first[k].trackers.len() == order.len(),
    decreases k,
{
    if k > 0 {
        lemma_turns_settled_by_choices(order, payoffs, first, second, k - 1);
        assert(turn_taken(order[k - 1], order, payoffs, first[k - 1], first[k - 1 + 1]));
        assert(turn_taken(order[k - 1], order, payoffs, second[k - 1], second[k - 1 + 1]));
        assert(choices_agree(order, first, second, k - 1));
        lemma_turn_settled_by_choices(
            order[k - 1],
            order,
            payoffs,
            first[k - 1],
            first[k],
            second[k - 1],
            second[k],
        );
    }
}

/// The same choices give the same round: two runs of one round from states
/// that agree, which take the agents in the same order and make the same
/// choices in every turn (the same host, the same deviancy flags, the same
/// strategies), end in states that agree in every agent, every weight and
/// every counter. A round is settled by what is drawn in it and by nothing
/// else.
pub proof fn lemma_round_settled_by_choices(
    i: u64,
    dynamic_rank: bool,
    payoffs: PayoffMap,
    before: RoundState,
    first: RoundState,
    again: RoundState,
    second: RoundState,
    order: Seq<usize>,
    first_chain: Seq<RoundState>,
    second_chain: Seq<RoundState>,
)
    requires
        population_wf(before.agents, before.network, before.trackers),
        same_state(before, again),
        round_played(i, dynamic_rank, payoffs, before, first, order, first_chain),
        round_played(i, dynamic_rank, payoffs, again, second, order, second_chain),
        forall|j: int|
            0 <= j < order.len() ==> #[trigger] choices_agree(order, first_chain, second_chain, j),
    ensures
        same_state(first, second),
{
    let pop = before.agents.len() as int;
    lemma_turns_settled_by_choices(order, payoffs, first_chain, second_chain, pop);
    let a = first_chain[pop];
    let b = second_chain[pop];
    assert forall|x: int| 0 <= x < first.agents.len() implies same_agent(
        #[trigger] first.agents[x],
        second.agents[x],
    ) by {
        assert(same_agent(a.agents[x], b.agents[x]));
    }
    assert(first.network == a.network);
    assert(second.network == b.network);
    assert forall|x: int| 0 <= x < first.network.size() implies (#[trigger] first.network.row(x))
        == second.network.row(x) by {
        assert(a.network.row(x) == b.network.row(x));
    }
}

/// The turn of agent `id` as visitor.
///
/// The visitor picks its host among the other agents, in the order in which
/// they stand in `order`, and discounts its weights toward all of them. Both
/// choose their strategies, the visitor first. The meeting is resolved and
/// counted. The visitor reinforces its weight toward the host; both reinforce
/// the strategy they played and update their morality rates. At the end the
/// visitor's row is normalized, unless it adds up to zero.
///
/// Whatever is drawn, the host, the two deviancy flags and the two strategies
/// settle everything else: see [`turn_taken`]. No agent changes its handle,
/// its parameters or its score, and no row of the network changes but the
/// visitor's. Where no weight was negative and the parameters keep it so, no
/// weight is negative afterwards, and the visitor's row adds up to 1.0 or to
/// zero. Where the network was alive and the visitor's parameters keep its
/// row so, the network is alive afterwards and the visitor's row adds up to
/// exactly 1.0.
pub fn take_turn(
    id: usize,
    order: &Vec<usize>,
    agents: &mut Vec<Agent>,
    network: &mut Network,
    payoffs: &PayoffMap,
    interaction_tracker: &mut InteractionTracker,
    agent_interaction_tracker: &mut Vec<AgentInteractionTracker>,
    rng: &mut RandomSource,
)
    requires
        population_wf(old(agents)@, *old(network), old(agent_interaction_tracker)@),
        is_turn_order(order@, old(agents)@.len() as int),
        id < old(agents)@.len(),
        old(interaction_tracker).total() < u64::MAX,
        all_have_room(old(agent_interaction_tracker)@, 1),
    ensures
        population_wf(final(agents)@, *final(network), final(agent_interaction_tracker)@),
        turn_taken(
            id,
            order@,
            *payoffs,
            (RoundState {
                agents: old(agents)@,
                network: *old(network),
                counted: *old(interaction_tracker),
                trackers: old(agent_interaction_tracker)@,
            }),
            (RoundState {
                agents: final(agents)@,
                network: *final(network),
                counted: *final(interaction_tracker),
                trackers: final(agent_interaction_tracker)@,
            }),
        ),
        same_standing(old(agents)@, final(agents)@),
        final(interaction_tracker).total() == old(interaction_tracker).total() + 1,
        counted_up_to(old(agent_interaction_tracker)@, final(agent_interaction_tracker)@, 1),
        old(network).same_but_row(*final(network), id as int),
        weights_nonnegative(old(agents)@, *old(network), *payoffs) ==> weights_nonnegative(
            final(agents)@,
            *final(network),
            *payoffs,
        ) && row_settled(final(network).row(id as int)),
        old(network).nonnegative() && keeps_rows_nonnegative(
            old(agents)@[id as int].agent_param,
            *payoffs,
        ) ==> final(network).nonnegative() && row_settled(final(network).row(id as int)),
        network_live(*old(network)) && keeps_rows_live(
            old(agents)@[id as int].agent_param,
            *payoffs,
        ) ==> {
            &&& network_live(*final(network))
            &&& row_total(final(network).row(id as int)) == SCALE
            &&& no_self_weight(*old(network)) ==> no_self_weight(*final(network))
        },
{
    let ghost agents0 = agents@;
    let ghost trackers0 = agent_interaction_tracker@;
    let ghost round0 = *interaction_tracker;
    let ghost network0 = *network;
    let ghost good = weights_nonnegative(agents@, *network, *payoffs);
    let temp_vec = others(order, id);
    proof {
        assert(order@[0] != order@[1]);
        if order@[0] != id {
            assert(temp_vec@.contains(order@[0]));
        } else {
            assert(temp_vec@.contains(order@[1]));
        }
        assert forall|k: int| 0 <= k < temp_vec@.len() implies (#[trigger] temp_vec@[k])
            < network.size() by {
            assert(order@.contains(temp_vec@[k]));
        }
        assert(agents0[id as int].wf() && agents0[id as int].agent_id.0 == id);
    }
    let visitor = AgentId(id as u32);
    let host_id = agents[id].partner_pick(&temp_vec, network, rng);
    let h = host_id.0 as usize;
    let ghost agents1 = agents@;
    let ghost network1 = *network;
    proof {
        assert(h != id && h < agents@.len());
        assert(agents0[h as int].wf());
        assert(agents1[h as int] == agents0[h as int]);
        assert(trackers0[id as int].has_room(1));
        assert(trackers0[h as int].has_room(1));
    }

    play(visitor, host_id, agents, payoffs, interaction_tracker, agent_interaction_tracker, rng);
    let ghost agents2 = agents@;
    proof {
        lemma_played_keeps(agents1[id as int], agents2[id as int], Role::Visitor);
        lemma_played_keeps(agents1[h as int], agents2[h as int], Role::Host);
    }

    agents[id].add_network_payoff(network);
    let ghost network2 = *network;

    learn(visitor, host_id, agents);

    let _ = network.normalize_network_weights(visitor);

    proof {
        lemma_turn_agents(agents0, agents1, agents2, agents@, id as int, h as int);
        lemma_turn_counted(
            trackers0,
            agent_interaction_tracker@,
            id as int,
            h as int,
            pairing_of(agents2[id as int].current_strategy, agents2[h as int].current_strategy),
            agents2[id as int].current_strategy == Strategy::Fox,
        );
        assert forall|i: int| 0 <= i < network0.size() && i != id implies (#[trigger] network.row(
            i,
        )) == network0.row(i) by {
            assert(network1.row(i) == network0.row(i));
            assert(network2.row(i) == network1.row(i));
        }
        assert(network.row(id as int) == row_after_turn(
            network0.row(id as int),
            temp_vec@,
            h as int,
            agents2[id as int].current_payoff,
            agents0[id as int].agent_param,
        ));
        reveal(turn_taken);
        let ghost state0 = RoundState {
            agents: agents0,
            network: network0,
            counted: round0,
            trackers: trackers0,
        };
        let ghost state1 = RoundState {
            agents: agents@,
            network: *network,
            counted: *interaction_tracker,
            trackers: agent_interaction_tracker@,
        };
        assert(turn_taken(id, order@, *payoffs, state0, state1));
        if network_live(network0) && keeps_rows_live(agents0[id as int].agent_param, *payoffs) {
            lemma_turn_keeps_network(id, order@, *payoffs, state0, state1);
        }
        if network0.nonnegative() && keeps_rows_nonnegative(
            agents0[id as int].agent_param,
            *payoffs,
        ) {
            lemma_turn_keeps_nonnegative(id, order@, *payoffs, state0, state1);
        }
        if good {
            lemma_turn_nonnegative(
                agents0,
                agents1,
                agents2,
                agents@,
                id as int,
                h as int,
                *payoffs,
                network0,
            );
            assert(row_nonnegative(network0.row(id as int)));
            assert(row_nonnegative(network1.row(id as int)));
            assert(row_nonnegative(network2.row(id as int)));
            assert forall|i: int| 0 <= i < network.size() implies row_nonnegative(
                #[trigger] network.row(i),
            ) by {
                if i != id {
                    assert(row_nonnegative(network0.row(i)));
                }
            }
        }
    }
}

/// What a choice of strategy leaves alone, and what it settles.
proof fn lemma_played_keeps(before: Agent, after: Agent, role: Role)
    requires
        played(before, after, role),
    ensures
        after.wf(),
        after.agent_id == before.agent_id,
        after.agent_param == before.agent_param,
        after.score == before.score,
        after.current_partner == before.current_partner,
        is_available(after.current_strategy, role, after.deviant),
        drew(before, after, role),
{
    reveal(played);
}

/// Through the steps of a turn the visitor and its host become what their
/// meeting makes of them, and every other agent stays what it was.
proof fn lemma_turn_agents(
    agents0: Seq<Agent>,
    agents1: Seq<Agent>,
    agents2: Seq<Agent>,
    agents3: Seq<Agent>,
    v: int,
    h: int,
)
    requires
        0 <= v < agents0.len(),
        0 <= h < agents0.len(),
        v != h,
        agents1.len() == agents0.len(),
        agents2.len() == agents0.len(),
        agents3.len() == agents0.len(),
        forall|i: int| 0 <= i < agents0.len() ==> (#[trigger] agents0[i]).wf() && agents0[i].agent_id.0 == i,
        forall|i: int| 0 <= i < agents0.len() && i != v ==> (#[trigger] agents1[i]) == agents0[i],
        agents1[v] == (Agent { current_partner: AgentId(h as u32), ..agents0[v] }),
        h <= u32::MAX,
        forall|i: int|
            0 <= i < agents0.len() && i != v && i != h ==> (#[trigger] agents2[i]) == agents1[i],
        played(agents1[v], agents2[v], Role::Visitor),
        played(agents1[h], agents2[h], Role::Host),
        forall|i: int|
            0 <= i < agents0.len() && i != v && i != h ==> (#[trigger] agents3[i]) == agents2[i],
        learned(agents2[v], agents3[v], Role::Visitor),
        learned(agents2[h], agents3[h], Role::Host),
    ensures
        forall|i: int| 0 <= i < agents3.len() ==> (#[trigger] agents3[i]).wf() && agents3[i].agent_id.0 == i,
        same_standing(agents0, agents3),
        agents3[v].current_partner == AgentId(h as u32),
        agents3[v].current_strategy == agents2[v].current_strategy,
        agents3[h].current_strategy == agents2[h].current_strategy,
        agents3[v].current_payoff == agents2[v].current_payoff,
        agents3[h].current_payoff == agents2[h].current_payoff,
        agents3[v].score == agents2[v].score,
        agents3[h].score == agents2[h].score,
        drew(agents0[v], agents3[v], Role::Visitor),
        drew(agents0[h], agents3[h], Role::Host),
        turned(
            (Agent { current_partner: AgentId(h as u32), ..agents0[v] }),
            agents3[v],
            Role::Visitor,
            agents2[v].current_payoff,
        ),
        turned(agents0[h], agents3[h], Role::Host, agents2[h].current_payoff),
        forall|i: int|
            0 <= i < agents0.len() && i != v && i != h ==> (#[trigger] agents3[i]) == agents0[i],
{
    lemma_played_and_learned(agents1[v], agents2[v], agents3[v], Role::Visitor);
    lemma_played_and_learned(agents1[h], agents2[h], agents3[h], Role::Host);
    assert(agents1[h] == agents0[h]);
    assert forall|i: int| 0 <= i < agents3.len() implies (#[trigger] agents3[i]).wf()
        && agents3[i].agent_id.0 == i && agents3[i].agent_id == agents0[i].agent_id
        && agents3[i].agent_param == agents0[i].agent_param && agents3[i].score
        == agents0[i].score by {
        reveal(played);
        reveal(learned);
        assert(agents0[i].wf() && agents0[i].agent_id.0 == i);
        if i != v && i != h {
            assert(agents1[i] == agents0[i]);
            assert(agents2[i] == agents1[i]);
            assert(agents3[i] == agents2[i]);
        }
    }
    assert forall|i: int| 0 <= i < agents0.len() && i != v && i != h implies (
    #[trigger] agents3[i]) == agents0[i] by {
        assert(agents1[i] == agents0[i]);
        assert(agents2[i] == agents1[i]);
    }
    assert(agents3[v].current_partner == AgentId(h as u32) && agents3[v].current_strategy
        == agents2[v].current_strategy && agents3[v].current_payoff == agents2[v].current_payoff
        && agents3[v].score == agents2[v].score) by {
        reveal(played);
        reveal(learned);
    }
    assert(agents3[h].current_strategy == agents2[h].current_strategy && agents3[h].current_payoff
        == agents2[h].current_payoff && agents3[h].score == agents2[h].score) by {
        reveal(learned);
    }
    assert(drew(agents0[v], agents3[v], Role::Visitor)) by {
        reveal(played);
        reveal(learned);
    }
    assert(drew(agents0[h], agents3[h], Role::Host)) by {
        reveal(played);
        reveal(learned);
    }
}

/// One more meeting of a kind raises the counter of that kind by one and
/// no other.
proof fn lemma_one_more(t: AgentInteractionTracker, met: Pairing, p: Pairing)
    requires
        t.count(met) < u64::MAX,
    ensures
        t.with_one_more(met).count(p) == (if p == met {
            t.count(p) + 1
        } else {
            t.count(p)
        }),
{
}

/// A meeting raises one counter of the visitor and one of the host by one,
/// and no other counter at all.
proof fn lemma_turn_counted(
    trackers0: Seq<AgentInteractionTracker>,
    trackers1: Seq<AgentInteractionTracker>,
    v: int,
    h: int,
    met: Pairing,
    fox: bool,
)
    requires
        0 <= v < trackers0.len(),
        0 <= h < trackers0.len(),
        v != h,
        trackers1.len() == trackers0.len(),
        all_have_room(trackers0, 1),
        trackers1[v] == (AgentInteractionTracker {
            fox_this_round: fox,
            ..trackers0[v].with_one_more(met)
        }),
        trackers1[h] == trackers0[h].with_one_more(met),
        forall|i: int|
            0 <= i < trackers0.len() && i != v && i != h ==> (#[trigger] trackers1[i])
                == trackers0[i],
    ensures
        counted_up_to(trackers0, trackers1, 1),
{
    assert forall|i: int, p: Pairing| 0 <= i < trackers0.len() implies trackers0[i].count(p)
        <= (#[trigger] trackers1[i].count(p)) <= trackers0[i].count(p) + 1 by {
        assert(trackers0[i].has_room(1));
        assert(trackers0[i].count(met) + 1 <= u64::MAX);
        lemma_one_more(trackers0[i], met, p);
        if i == v {
            assert(trackers1[i].count(p) == trackers0[i].with_one_more(met).count(p));
        } else if i == h {
            assert(trackers1[i] == trackers0[i].with_one_more(met));
        } else {
            assert(trackers1[i] == trackers0[i]);
        }
    }
}

/// A turn leaves strategy weights that are not negative not negative, where
/// the parameters keep them so.
proof fn lemma_turn_nonnegative(
    agents0: Seq<Agent>,
    agents1: Seq<Agent>,
    agents2: Seq<Agent>,
    agents3: Seq<Agent>,
    v: int,
    h: int,
    payoffs: PayoffMap,
    network0: Network,
)
    requires
        0 <= v < agents0.len(),
        0 <= h < agents0.len(),
        v != h,
        agents3.len() == agents0.len(),
        weights_nonnegative(agents0, network0, payoffs),
        forall|i: int| 0 <= i < agents0.len() ==> (#[trigger] agents0[i]).wf(),
        same_standing(agents0, agents3),
        agents1[v].strategy == agents0[v].strategy,
        agents1[v].agent_param == agents0[v].agent_param,
        agents1[v].wf(),
        agents1[h] == agents0[h],
        turned(agents1[v], agents3[v], Role::Visitor, agents2[v].current_payoff),
        turned(agents1[h], agents3[h], Role::Host, agents2[h].current_payoff),
        payoffs_nonnegative(payoffs) ==> agents2[v].current_payoff >= 0 && agents2[h].current_payoff
            >= 0,
        forall|i: int|
            0 <= i < agents0.len() && i != v && i != h ==> (#[trigger] agents3[i]) == agents0[i],
    ensures
        forall|i: int|
            0 <= i < agents3.len() ==> (#[trigger] agents3[i]).strategy.nonnegative()
                && keeps_weights_nonnegative(agents3[i].agent_param, payoffs),
        keeps_weights_nonnegative(agents0[v].agent_param, payoffs),
        rewards_keep_sign(
            agents2[v].current_payoff as int,
            agents0[v].agent_param.net_learning_speed as int,
            agents0[v].agent_param.clamp_weights,
        ),
{
    assert(agents0[v].strategy.nonnegative() && keeps_weights_nonnegative(
        agents0[v].agent_param,
        payoffs,
    ));
    assert(agents0[h].strategy.nonnegative() && keeps_weights_nonnegative(
        agents0[h].agent_param,
        payoffs,
    ));
    lemma_turned_nonnegative(agents1[v], agents3[v], Role::Visitor, agents2[v].current_payoff);
    lemma_turned_nonnegative(agents1[h], agents3[h], Role::Host, agents2[h].current_payoff);
    assert forall|i: int| 0 <= i < agents3.len() implies (
    #[trigger] agents3[i]).strategy.nonnegative() && keeps_weights_nonnegative(
        agents3[i].agent_param,
        payoffs,
    ) by {
        assert(agents0[i].strategy.nonnegative() && keeps_weights_nonnegative(
            agents0[i].agent_param,
            payoffs,
        ));
    }
}

/// Takes every score anew from the agent's total payoff.
pub fn latch_scores(agents: &mut Vec<Agent>)
    ensures
        final(agents)@.len() == old(agents)@.len(),
        forall|a: int|
            0 <= a < old(agents)@.len() ==> (#[trigger] final(agents)@[a]) == (Agent {
                score: old(agents)@[a].total_payoff,
                ..old(agents)@[a]
            }),
{
    let ghost agents0 = agents@;
    let n = agents.len();
    let mut j: usize = 0;
    while j < n
        invariant
            j <= n,
            n == agents0.len(),
            n == agents@.len(),
            forall|a: int|
                0 <= a < j ==> (#[trigger] agents@[a]) == (Agent {
                    score: agents0[a].total_payoff,
                    ..agents0[a]
                }),
            forall|a: int| j <= a < n ==> (#[trigger] agents@[a]) == agents0[a],
        decreases n - j,
    {
        agents[j].update_score();
        j = j + 1;
    }
}

/// Plays round `i`: shuffles the agents, gives each its turn as visitor, and
/// at the end takes the scores anew from the total payoffs where that is due.
/// Returns the count of the round's meetings.
///
/// Whatever is drawn: as many meetings are counted as there are agents, each
/// of one kind; no agent's counter rises by more than that; and every score
/// is the agent's total payoff where the scores are taken anew, and the score
/// it was in every other round. Where no weight was negative and the
/// parameters keep it so, no weight is negative afterwards, and every row of
/// the network adds up to 1.0 or to zero; for the network this needs only
/// that its own weights were not negative and that the agents' network
/// parameters keep them so. Where no weight of the network was
/// negative and every row added up to more than zero, and no agent discounts
/// its row at 1.0 or is rewarded with less than nothing, the same holds
/// afterwards, every row adds up to exactly 1.0, and the weight of every
/// agent toward itself is zero if it was.
pub fn run_time_step(
    i: u64,
    agents: &mut Vec<Agent>,
    pop: usize,
    network: &mut Network,
    payoffs: &PayoffMap,
    dynamic_rank: bool,
    agent_interaction_tracker: &mut Vec<AgentInteractionTracker>,
    rng: &mut RandomSource,
) -> (interaction_tracker: InteractionTracker)
    requires
        pop == old(agents)@.len(),
        population_wf(old(agents)@, *old(network), old(agent_interaction_tracker)@),
        all_have_room(old(agent_interaction_tracker)@, pop as int),
    ensures
        population_wf(final(agents)@, *final(network), final(agent_interaction_tracker)@),
        final(agents)@.len() == pop,
        interaction_tracker.total() == pop,
        counted_up_to(old(agent_interaction_tracker)@, final(agent_interaction_tracker)@, pop as int),
        forall|a: int|
            0 <= a < pop ==> {
                &&& (#[trigger] final(agents)@[a]).agent_id == old(agents)@[a].agent_id
                &&& final(agents)@[a].agent_param == old(agents)@[a].agent_param
                &&& latches(i, dynamic_rank) ==> final(agents)@[a].score
                    == final(agents)@[a].total_payoff
                &&& !latches(i, dynamic_rank) ==> final(agents)@[a].score == old(agents)@[a].score
            },
        weights_nonnegative(old(agents)@, *old(network), *payoffs) ==> {
            &&& weights_nonnegative(final(agents)@, *final(network), *payoffs)
            &&& forall|a: int| 0 <= a < pop ==> row_settled(#[trigger] final(network).row(a))
        },
        old(network).nonnegative() && all_keep_rows_nonnegative(old(agents)@, *payoffs) ==> {
            &&& final(network).nonnegative()
            &&& rows_settled(*final(network))
        },
        network_live(*old(network)) && all_keep_rows_live(old(agents)@, *payoffs) ==> {
            &&& network_live(*final(network))
            &&& network_settled(*final(network))
            &&& no_self_weight(*old(network)) ==> no_self_weight(*final(network))
        },
        exists|order: Seq<usize>, chain: Seq<RoundState>|
            #[trigger] round_played(
                i,
                dynamic_rank,
                *payoffs,
                (RoundState {
                    agents: old(agents)@,
                    network: *old(network),
                    counted: InteractionTracker::nothing(),
                    trackers: old(agent_interaction_tracker)@,
                }),
                (RoundState {
                    agents: final(agents)@,
                    network: *final(network),
                    counted: interaction_tracker,
                    trackers: final(agent_interaction_tracker)@,
                }),
                order,
                chain,
            ),
{
    let ghost agents0 = agents@;
    let ghost trackers0 = agent_interaction_tracker@;
    let ghost good = weights_nonnegative(agents@, *network, *payoffs);
    let ghost live = network_live(*network) && all_keep_rows_live(agents@, *payoffs);
    let ghost plain_self = no_self_weight(*network);
    let ghost kept = network.nonnegative() && all_keep_rows_nonnegative(agents@, *payoffs);
    let mut agent_seq = index_range(pop);
    let ghost plain = agent_seq@;
    rng.shuffle(&mut agent_seq);

    let mut interaction_tracker = InteractionTracker::new();
    let ghost state0 = RoundState {
        agents: agents@,
        network: *network,
        counted: interaction_tracker,
        trackers: agent_interaction_tracker@,
    };
    let ghost mut chain: Seq<RoundState> = seq![state0];

    let mut k: usize = 0;
    while k < pop
        invariant
            k <= pop,
            pop == agents0.len(),
            trackers0.len() == pop,
            is_turn_order(agent_seq@, pop as int),
            population_wf(agents@, *network, agent_interaction_tracker@),
            same_standing(agents0, agents@),
            interaction_tracker.total() == k,
            all_have_room(trackers0, pop as int),
            counted_up_to(trackers0, agent_interaction_tracker@, k as int),
            good ==> weights_nonnegative(agents@, *network, *payoffs),
            good ==> forall|j: int|
                0 <= j < k ==> row_settled(#[trigger] network.row(agent_seq@[j] as int)),
            kept ==> network.nonnegative() && all_keep_rows_nonnegative(agents0, *payoffs),
            kept ==> forall|j: int|
                0 <= j < k ==> row_settled(#[trigger] network.row(agent_seq@[j] as int)),
            live ==> network_live(*network) && all_keep_rows_live(agents0, *payoffs),
            live && plain_self ==> no_self_weight(*network),
            live ==> forall|j: int|
                0 <= j < k ==> row_total(#[trigger] network.row(agent_seq@[j] as int)) == SCALE,
            plain.len() == pop,
            forall|a: int| 0 <= a < pop ==> (#[trigger] plain[a]) == a,
            forall|a: int| 0 <= a < pop ==> agent_seq@.contains(#[trigger] plain[a]),
            turns_chained(agent_seq@, *payoffs, chain, k as int),
            chain[0] == state0,
            chain[k as int] == (RoundState {
                agents: agents@,
                network: *network,
                counted: interaction_tracker,
                trackers: agent_interaction_tracker@,
            }),
        decreases pop - k,
    {
        let id = agent_seq[k];
        let ghost trackers1 = agent_interaction_tracker@;
        let ghost agents1 = agents@;
        let ghost network1 = *network;
        let ghost chain1 = chain;
        proof {
            if live {
                assert(keeps_rows_live(agents0[id as int].agent_param, *payoffs));
                assert(agents@[id as int].agent_param == agents0[id as int].agent_param);
            }
            if kept {
                assert(keeps_rows_nonnegative(agents0[id as int].agent_param, *payoffs));
                assert(agents@[id as int].agent_param == agents0[id as int].agent_param);
            }
            assert forall|a: int| 0 <= a < trackers1.len() implies (#[trigger] trackers1[a]).has_room(
                1,
            ) by {
                assert(trackers0[a].has_room(pop as int));
                assert forall|p: Pairing| trackers1[a].count(p) + 1 <= u64::MAX by {
                    assert(trackers1[a].count(p) <= trackers0[a].count(p) + k);
                }
            }
        }
        take_turn(
            id,
            &agent_seq,
            agents,
            network,
            payoffs,
            &mut interaction_tracker,
            agent_interaction_tracker,
            rng,
        );
        proof {
            chain = chain1.push(
                RoundState {
                    agents: agents@,
                    network: *network,
                    counted: interaction_tracker,
                    trackers: agent_interaction_tracker@,
                },
            );
            assert forall|j: int| 0 <= j < k + 1 implies turn_taken(
                agent_seq@[j],
                agent_seq@,
                *payoffs,
                #[trigger] chain[j],
                chain[j + 1],
            ) by {
                if j < k {
                    assert(chain[j] == chain1[j]);
                    assert(chain[j + 1] == chain1[j + 1]);
                    assert(turn_taken(agent_seq@[j], agent_seq@, *payoffs, chain1[j], chain1[j + 1]));
                }
            }
            assert forall|a: int, p: Pairing| 0 <= a < trackers0.len() implies trackers0[a].count(p)
                <= (#[trigger] agent_interaction_tracker@[a].count(p)) <= trackers0[a].count(p) + k
                + 1 by {
                assert(trackers1[a].count(p) <= trackers0[a].count(p) + k);
                assert(trackers0[a].count(p) <= trackers1[a].count(p));
            }
            assert forall|a: int| 0 <= a < agents0.len() implies (#[trigger] agents@[a]).agent_id
                == agents0[a].agent_id && agents@[a].agent_param == agents0[a].agent_param
                && agents@[a].score == agents0[a].score by {
                assert(agents1[a].score == agents0[a].score);
            }
            if good {
                assert forall|j: int| 0 <= j < k + 1 implies row_settled(
                    #[trigger] network.row(agent_seq@[j] as int),
                ) by {
                    if j < k {
                        assert(agent_seq@[j] != agent_seq@[k as int]);
                        assert(row_settled(network1.row(agent_seq@[j] as int)));
                        assert(network.row(agent_seq@[j] as int) == network1.row(
                            agent_seq@[j] as int,
                        ));
                    }
                }
            }
            if kept && !good {
                assert forall|j: int| 0 <= j < k + 1 implies row_settled(
                    #[trigger] network.row(agent_seq@[j] as int),
                ) by {
                    if j < k {
                        assert(agent_seq@[j] != agent_seq@[k as int]);
                        assert(row_settled(network1.row(agent_seq@[j] as int)));
                        assert(network.row(agent_seq@[j] as int) == network1.row(
                            agent_seq@[j] as int,
                        ));
                    }
                }
            }
            if live {
                assert forall|j: int| 0 <= j < k + 1 implies row_total(
                    #[trigger] network.row(agent_seq@[j] as int),
                ) == SCALE by {
                    if j < k {
                        assert(agent_seq@[j] != agent_seq@[k as int]);
                        assert(row_total(network1.row(agent_seq@[j] as int)) == SCALE);
                        assert(network.row(agent_seq@[j] as int) == network1.row(
                            agent_seq@[j] as int,
                        ));
                    }
                }
            }
        }
        k = k + 1;
    }
    proof {
        if kept && !good {
            assert forall|a: int| 0 <= a < pop implies row_settled(#[trigger] network.row(a)) by {
                assert(agent_seq@.contains(plain[a]));
                let j = choose|j: int| 0 <= j < agent_seq@.len() && agent_seq@[j] == plain[a];
                assert(row_settled(network.row(agent_seq@[j] as int)));
            }
        }
        if live {
            assert forall|a: int| 0 <= a < pop implies row_total(#[trigger] network.row(a))
                == SCALE by {
                assert(agent_seq@.contains(plain[a]));
                let j = choose|j: int| 0 <= j < agent_seq@.len() && agent_seq@[j] == plain[a];
                assert(row_total(network.row(agent_seq@[j] as int)) == SCALE);
            }
        }
        if good {
            assert forall|a: int| 0 <= a < pop implies row_settled(#[trigger] network.row(a)) by {
                assert(agent_seq@.contains(plain[a]));
                let j = choose|j: int| 0 <= j < agent_seq@.len() && agent_seq@[j] == plain[a];
                assert(row_settled(network.row(agent_seq@[j] as int)));
            }
        }
    }

    if dynamic_rank {
        if i % LATCH_INTERVAL == 0 {
            let ghost agents1 = agents@;
            latch_scores(agents);
            proof {
                assert(agents@ =~= latched(agents1));
                assert forall|a: int| 0 <= a < agents@.len() implies (#[trigger] agents@[a]).wf()
                    && agents@[a].agent_id.0 == a && agents@[a].strategy == agents1[a].strategy
                    && agents@[a].agent_param == agents1[a].agent_param by {
                    assert(agents1[a].wf() && agents1[a].agent_id.0 == a);
                }
                if good {
                    assert forall|a: int| 0 <= a < agents@.len() implies (
                    #[trigger] agents@[a]).strategy.nonnegative() && keeps_weights_nonnegative(
                        agents@[a].agent_param,
                        *payoffs,
                    ) by {
                        assert(agents1[a].strategy.nonnegative() && keeps_weights_nonnegative(
                            agents1[a].agent_param,
                            *payoffs,
                        ));
                    }
                }
            }
        }
    }
    proof {
        assert(round_played(
            i,
            dynamic_rank,
            *payoffs,
            state0,
            RoundState {
                agents: agents@,
                network: *network,
                counted: interaction_tracker,
                trackers: agent_interaction_tracker@,
            },
            agent_seq@,
            chain,
        ));
    }
    interaction_tracker
}

} // verus!
