//! One agent: its parameters, its learned strategy weights, and the state it
//! carries from turn to turn.

use vstd::prelude::*;

use crate::fixed::{fade, plus, spec_plus, spec_times, times, SCALE};
use crate::network::{
    discounted, discounted_row, is_partial_rate, is_rate, reinforced, row_live, row_nonnegative,
    AgentId, Network,
};
use crate::random::RandomSource;
use crate::strategy::{
    available, available_count, decay, decayed, index_range, is_available, place_of_strategy,
    strategy_at, Role, StratVector, Strategy,
};
use crate::wheel::{
    order_in_range, pick_weighted, spec_trembles, trembles, wheel_choice, wheel_stop, MAX_PLACES,
};

verus! {

/// How fast an agent learns, forgets and explores, for its network row and
/// for its strategy weights. Rates and probabilities are fractions of 1.0.
#[derive(Clone, Copy, Debug, PartialEq, Eq, Structural)]
pub struct AgentParameters {
    pub strat_learning_speed: i64,
    pub net_learning_speed: i64,
    pub strat_discount: i64,
    pub net_discount: i64,
    pub strat_tremble: i64,
    pub net_tremble: i64,
    /// Whether a reinforced weight is held at zero from below.
    pub clamp_weights: bool,
}

/// An agent of the population.
pub struct Agent {
    pub agent_id: AgentId,
    pub agent_param: AgentParameters,
    /// The value by which a contest between two Hawks is decided.
    pub score: i64,
    /// Everything the agent has earned so far.
    pub total_payoff: i64,
    pub current_partner: AgentId,
    pub strategy: StratVector,
    pub current_strategy: Strategy,
    pub current_payoff: i64,
    pub morality_rate: i64,
    pub deviancy_rate: i64,
    pub deviant: bool,
}

/// Whether a draw makes an agent deviant: the draw, as a fraction of the two
/// rates together, does not fall below the morality rate.
pub open spec fn draws_deviant(draw: int, morality_rate: int, deviancy_rate: int) -> bool {
    !(draw * (deviancy_rate + morality_rate) < morality_rate * SCALE)
}

/// The place of the strategy that weighted choice selects: where the wheel
/// stops, or the last place of the order where it does not stop.
pub open spec fn exploited_place(weights: Seq<i64>, order: Seq<usize>, draw: int) -> int {
    match wheel_stop(weights, order, draw) {
        Some(i) => order[i] as int,
        None => order[order.len() - 1] as int,
    }
}

/// `order` lists each of the places `0 .. count` once.
pub open spec fn is_shuffled_range(order: Seq<usize>, count: int) -> bool {
    &&& order.len() == count
    &&& order.no_duplicates()
    &&& forall|i: int| 0 <= i < order.len() ==> (#[trigger] order[i]) < count
}

/// What an agent adds to a weight for a payoff: the payoff times the
/// learning speed.
pub open spec fn reward(payoff: int, speed: int) -> int {
    spec_times(payoff, speed)
}

/// A reward for `payoff` cannot drive a weight below zero: weights are held
/// at zero, or neither the payoff nor the learning speed is negative.
pub open spec fn rewards_keep_sign(payoff: int, speed: int, clamp: bool) -> bool {
    clamp || (payoff >= 0 && speed >= 0)
}

/// Without decay and with payoffs and a learning speed that are not negative,
/// no strategy weight ever falls: a decay at the rate zero leaves the
/// weights as they are, and the reward that follows it only adds.
pub proof fn lemma_weights_do_not_fall(
    weights: Seq<i64>,
    count: int,
    place: int,
    payoff: int,
    speed: int,
    clamp: bool,
)
    requires
        0 <= place < weights.len(),
        payoff >= 0,
        speed >= 0,
    ensures
        decayed(weights, count, 0) == weights,
        reinforced(weights[place] as int, reward(payoff, speed), clamp) >= weights[place],
{
    crate::strategy::lemma_decayed_nonnegative(weights, count, 0);
    crate::fixed::lemma_times_nonnegative(payoff, speed);
}

/// The candidate that the two draws of a partner choice select: none where
/// the first draw makes the agent tremble, otherwise the one at which the
/// wheel stops for the second, if it stops.
pub open spec fn partner_by_weight(
    weights: Seq<i64>,
    candidates: Seq<usize>,
    net_tremble: int,
    tremble_draw: int,
    wheel_draw: int,
) -> Option<usize> {
    if spec_trembles(tremble_draw, net_tremble) {
        None
    } else {
        wheel_choice(weights, candidates, wheel_draw)
    }
}

/// The partner that a choice ends with: the one selected by weight, else
/// the candidate picked for that event, else, with no candidate at all, the
/// partner the agent had.
pub open spec fn partner_settled(
    by_weight: Option<usize>,
    picked: Option<usize>,
    stay: AgentId,
) -> AgentId {
    match by_weight {
        Some(c) => AgentId(c as u32),
        None => match picked {
            Some(c) => AgentId(c as u32),
            None => stay,
        },
    }
}

/// `partner` is what the draws `tremble_draw`, `wheel_draw` and `picked`
/// give an agent that stands with `stay`, over the row `weights`.
pub open spec fn partner_drawn(
    weights: Seq<i64>,
    candidates: Seq<usize>,
    net_tremble: int,
    stay: AgentId,
    tremble_draw: int,
    wheel_draw: int,
    picked: Option<usize>,
    partner: AgentId,
) -> bool {
    &&& 0 <= tremble_draw < SCALE
    &&& 0 <= wheel_draw < SCALE
    &&& picked is None <==> candidates.len() == 0
    &&& picked is Some ==> candidates.contains(picked->0)
    &&& partner == partner_settled(
        partner_by_weight(weights, candidates, net_tremble, tremble_draw, wheel_draw),
        picked,
        stay,
    )
}

/// `partner` is what some draws give an agent that stands with `stay`, over
/// the row `weights`: a draw for the tremble and one for the wheel, each a
/// fraction of 1.0, and a pick among the candidates.
pub open spec fn partner_chosen(
    weights: Seq<i64>,
    candidates: Seq<usize>,
    net_tremble: int,
    stay: AgentId,
    partner: AgentId,
) -> bool {
    exists|tremble_draw: int, wheel_draw: int, picked: Option<usize>| #[trigger]
        partner_drawn(
            weights,
            candidates,
            net_tremble,
            stay,
            tremble_draw,
            wheel_draw,
            picked,
            partner,
        )
}

/// The strategy that the draws of a strategy choice select among `count`
/// open strategies: the one at `index_draw` where the agent trembles,
/// otherwise the one the wheel selects over `order`.
pub open spec fn strategy_by_draws(
    weights: Seq<i64>,
    strat_tremble: int,
    tremble_draw: int,
    index_draw: int,
    order: Seq<usize>,
    wheel_draw: int,
) -> Strategy {
    if spec_trembles(tremble_draw, strat_tremble) {
        strategy_at(index_draw)
    } else {
        strategy_at(exploited_place(weights, order, wheel_draw))
    }
}

/// The deviancy flag and the strategy that the draws of a strategy choice
/// give an agent with these weights and rates: the flag by the first draw,
/// the strategy by the others, where each draw is in its range and `order`
/// lists the open strategies once each.
pub open spec fn choice_by_draws(
    weights: Seq<i64>,
    morality_rate: int,
    deviancy_rate: int,
    strat_tremble: int,
    role: Role,
    deviant: bool,
    chosen: Strategy,
    deviancy_draw: int,
    tremble_draw: int,
    index_draw: int,
    order: Seq<usize>,
    wheel_draw: int,
) -> bool {
    let count = available_count(role, deviant);
    &&& 0 <= deviancy_draw < SCALE
    &&& 0 <= tremble_draw < SCALE
    &&& 0 <= wheel_draw < SCALE
    &&& 0 <= index_draw < count
    &&& is_shuffled_range(order, count)
    &&& deviant == draws_deviant(deviancy_draw, morality_rate, deviancy_rate)
    &&& chosen == strategy_by_draws(
        weights,
        strat_tremble,
        tremble_draw,
        index_draw,
        order,
        wheel_draw,
    )
}

/// The deviancy flag and the strategy are what some draws give an agent
/// with these weights and rates: see [`choice_by_draws`].
pub open spec fn choice_drawn(
    weights: Seq<i64>,
    morality_rate: int,
    deviancy_rate: int,
    strat_tremble: int,
    role: Role,
    deviant: bool,
    chosen: Strategy,
) -> bool {
    exists|
        deviancy_draw: int,
        tremble_draw: int,
        index_draw: int,
        order: Seq<usize>,
        wheel_draw: int,
    | #[trigger]
        choice_by_draws(
            weights,
            morality_rate,
            deviancy_rate,
            strat_tremble,
            role,
            deviant,
            chosen,
            deviancy_draw,
            tremble_draw,
            index_draw,
            order,
            wheel_draw,
        )
}

/// `after` is the agent `before` once it has chosen its strategy for `role`
/// from the given draws: deviancy by the first, the strategy by the others,
/// and the weights of the open strategies decayed once.
pub open spec fn strategy_settled(
    before: Agent,
    after: Agent,
    role: Role,
    deviancy_draw: int,
    tremble_draw: int,
    index_draw: int,
    order: Seq<usize>,
    wheel_draw: int,
) -> bool {
    &&& choice_by_draws(
        before.strategy.weights(role),
        before.morality_rate as int,
        before.deviancy_rate as int,
        before.agent_param.strat_tremble as int,
        role,
        after.deviant,
        after.current_strategy,
        deviancy_draw,
        tremble_draw,
        index_draw,
        order,
        wheel_draw,
    )
    &&& before.same_but_choice(after)
    &&& after.strategy.weights(role) == decayed(
        before.strategy.weights(role),
        available_count(role, after.deviant),
        before.agent_param.strat_discount as int,
    )
    &&& after.strategy.other_weights(role) == before.strategy.other_weights(role)
}

/// The same draws give the same choice: the deviancy flag and the strategy
/// are settled by the weights, the rates and the draws.
pub proof fn lemma_draws_settle_choice(
    weights: Seq<i64>,
    morality_rate: int,
    deviancy_rate: int,
    strat_tremble: int,
    role: Role,
    first: (bool, Strategy),
    second: (bool, Strategy),
    deviancy_draw: int,
    tremble_draw: int,
    index_draw: int,
    order: Seq<usize>,
    wheel_draw: int,
)
    requires
        choice_by_draws(
            weights,
            morality_rate,
            deviancy_rate,
            strat_tremble,
            role,
            first.0,
            first.1,
            deviancy_draw,
            tremble_draw,
            index_draw,
            order,
            wheel_draw,
        ),
        choice_by_draws(
            weights,
            morality_rate,
            deviancy_rate,
            strat_tremble,
            role,
            second.0,
            second.1,
            deviancy_draw,
            tremble_draw,
            index_draw,
            order,
            wheel_draw,
        ),
    ensures
        first == second,
{
}

/// The same draws give the same partner: it is settled by the row, the
/// candidates, the tremble probability and the draws.
pub proof fn lemma_draws_settle_partner(
    weights: Seq<i64>,
    candidates: Seq<usize>,
    net_tremble: int,
    stay: AgentId,
    tremble_draw: int,
    wheel_draw: int,
    picked: Option<usize>,
    first: AgentId,
    second: AgentId,
)
    requires
        partner_drawn(
            weights,
            candidates,
            net_tremble,
            stay,
            tremble_draw,
            wheel_draw,
            picked,
            first,
        ),
        partner_drawn(
            weights,
            candidates,
            net_tremble,
            stay,
            tremble_draw,
            wheel_draw,
            picked,
            second,
        ),
    ensures
        first == second,
{
}

/// An agent that trembles with certainty plays the strategy at the place
/// drawn for it, whatever its weights, the order and the draw for the wheel;
/// one that never trembles plays what the wheel selects.
pub proof fn lemma_tremble_settles_strategy(
    weights: Seq<i64>,
    strat_tremble: int,
    tremble_draw: int,
    index_draw: int,
    order: Seq<usize>,
    wheel_draw: int,
)
    requires
        0 <= tremble_draw < SCALE,
    ensures
        strat_tremble >= SCALE ==> strategy_by_draws(
            weights,
            strat_tremble,
            tremble_draw,
            index_draw,
            order,
            wheel_draw,
        ) == strategy_at(index_draw),
        strat_tremble <= 0 ==> strategy_by_draws(
            weights,
            strat_tremble,
            tremble_draw,
            index_draw,
            order,
            wheel_draw,
        ) == strategy_at(exploited_place(weights, order, wheel_draw)),
{
}

/// An agent that trembles with certainty ends with the candidate picked
/// for it without regard to the weights, whatever these are: nothing is
/// selected by weight. One that never trembles takes the candidate at which
/// the wheel stops, if it stops.
pub proof fn lemma_tremble_settles_partner(
    weights: Seq<i64>,
    candidates: Seq<usize>,
    net_tremble: int,
    tremble_draw: int,
    wheel_draw: int,
    picked: Option<usize>,
    stay: AgentId,
)
    requires
        0 <= tremble_draw < SCALE,
    ensures
        net_tremble >= SCALE ==> partner_settled(
            partner_by_weight(weights, candidates, net_tremble, tremble_draw, wheel_draw),
            picked,
            stay,
        ) == partner_settled(None, picked, stay),
        net_tremble <= 0 ==> partner_by_weight(
            weights,
            candidates,
            net_tremble,
            tremble_draw,
            wheel_draw,
        ) == wheel_choice(weights, candidates, wheel_draw),
{
}

/// Settles a partner choice by weight from its two draws: nothing where the
/// first makes the agent tremble, otherwise the candidate at which the wheel
/// stops for the second, if it stops.
pub fn settle_partner(
    weights: &Vec<i64>,
    candidates: &Vec<usize>,
    net_tremble: i64,
    tremble_draw: i64,
    wheel_draw: i64,
) -> (choice: Option<usize>)
    requires
        candidates@.len() <= MAX_PLACES,
        order_in_range(weights@, candidates@),
        0 <= wheel_draw <= SCALE,
    ensures
        choice == partner_by_weight(
            weights@,
            candidates@,
            net_tremble as int,
            tremble_draw as int,
            wheel_draw as int,
        ),
        choice is Some ==> candidates@.contains(choice->0) && choice->0 < weights@.len(),
{
    if trembles(tremble_draw, net_tremble) {
        None
    } else {
        pick_weighted(weights, candidates, wheel_draw)
    }
}

impl Agent {
    /// The agent's strategy vectors have their lengths.
    pub open spec fn wf(&self) -> bool {
        self.strategy.wf()
    }

    /// `other` differs from this agent at most in what a choice of strategy
    /// sets: the deviancy flag, the current strategy and the strategy weights.
    pub open spec fn same_but_choice(&self, other: Agent) -> bool {
        &&& other.agent_id == self.agent_id
        &&& other.agent_param == self.agent_param
        &&& other.score == self.score
        &&& other.total_payoff == self.total_payoff
        &&& other.current_partner == self.current_partner
        &&& other.current_payoff == self.current_payoff
        &&& other.morality_rate == self.morality_rate
        &&& other.deviancy_rate == self.deviancy_rate
    }

    /// A new agent: nothing earned, nothing chosen, every strategy weight
    /// and both morality rates at 1.0.
    pub fn new(agent_id: AgentId, score: i64, agent_param: AgentParameters) -> (agent: Agent)
        ensures
            agent.wf(),
            agent.agent_id == agent_id,
            agent.agent_param == agent_param,
            agent.score == score,
            agent.total_payoff == 0,
            agent.current_partner == AgentId(0),
            agent.strategy.visit@ == seq![SCALE, SCALE, SCALE],
            agent.strategy.host@ == seq![SCALE, SCALE],
            agent.current_strategy == Strategy::Undecided,
            agent.current_payoff == 0,
            agent.morality_rate == SCALE,
            agent.deviancy_rate == SCALE,
            !agent.deviant,
    {
        Agent {
            agent_id,
            agent_param,
            score,
            total_payoff: 0,
            current_partner: AgentId(0),
            strategy: StratVector::new(),
            current_strategy: Strategy::Undecided,
            current_payoff: 0,
            morality_rate: SCALE,
            deviancy_rate: SCALE,
            deviant: false,
        }
    }

    /// Picks the partner to visit among `temp_vec` and discounts the
    /// agent's weight toward every one of them.
    ///
    /// Three draws are made: one that decides between exploring and
    /// following the weights, one for the wheel over the candidates, in
    /// their order, and a uniform pick among the candidates. The partner is
    /// what [`settle_partner`] gives for the first two; where the agent
    /// explores, or the wheel does not stop, it is the uniform pick. With no
    /// candidate at all the agent stays with the partner it had. Whatever is
    /// drawn, the row is discounted once per candidate.
    pub fn partner_pick(
        &mut self,
        temp_vec: &Vec<usize>,
        network: &mut Network,
        rng: &mut RandomSource,
    ) -> (partner: AgentId)
        requires
            old(network).wf(),
            old(self).agent_id.0 < old(network).size(),
            temp_vec@.len() <= MAX_PLACES,
            forall|k: int| 0 <= k < temp_vec@.len() ==> (#[trigger] temp_vec@[k]) < old(network).size(),
        ensures
            temp_vec@.len() > 0 ==> temp_vec@.contains(partner.0 as usize),
            temp_vec@.len() == 0 ==> partner == old(self).current_partner,
            partner_chosen(
                old(network).row(old(self).agent_id.0 as int),
                temp_vec@,
                old(self).agent_param.net_tremble as int,
                old(self).current_partner,
                partner,
            ),
            *final(self) == (Agent { current_partner: partner, ..*old(self) }),
            final(network).wf(),
            old(network).same_but_row(*final(network), old(self).agent_id.0 as int),
            final(network).row(old(self).agent_id.0 as int) == discounted_row(
                old(network).row(old(self).agent_id.0 as int),
                temp_vec@,
                old(self).agent_param.net_discount as int,
                temp_vec@.len() as int,
            ),
            row_nonnegative(old(network).row(old(self).agent_id.0 as int)) && is_rate(
                old(self).agent_param.net_discount as int,
            ) ==> row_nonnegative(final(network).row(old(self).agent_id.0 as int)),
            row_live(old(network).row(old(self).agent_id.0 as int)) && is_partial_rate(
                old(self).agent_param.net_discount as int,
            ) ==> row_live(final(network).row(old(self).agent_id.0 as int)),
    {
        let me = self.agent_id.0 as usize;
        assert(network.row(me as int).len() == network.size());
        let tremble_draw = rng.unit();
        let wheel_draw = rng.unit();
        let picked = rng.pick(temp_vec);
        let by_weight = settle_partner(
            &network.0[me],
            temp_vec,
            self.agent_param.net_tremble,
            tremble_draw,
            wheel_draw,
        );
        let ghost row = network.row(me as int);
        network.discount_candidates(self.agent_id, temp_vec, self.agent_param.net_discount);
        let partner: AgentId = match by_weight {
            Some(c) => AgentId(c as u32),
            None => match picked {
                Some(c) => AgentId(c as u32),
                None => self.current_partner,
            },
        };
        assert(partner_drawn(
            row,
            temp_vec@,
            self.agent_param.net_tremble as int,
            self.current_partner,
            tremble_draw as int,
            wheel_draw as int,
            picked,
            partner,
        ));
        self.current_partner = partner;
        partner
    }

    /// Whether `draw` makes the agent deviant: the draw, as a fraction of
    /// the two rates together, does not fall below the morality rate.
    pub fn deviancy_for(&self, draw: i64) -> (deviant: bool)
        requires
            0 <= draw <= SCALE,
        ensures
            deviant == draws_deviant(
                draw as int,
                self.morality_rate as int,
                self.deviancy_rate as int,
            ),
    {
        let both: i128 = self.deviancy_rate as i128 + self.morality_rate as i128;
        assert(draw * both <= 0x4000_0000_0000_0000_0000_0000_0000_0000 && draw * both
            >= -0x4000_0000_0000_0000_0000_0000_0000_0000) by (nonlinear_arith)
            requires
                0 <= draw <= 1_000_000_000,
                -0x1_0000_0000_0000_0000 <= both <= 0x1_0000_0000_0000_0000,
        ;
        let lhs: i128 = draw as i128 * both;
        proof {
            crate::fixed::lemma_product_bound(self.morality_rate as int, SCALE as int);
        }
        let rhs: i128 = self.morality_rate as i128 * SCALE as i128;
        !(lhs < rhs)
    }

    /// Settles, from a draw, whether the agent is deviant in this turn.
    pub fn set_deviancy(&mut self, draw: i64)
        requires
            0 <= draw <= SCALE,
        ensures
            *final(self) == (Agent {
                deviant: draws_deviant(
                    draw as int,
                    old(self).morality_rate as int,
                    old(self).deviancy_rate as int,
                ),
                ..*old(self)
            }),
    {
        self.deviant = self.deviancy_for(draw);
    }

    /// Plays the strategy at place `index` without regard to the weights,
    /// then decays the weights of the strategies open in `role`.
    pub fn explore(&mut self, role: Role, index: usize)
        requires
            old(self).wf(),
            index < available_count(role, old(self).deviant),
        ensures
            final(self).wf(),
            old(self).same_but_choice(*final(self)),
            final(self).deviant == old(self).deviant,
            final(self).current_strategy == strategy_at(index as int),
            final(self).strategy.weights(role) == decayed(
                old(self).strategy.weights(role),
                available_count(role, old(self).deviant),
                old(self).agent_param.strat_discount as int,
            ),
            final(self).strategy.other_weights(role) == old(self).strategy.other_weights(role),
            old(self).strategy.nonnegative() && is_rate(old(self).agent_param.strat_discount as int)
                ==> final(self).strategy.nonnegative(),
    {
        self.current_strategy = Strategy::from_index(index);
        let count = available(role, self.deviant);
        let discount = self.agent_param.strat_discount;
        let weights = self.strategy.get_strat(&role);
        decay(weights, count, discount);
    }

    /// Plays the strategy that the wheel selects over the weights of the
    /// open strategies, visited in the given order, then decays those
    /// weights. Where the wheel does not stop (the weights add up to zero, or
    /// no running total reaches the draw) the last strategy of the order is
    /// played.
    pub fn exploit(&mut self, role: Role, order: &Vec<usize>, draw: i64)
        requires
            old(self).wf(),
            is_shuffled_range(order@, available_count(role, old(self).deviant)),
            0 <= draw <= SCALE,
        ensures
            final(self).wf(),
            old(self).same_but_choice(*final(self)),
            final(self).deviant == old(self).deviant,
            final(self).current_strategy == strategy_at(
                exploited_place(old(self).strategy.weights(role), order@, draw as int),
            ),
            is_available(final(self).current_strategy, role, old(self).deviant),
            final(self).strategy.weights(role) == decayed(
                old(self).strategy.weights(role),
                available_count(role, old(self).deviant),
                old(self).agent_param.strat_discount as int,
            ),
            final(self).strategy.other_weights(role) == old(self).strategy.other_weights(role),
            old(self).strategy.nonnegative() && is_rate(old(self).agent_param.strat_discount as int)
                ==> final(self).strategy.nonnegative(),
    {
        let count = available(role, self.deviant);
        let discount = self.agent_param.strat_discount;
        let weights = self.strategy.get_strat(&role);
        let place: usize = match pick_weighted(weights, order, draw) {
            Some(p) => p,
            None => order[order.len() - 1],
        };
        decay(weights, count, discount);
        self.current_strategy = Strategy::from_index(place);
    }

    /// Settles the strategy for this turn in `role` from draws already
    /// made. The first settles deviancy and the second whether the agent
    /// trembles. A trembling agent plays the strategy at `index_draw`; any
    /// other plays the one that the wheel selects for `wheel_draw` over the
    /// weights of the strategies open to it, visited in `order`. The weights
    /// of the open strategies are decayed exactly once.
    pub fn settle_strategy(
        &mut self,
        role: Role,
        deviancy_draw: i64,
        tremble_draw: i64,
        index_draw: usize,
        order: &Vec<usize>,
        wheel_draw: i64,
    )
        requires
            old(self).wf(),
            0 <= deviancy_draw < SCALE,
            0 <= tremble_draw < SCALE,
            0 <= wheel_draw < SCALE,
            index_draw < available_count(
                role,
                draws_deviant(
                    deviancy_draw as int,
                    old(self).morality_rate as int,
                    old(self).deviancy_rate as int,
                ),
            ),
            is_shuffled_range(
                order@,
                available_count(
                    role,
                    draws_deviant(
                        deviancy_draw as int,
                        old(self).morality_rate as int,
                        old(self).deviancy_rate as int,
                    ),
                ),
            ),
        ensures
            final(self).wf(),
            strategy_settled(
                *old(self),
                *final(self),
                role,
                deviancy_draw as int,
                tremble_draw as int,
                index_draw as int,
                order@,
                wheel_draw as int,
            ),
            is_available(final(self).current_strategy, role, final(self).deviant),
            old(self).strategy.nonnegative() && is_rate(old(self).agent_param.strat_discount as int)
                ==> final(self).strategy.nonnegative(),
    {
        self.set_deviancy(deviancy_draw);
        if trembles(tremble_draw, self.agent_param.strat_tremble) {
            self.explore(role, index_draw);
        } else {
            self.exploit(role, order, wheel_draw);
        }
    }

    /// Chooses the strategy for this turn in `role`.
    ///
    /// All draws are made first: one for deviancy, one for the tremble, a
    /// uniform place among the strategies open to the agent, a draw for the
    /// wheel and a shuffled order of the open strategies. The choice is what
    /// [`Agent::settle_strategy`] makes of them: the deviancy flag and the
    /// strategy are those that the draws give. Whatever is drawn, the strategy
    /// played is one of those open to the agent, and their weights are
    /// decayed exactly once.
    pub fn choose_strategy(&mut self, role: Role, rng: &mut RandomSource)
        requires
            old(self).wf(),
        ensures
            final(self).wf(),
            choice_drawn(
                old(self).strategy.weights(role),
                old(self).morality_rate as int,
                old(self).deviancy_rate as int,
                old(self).agent_param.strat_tremble as int,
                role,
                final(self).deviant,
                final(self).current_strategy,
            ),
            old(self).same_but_choice(*final(self)),
            is_available(final(self).current_strategy, role, final(self).deviant),
            final(self).strategy.weights(role) == decayed(
                old(self).strategy.weights(role),
                available_count(role, final(self).deviant),
                old(self).agent_param.strat_discount as int,
            ),
            final(self).strategy.other_weights(role) == old(self).strategy.other_weights(role),
            old(self).strategy.nonnegative() && is_rate(old(self).agent_param.strat_discount as int)
                ==> final(self).strategy.nonnegative(),
    {
        let deviancy_draw = rng.unit();
        let tremble_draw = rng.unit();
        let count = available(role, self.deviancy_for(deviancy_draw));
        let index_draw = rng.below(count as u64) as usize;
        let wheel_draw = rng.unit();
        let mut order = index_range(count);
        rng.shuffle(&mut order);
        let ghost before = *self;
        self.settle_strategy(role, deviancy_draw, tremble_draw, index_draw, &order, wheel_draw);
        assert(choice_by_draws(
            before.strategy.weights(role),
            before.morality_rate as int,
            before.deviancy_rate as int,
            before.agent_param.strat_tremble as int,
            role,
            self.deviant,
            self.current_strategy,
            deviancy_draw as int,
            tremble_draw as int,
            index_draw as int,
            order@,
            wheel_draw as int,
        ));
    }

    /// Reinforces the agent's weight toward its current partner by its
    /// current payoff times its network learning speed.
    pub fn add_network_payoff(&self, network: &mut Network)
        requires
            old(network).wf(),
            self.agent_id.0 < old(network).size(),
            self.current_partner.0 < old(network).size(),
        ensures
            final(network).wf(),
            old(network).same_but_row(*final(network), self.agent_id.0 as int),
            final(network).row(self.agent_id.0 as int) == old(network).row(
                self.agent_id.0 as int,
            ).update(
                self.current_partner.0 as int,
                reinforced(
                    old(network).row(self.agent_id.0 as int)[self.current_partner.0 as int] as int,
                    reward(self.current_payoff as int, self.agent_param.net_learning_speed as int),
                    self.agent_param.clamp_weights,
                ) as i64,
            ),
            row_nonnegative(old(network).row(self.agent_id.0 as int)) && rewards_keep_sign(
                self.current_payoff as int,
                self.agent_param.net_learning_speed as int,
                self.agent_param.clamp_weights,
            ) ==> row_nonnegative(final(network).row(self.agent_id.0 as int)),
    {
        proof {
            if self.current_payoff >= 0 && self.agent_param.net_learning_speed >= 0 {
                crate::fixed::lemma_times_nonnegative(
                    self.current_payoff as int,
                    self.agent_param.net_learning_speed as int,
                );
            }
        }
        let amount = times(self.current_payoff, self.agent_param.net_learning_speed);
        network.reinforce(
            self.agent_id,
            self.current_partner,
            amount,
            self.agent_param.clamp_weights,
        );
    }

    /// Reinforces the weight of the strategy just played in `role` by the
    /// current payoff times the strategy learning speed, and adds the
    /// current payoff to the total.
    pub fn add_strategy_payoff(&mut self, role: Role)
        requires
            old(self).wf(),
            place_of_strategy(old(self).current_strategy) < old(self).strategy.weights(role).len(),
        ensures
            final(self).wf(),
            final(self).strategy.weights(role) == old(self).strategy.weights(role).update(
                place_of_strategy(old(self).current_strategy),
                reinforced(
                    old(self).strategy.weights(role)[place_of_strategy(
                        old(self).current_strategy,
                    )] as int,
                    reward(
                        old(self).current_payoff as int,
                        old(self).agent_param.strat_learning_speed as int,
                    ),
                    old(self).agent_param.clamp_weights,
                ) as i64,
            ),
            final(self).strategy.other_weights(role) == old(self).strategy.other_weights(role),
            final(self).total_payoff == spec_plus(
                old(self).total_payoff as int,
                old(self).current_payoff as int,
            ),
            final(self).agent_id == old(self).agent_id,
            final(self).agent_param == old(self).agent_param,
            final(self).score == old(self).score,
            final(self).current_partner == old(self).current_partner,
            final(self).current_strategy == old(self).current_strategy,
            final(self).current_payoff == old(self).current_payoff,
            final(self).morality_rate == old(self).morality_rate,
            final(self).deviancy_rate == old(self).deviancy_rate,
            final(self).deviant == old(self).deviant,
            old(self).strategy.nonnegative() && rewards_keep_sign(
                old(self).current_payoff as int,
                old(self).agent_param.strat_learning_speed as int,
                old(self).agent_param.clamp_weights,
            ) ==> final(self).strategy.nonnegative(),
            old(self).current_payoff >= 0 && old(self).agent_param.strat_learning_speed >= 0
                ==> forall|j: int|
                0 <= j < old(self).strategy.weights(role).len() ==> (
                #[trigger] final(self).strategy.weights(role)[j]) >= old(self).strategy.weights(
                    role,
                )[j],
    {
        proof {
            if self.current_payoff >= 0 && self.agent_param.strat_learning_speed >= 0 {
                crate::fixed::lemma_times_nonnegative(
                    self.current_payoff as int,
                    self.agent_param.strat_learning_speed as int,
                );
            }
        }
        let index = self.current_strategy.index();
        let amount = times(self.current_payoff, self.agent_param.strat_learning_speed);
        let clamp = self.agent_param.clamp_weights;
        let weights = self.strategy.get_strat(&role);
        let sum = plus(weights[index], amount);
        weights[index] = if clamp {
            crate::fixed::floor_zero(sum)
        } else {
            sum
        };
        self.total_payoff = plus(self.total_payoff, self.current_payoff);
    }

    /// Takes the total payoff as the new score.
    pub fn update_score(&mut self)
        ensures
            *final(self) == (Agent { score: old(self).total_payoff, ..*old(self) }),
    {
        self.score = self.total_payoff;
    }

    /// Decays the morality rate and the deviancy rate by the strategy
    /// discount.
    pub fn discount_morality(&mut self)
        ensures
            *final(self) == (Agent {
                morality_rate: discounted(
                    old(self).morality_rate as int,
                    old(self).agent_param.strat_discount as int,
                ) as i64,
                deviancy_rate: discounted(
                    old(self).deviancy_rate as int,
                    old(self).agent_param.strat_discount as int,
                ) as i64,
                ..*old(self)
            }),
    {
        let keep = crate::fixed::complement(self.agent_param.strat_discount);
        self.morality_rate = fade(self.morality_rate, keep);
        self.deviancy_rate = fade(self.deviancy_rate, keep);
    }

    /// Credits the current payoff, times the strategy learning speed, to the
    /// deviancy rate of a deviant agent and to the morality rate of any
    /// other.
    pub fn add_morality_payoff(&mut self)
        ensures
            old(self).deviant ==> *final(self) == (Agent {
                deviancy_rate: spec_plus(
                    old(self).deviancy_rate as int,
                    reward(
                        old(self).current_payoff as int,
                        old(self).agent_param.strat_learning_speed as int,
                    ),
                ) as i64,
                ..*old(self)
            }),
            !old(self).deviant ==> *final(self) == (Agent {
                morality_rate: spec_plus(
                    old(self).morality_rate as int,
                    reward(
                        old(self).current_payoff as int,
                        old(self).agent_param.strat_learning_speed as int,
                    ),
                ) as i64,
                ..*old(self)
            }),
    {
        let amount = times(self.current_payoff, self.agent_param.strat_learning_speed);
        if self.deviant {
            self.deviancy_rate = plus(self.deviancy_rate, amount);
        } else {
            self.morality_rate = plus(self.morality_rate, amount);
        }
    }
}

} // verus!
