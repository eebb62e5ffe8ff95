//! One replicate: a population, its network and its own stream of random
//! draws, advanced round by round. Replicates share nothing, so any number
//! of them can run side by side.

use vstd::prelude::*;

use crate::agent::{Agent, AgentParameters};
use crate::fixed::SCALE;
use crate::network::{alike_row, normalized_row, row_settled, AgentId, Network, MAX_POPULATION};
use crate::payoff::PayoffMap;
use crate::random::RandomSource;
use crate::round::{
    all_keep_rows_live, all_keep_rows_nonnegative, choices_agree, keeps_rows_live,
    keeps_rows_nonnegative, keeps_weights_nonnegative, latches, lemma_round_settled_by_choices,
    network_live, network_settled, no_self_weight, population_wf, round_played, rows_settled,
    run_time_step, same_state, weights_nonnegative, RoundState,
};
use crate::strategy::Strategy;
use crate::tracker::{AgentInteractionTracker, InteractionTracker, Pairing};

verus! {

/// Why a replicate could not be set up.
#[derive(Clone, Copy, Debug, PartialEq, Eq, Structural)]
pub enum ReplicateError {
    /// A population needs at least two agents: a visitor and a host.
    PopulationTooSmall,
}

/// The state of one replicate between two rounds.
pub struct Replicate {
    agents: Vec<Agent>,
    network: Network,
    agent_interaction_tracker: Vec<AgentInteractionTracker>,
    payoffs: PayoffMap,
    dynamic_rank: bool,
    round: u64,
    rng: RandomSource,
}

/// An agent as it stands before the first round, whatever its score.
pub open spec fn is_fresh(agent: Agent, id: int, param: AgentParameters) -> bool {
    &&& agent.agent_id.0 == id
    &&& agent.agent_param == param
    &&& agent.total_payoff == 0
    &&& agent.current_partner == AgentId(0)
    &&& agent.strategy.visit@ == seq![SCALE, SCALE, SCALE]
    &&& agent.strategy.host@ == seq![SCALE, SCALE]
    &&& agent.current_strategy == Strategy::Undecided
    &&& agent.current_payoff == 0
    &&& agent.morality_rate == SCALE
    &&& agent.deviancy_rate == SCALE
    &&& !agent.deviant
}

impl Replicate {
    /// The population fits its network and its trackers, and no agent has
    /// been counted in more meetings than the rounds played allow.
    #[verifier::type_invariant]
    pub closed spec fn inv(&self) -> bool {
        &&& population_wf(self.agents@, self.network, self.agent_interaction_tracker@)
        &&& forall|a: int, p: Pairing|
            0 <= a < self.agents@.len() ==> (#[trigger] self.agent_interaction_tracker@[a].count(p))
                <= self.round * self.agents@.len()
    }

    /// The agents, each at the place that its handle names.
    pub closed spec fn agents_view(&self) -> Seq<Agent> {
        self.agents@
    }

    /// The network.
    pub closed spec fn network_view(&self) -> Network {
        self.network
    }

    /// The agents' trackers.
    pub closed spec fn trackers_view(&self) -> Seq<AgentInteractionTracker> {
        self.agent_interaction_tracker@
    }

    /// The number of rounds played.
    pub closed spec fn rounds_played(&self) -> u64 {
        self.round
    }

    /// Whether the scores follow the total payoffs.
    pub closed spec fn ranks_are_dynamic(&self) -> bool {
        self.dynamic_rank
    }

    /// The payoff table.
    pub closed spec fn payoffs_view(&self) -> PayoffMap {
        self.payoffs
    }

    /// The population as a round sees it, with `counted` for the meetings
    /// of the round.
    pub open spec fn state(&self, counted: InteractionTracker) -> RoundState {
        RoundState {
            agents: self.agents_view(),
            network: self.network_view(),
            counted: counted,
            trackers: self.trackers_view(),
        }
    }

    /// No weight is negative, and the agents' parameters keep it so.
    pub open spec fn steady(&self) -> bool {
        weights_nonnegative(self.agents_view(), self.network_view(), self.payoffs_view())
    }

    /// No weight of the network is negative, and the agents' network
    /// parameters keep it so.
    pub open spec fn tame(&self) -> bool {
        &&& self.network_view().nonnegative()
        &&& all_keep_rows_nonnegative(self.agents_view(), self.payoffs_view())
    }

    /// The network is alive, and the agents' parameters keep it so: no
    /// weight is negative, every row adds up to more than zero, no agent
    /// discounts its row at 1.0, and no reward is negative.
    pub open spec fn thriving(&self) -> bool {
        &&& network_live(self.network_view())
        &&& all_keep_rows_live(self.agents_view(), self.payoffs_view())
    }

    /// The counters have room for one more round.
    pub open spec fn has_room(&self) -> bool {
        (self.rounds_played() + 1) * self.agents_view().len() <= u64::MAX
    }

    /// Sets up the replicate of `seed`: `population` fresh agents, each with
    /// a score drawn from the replicate's own stream, a network in which all
    /// prefer all others alike, and trackers that have counted nothing.
    pub fn new(
        population: u32,
        agent_parameters: AgentParameters,
        payoffs: PayoffMap,
        dynamic_rank: bool,
        seed: u64,
    ) -> (made: Result<Replicate, ReplicateError>)
        ensures
            made is Ok <==> population >= 2,
            made is Err ==> made->Err_0 == ReplicateError::PopulationTooSmall,
            made is Ok ==> {
                let r = made->Ok_0;
                &&& r.rounds_played() == 0
                &&& r.ranks_are_dynamic() == dynamic_rank
                &&& r.payoffs_view() == payoffs
                &&& r.agents_view().len() == population
                &&& r.trackers_view().len() == population
                &&& r.network_view().size() == population
                &&& population_wf(r.agents_view(), r.network_view(), r.trackers_view())
                &&& forall|a: int|
                    0 <= a < population ==> {
                        &&& is_fresh(#[trigger] r.agents_view()[a], a, agent_parameters)
                        &&& 0 <= r.agents_view()[a].score < SCALE
                    }
                &&& forall|a: int, p: Pairing|
                    0 <= a < population ==> (#[trigger] r.trackers_view()[a].count(p)) == 0
                &&& forall|a: int|
                    0 <= a < population ==> (#[trigger] r.network_view().row(a)) == normalized_row(
                        alike_row(population as int, a),
                    )
                &&& forall|a: int, b: int|
                    0 <= a < population && 0 <= b < population ==> (if a == b {
                        (#[trigger] r.network_view().row(a)[b]) == 0
                    } else {
                        SCALE as int / (population - 1) <= r.network_view().row(a)[b] <= SCALE as int
                            / (population - 1) + 1
                    })
                &&& network_live(r.network_view())
                &&& network_settled(r.network_view())
                &&& no_self_weight(r.network_view())
                &&& keeps_weights_nonnegative(agent_parameters, payoffs) ==> r.steady()
                &&& keeps_rows_nonnegative(agent_parameters, payoffs) ==> r.tame()
                &&& keeps_rows_live(agent_parameters, payoffs) ==> r.thriving()
            },
    {
        if population < 2 {
            return Err(ReplicateError::PopulationTooSmall);
        }
        let pop = population as usize;
        let mut rng = RandomSource::new(seed);
        let network = Network::new(pop);
        let mut agents: Vec<Agent> = Vec::new();
        let mut trackers: Vec<AgentInteractionTracker> = Vec::new();
        let mut i: u32 = 0;
        while i < population
            invariant
                i <= population,
                agents@.len() == i,
                trackers@.len() == i,
                forall|a: int|
                    0 <= a < i ==> {
                        &&& is_fresh(#[trigger] agents@[a], a, agent_parameters)
                        &&& (agents@[a]).wf()
                        &&& 0 <= agents@[a].score < SCALE
                    },
                forall|a: int, p: Pairing| 0 <= a < i ==> (#[trigger] trackers@[a].count(p)) == 0,
            decreases population - i,
        {
            let score = rng.unit();
            agents.push(Agent::new(AgentId(i), score, agent_parameters));
            trackers.push(AgentInteractionTracker::new());
            i = i + 1;
        }
        proof {
            assert forall|a: int, p: Pairing| 0 <= a < agents@.len() implies (
            #[trigger] trackers@[a].count(p)) <= 0 * agents@.len() by {
                assert(0 * agents@.len() == 0) by (nonlinear_arith);
            }
            assert forall|a: int| 0 <= a < network.size() implies crate::network::row_live(
                #[trigger] network.row(a),
            ) by {
                assert(crate::network::row_nonnegative(network.row(a)));
                assert(crate::network::row_total(network.row(a)) == SCALE);
            }
            assert forall|a: int| 0 <= a < network.size() implies (#[trigger] network.row(a))[a]
                == 0 by {
                assert(network.row(a)[a] == 0);
            }
            assert forall|a: int| 0 <= a < agents@.len() implies (
            #[trigger] agents@[a]).strategy.nonnegative() by {
                assert(is_fresh(agents@[a], a, agent_parameters));
            }
        }
        Ok(
            Replicate {
                agents,
                network,
                agent_interaction_tracker: trackers,
                payoffs,
                dynamic_rank,
                round: 0,
                rng,
            },
        )
    }

    /// The agents.
    pub fn agents(&self) -> (agents: &Vec<Agent>)
        ensures
            agents@ == self.agents_view(),
            population_wf(self.agents_view(), self.network_view(), self.trackers_view()),
    {
        proof {
            use_type_invariant(self);
        }
        &self.agents
    }

    /// The network.
    pub fn network(&self) -> (network: &Network)
        ensures
            *network == self.network_view(),
            population_wf(self.agents_view(), self.network_view(), self.trackers_view()),
    {
        proof {
            use_type_invariant(self);
        }
        &self.network
    }

    /// The agents' trackers.
    pub fn trackers(&self) -> (trackers: &Vec<AgentInteractionTracker>)
        ensures
            trackers@ == self.trackers_view(),
            population_wf(self.agents_view(), self.network_view(), self.trackers_view()),
    {
        proof {
            use_type_invariant(self);
        }
        &self.agent_interaction_tracker
    }

    /// The number of agents.
    pub fn population(&self) -> (pop: usize)
        ensures
            pop == self.agents_view().len(),
            2 <= pop <= MAX_POPULATION,
    {
        proof {
            use_type_invariant(self);
        }
        self.agents.len()
    }

    /// The number of rounds played.
    pub fn round(&self) -> (round: u64)
        ensures
            round == self.rounds_played(),
    {
        self.round
    }

    /// Whether the counters have room for one more round.
    pub fn can_advance(&self) -> (yes: bool)
        ensures
            yes == self.has_room(),
    {
        proof {
            use_type_invariant(self);
        }
        let pop = self.agents.len() as u128;
        let next = self.round as u128 + 1;
        assert(next * pop <= 0x1_0000_0000_0000_0000 * 0x1_0000_0000) by (nonlinear_arith)
            requires
                0 <= next <= 0x1_0000_0000_0000_0000,
                0 <= pop <= 0x1_0000_0000,
        ;
        next * pop <= u64::MAX as u128
    }

    /// What one round makes of a replicate.
    ///
    /// The round's number is one more than the rounds played before. In some
    /// order every agent takes its turn, and `counted` counts their meetings:
    /// as many as there are agents. Where the ranks are dynamic and the
    /// round's number is a multiple of the latch interval, every score
    /// becomes the agent's total payoff; in every other round, and always
    /// where the ranks are not dynamic, every score stays what it was. Where
    /// no weight was negative and the parameters keep it so, no weight is
    /// negative afterwards, and every row of the network adds up to 1.0 or to
    /// zero; for the network alone this needs only its own weights and the
    /// agents' network parameters. Where the network was alive and the parameters keep it so, it is
    /// alive afterwards, every row adds up to exactly 1.0, and the weight of
    /// every agent toward itself is zero if it was.
    pub open spec fn advanced(&self, next: Replicate, counted: InteractionTracker) -> bool {
        let before = self.agents_view();
        let after = next.agents_view();
        let latch = latches(next.rounds_played(), self.ranks_are_dynamic());
        &&& next.rounds_played() == self.rounds_played() + 1
        &&& next.ranks_are_dynamic() == self.ranks_are_dynamic()
        &&& next.payoffs_view() == self.payoffs_view()
        &&& after.len() == before.len()
        &&& counted.total() == before.len()
        &&& forall|a: int|
            0 <= a < before.len() ==> {
                &&& (#[trigger] after[a]).agent_id == before[a].agent_id
                &&& after[a].agent_param == before[a].agent_param
                &&& latch ==> after[a].score == after[a].total_payoff
                &&& !latch ==> after[a].score == before[a].score
            }
        &&& self.steady() ==> next.steady() && forall|a: int|
            0 <= a < before.len() ==> row_settled(#[trigger] next.network_view().row(a))
        &&& self.tame() ==> next.tame() && rows_settled(next.network_view())
        &&& self.thriving() ==> {
            &&& next.thriving()
            &&& network_settled(next.network_view())
            &&& no_self_weight(self.network_view()) ==> no_self_weight(next.network_view())
        }
        &&& exists|order: Seq<usize>, chain: Seq<RoundState>|
            #[trigger] round_played(
                next.rounds_played(),
                self.ranks_are_dynamic(),
                self.payoffs_view(),
                self.state(InteractionTracker::nothing()),
                next.state(counted),
                order,
                chain,
            )
    }

    /// The same choices give the same replicate: two replicates that agree,
    /// advanced by one round in which the agents take their turns in the same
    /// order and make the same choices, agree afterwards in every agent,
    /// every weight and every counter. So two replicates that begin alike
    /// stay alike for as long as the same is drawn in both.
    pub proof fn lemma_advance_settled_by_choices(
        first: Replicate,
        second: Replicate,
        first_next: Replicate,
        first_counted: InteractionTracker,
        second_next: Replicate,
        second_counted: InteractionTracker,
        order: Seq<usize>,
        first_chain: Seq<RoundState>,
        second_chain: Seq<RoundState>,
    )
        requires
            population_wf(first.agents_view(), first.network_view(), first.trackers_view()),
            same_state(
                first.state(InteractionTracker::nothing()),
                second.state(InteractionTracker::nothing()),
            ),
            first.payoffs_view() == second.payoffs_view(),
            first.ranks_are_dynamic() == second.ranks_are_dynamic(),
            first_next.rounds_played() == second_next.rounds_played(),
            round_played(
                first_next.rounds_played(),
                first.ranks_are_dynamic(),
                first.payoffs_view(),
                first.state(InteractionTracker::nothing()),
                first_next.state(first_counted),
                order,
                first_chain,
            ),
            round_played(
                second_next.rounds_played(),
                second.ranks_are_dynamic(),
                second.payoffs_view(),
                second.state(InteractionTracker::nothing()),
                second_next.state(second_counted),
                order,
                second_chain,
            ),
            forall|j: int|
                0 <= j < order.len() ==> #[trigger] choices_agree(
                    order,
                    first_chain,
                    second_chain,
                    j,
                ),
        ensures
            same_state(first_next.state(first_counted), second_next.state(second_counted)),
    {
        lemma_round_settled_by_choices(
            first_next.rounds_played(),
            first.ranks_are_dynamic(),
            first.payoffs_view(),
            first.state(InteractionTracker::nothing()),
            first_next.state(first_counted),
            second.state(InteractionTracker::nothing()),
            second_next.state(second_counted),
            order,
            first_chain,
            second_chain,
        );
    }

    /// Plays the next round and returns the replicate after it, with the count
    /// of the round's meetings.
    pub fn advance(self) -> (next: (Replicate, InteractionTracker))
        requires
            self.has_room(),
        ensures
            self.advanced(next.0, next.1),
    {
        proof {
            use_type_invariant(&self);
        }
        let Replicate {
            mut agents,
            mut network,
            mut agent_interaction_tracker,
            payoffs,
            dynamic_rank,
            round,
            mut rng,
        } = self;
        let pop = agents.len();
        let ghost before = agent_interaction_tracker@;
        let ghost played = round as int;
        proof {
            assert((played + 1) * pop == played * pop + pop) by (nonlinear_arith);
            assert forall|a: int| 0 <= a < before.len() implies (#[trigger] before[a]).has_room(
                pop as int,
            ) by {
                assert forall|p: Pairing| before[a].count(p) + pop <= u64::MAX by {
                    assert(before[a].count(p) <= played * pop);
                }
            }
            assert(played + 1 <= u64::MAX) by (nonlinear_arith)
                requires
                    (played + 1) * pop <= u64::MAX,
                    pop >= 2,
                    played >= 0,
            ;
        }
        let i = round + 1;
        let ghost state0 = RoundState {
            agents: agents@,
            network: network,
            counted: InteractionTracker::nothing(),
            trackers: agent_interaction_tracker@,
        };
        let interaction_tracker = run_time_step(
            i,
            &mut agents,
            pop,
            &mut network,
            &payoffs,
            dynamic_rank,
            &mut agent_interaction_tracker,
            &mut rng,
        );
        proof {
            assert forall|a: int, p: Pairing| 0 <= a < agents@.len() implies (
            #[trigger] agent_interaction_tracker@[a].count(p)) <= i * agents@.len() by {
                assert(before[a].count(p) <= played * pop);
            }
            if all_keep_rows_nonnegative(state0.agents, payoffs) {
                assert forall|a: int| 0 <= a < agents@.len() implies keeps_rows_nonnegative(
                    (#[trigger] agents@[a]).agent_param,
                    payoffs,
                ) by {
                    assert(keeps_rows_nonnegative(state0.agents[a].agent_param, payoffs));
                }
            }
            if all_keep_rows_live(state0.agents, payoffs) {
                assert forall|a: int| 0 <= a < agents@.len() implies keeps_rows_live(
                    (#[trigger] agents@[a]).agent_param,
                    payoffs,
                ) by {
                    assert(keeps_rows_live(state0.agents[a].agent_param, payoffs));
                }
            }
        }
        let ghost state1 = RoundState {
            agents: agents@,
            network: network,
            counted: interaction_tracker,
            trackers: agent_interaction_tracker@,
        };
        let next = (
            Replicate {
                agents,
                network,
                agent_interaction_tracker,
                payoffs,
                dynamic_rank,
                round: i,
                rng,
            },
            interaction_tracker,
        );
        proof {
            let (order, chain) = choose|order: Seq<usize>, chain: Seq<RoundState>|
                #[trigger] round_played(i, dynamic_rank, payoffs, state0, state1, order, chain);
            assert(round_played(
                next.0.rounds_played(),
                self.ranks_are_dynamic(),
                self.payoffs_view(),
                self.state(InteractionTracker::nothing()),
                next.0.state(next.1),
                order,
                chain,
            ));
        }
        next
    }

    /// Plays the next round if the counters have room for it; otherwise hands
    /// the replicate back as it is.
    pub fn step(self) -> (next: (Replicate, Option<InteractionTracker>))
        ensures
            next.1 is Some <==> self.has_room(),
            next.1 is None ==> next.0 == self,
            next.1 is Some ==> self.advanced(next.0, next.1->0),
    {
        if self.can_advance() {
            let (after, interaction_tracker) = self.advance();
            (after, Some(interaction_tracker))
        } else {
            (self, None)
        }
    }
}

} // verus!
