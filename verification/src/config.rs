//! The configuration of a run, as plain values.

use vstd::prelude::*;

use crate::agent::AgentParameters;
use crate::payoff::PayoffScores;

verus! {

/// How many replicates to run, for how long, and on what population.
#[derive(Clone, Debug, PartialEq, Eq)]
pub struct SimulationParameters {
    pub seeds: u64,
    pub max_time_step: u64,
    pub population: u32,
    pub dynamic_rank: bool,
    pub output_directory: String,
}

/// Which reports are written.
#[derive(Clone, Copy, Debug, PartialEq, Eq, Structural)]
pub struct CSVFiles {
    pub weights: bool,
    pub scores: bool,
    pub totalinteractions: bool,
    pub evostats: bool,
    pub strategyvisit: bool,
    pub strategyhost: bool,
    pub netstd: bool,
    pub outscore: bool,
    pub totalpayoff: bool,
}

/// Everything that one configuration holds.
#[derive(Clone, Debug, PartialEq, Eq)]
pub struct RootConfig {
    pub description: String,
    pub simulation: SimulationParameters,
    pub agent_parameters: AgentParameters,
    pub payoffs: PayoffScores,
    pub csv: CSVFiles,
}

} // verus!
