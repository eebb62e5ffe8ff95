//! Repeated Hawk-Dove-Fox games on a social network whose agents learn, by
//! reinforcement, whom to visit and which strategy to play as host and as
//! visitor.
//!
//! A round gives every agent one turn as visitor, in a shuffled order. In
//! its turn an agent picks a host by its network row, both choose a
//! strategy by their learned weights (or, trembling, at random), the game is
//! resolved from the payoff table, and both reinforce what they did. The
//! turns are applied one after the other: each sees what the turns before it
//! left behind.
//!
//! Every quantity is a fixed-point number (see [`fixed`]), so that each step
//! has one exact result. All randomness comes from one seeded stream per
//! replicate (see [`random`]); what a turn does is settled by the choices
//! drawn from it (see [`round::turn_taken`]).

pub mod fixed;
pub mod random;
pub mod wheel;
pub mod strategy;
pub mod tracker;
pub mod network;
pub mod agent;
pub mod payoff;
pub mod round;
pub mod replicate;
pub mod config;
pub mod report;
