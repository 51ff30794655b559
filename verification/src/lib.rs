//! Dining philosophers: the decision core of a simulation in which agents
//! sleep, eat and think around a table of shared forks.
//!
//! The library holds every rule of the simulation as verified code: the
//! configuration, the fork topology and its acquisition order, the agent
//! state machine, the starvation monitor and the bookkeeping of the table.
//! A runtime drives it by calling [`simulation::Simulation::step`] each time
//! an agent resumes and performing the action that comes back.
pub mod clock;
pub mod config;
pub mod event;
pub mod forks;
pub mod philo;
pub mod preservation;
pub mod progress;
pub mod runs;
pub mod safety;
pub mod simulation;
pub mod table;
pub mod text;
pub mod timing;
