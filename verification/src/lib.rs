//! Snow-family binary consensus simulation library.
//!
//! The core of the crate is two verified consensus solvers (Snowball and
//! Claro) together with the machinery that drives a population of nodes —
//! honest solvers and several adversarial behaviours — over a shared vector
//! of network votes, under four scheduling disciplines, until a termination
//! ward fires.

pub mod vote;
pub mod warding;
pub mod claro;
pub mod deque;
pub mod network_behaviour;
pub mod node;
pub mod output_processors;
pub mod query;
pub mod runner;
pub mod settings;
pub mod rng;
pub mod snowball;
