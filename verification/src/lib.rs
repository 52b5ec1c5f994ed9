//! Derivative-free local search for a word-guessing game.
//!
//! The only feedback is the rank that a scoring oracle gives a guessed word
//! (0 means solved, lower is closer). The search moves a query through an
//! embedding space, looks up the words nearest to it, has them scored, and
//! decides where to go next. This crate holds the decisions: what is excluded
//! from the next lookup, which neighbour is chosen, when the search stays put,
//! when it stops, and how several restarts are aggregated.

pub mod attempt;
pub mod config;
pub mod errors;
pub mod filter;
pub mod laws;
pub mod neighbors;
pub mod oracle;
pub mod replay;
pub mod restart;
pub mod seed;
pub mod selection;
pub mod solver;
pub mod step;
pub mod suggest;
