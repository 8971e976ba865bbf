//! A round-robin tournament of an iterated three-colour game between
//! pluggable player programs: the per-round payoff rule and Blue-bonus
//! doubling, the match engine, a catalog of programs, the pairing
//! scheduler with its score aggregation, and the deterministic ranking of
//! the results.

pub mod chance;
pub mod config;
pub mod game;
pub mod programs;
pub mod scores;
pub mod tournament;
