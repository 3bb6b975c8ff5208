//! Verified core of a single-period credit portfolio model.
//!
//! The library holds the structural logic of the Monte Carlo engine: how
//! borrowers are grouped, how a realised asset value is mapped to a rating
//! class, in which order a trial consumes its standard-normal draws, how
//! trials are partitioned into independently seeded chunks, and the shape
//! checks made while a portfolio is wired together.
pub mod config;
pub mod rating;
pub mod risk_group;
pub mod draw_plan;
pub mod chunks;
