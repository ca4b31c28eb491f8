//! The discrete core of a gravitational N-body engine.
//!
//! The engine moves bodies under their mutual gravity, merges bodies that
//! collide, and keeps a record of the run. Everything that is decided
//! without arithmetic on masses, positions or velocities is decided here:
//!
//! - `roster`: which bodies are live, under indices that never change;
//! - `pairing`: which bodies pull at which, and which pairs count for the
//!   potential energy;
//! - `schedule`: the order of the work within one tick;
//! - `merge` and `sweep`: who survives a merge, which pairs a collision
//!   sweep visits, and what every sequence of merges leaves behind;
//! - `scenario` and `label`: the choice of a scenario, the names of its
//!   bodies and their count;
//! - `record`: the layout of the rows of the persisted record, and their
//!   encoding as CSV lines;
//! - `trail`: the ring of slots behind a drawn trail;
//! - `prompt`: what an answer typed at the console means.
//!
//! The driver does the arithmetic, the drawing and the input and output,
//! and asks the library at every decision.

pub mod label;
pub mod merge;
pub mod pairing;
pub mod prompt;
pub mod record;
pub mod roster;
pub mod scenario;
pub mod schedule;
pub mod sweep;
pub mod trail;
