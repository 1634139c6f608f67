//! Spyder cable-driven parallel robot toolkit: the integer and text logic of
//! the motor protocols, board routing, venue files, safety limits and
//! restraint classification, with their specifications.
//!
//! - [`stepper`], [`stepper_sim`], [`protocol`]: the stepper line protocol,
//!   from both ends, and why the two ends agree.
//! - [`backend`], [`multi_board`], [`axis_map`]: motor backends and the
//!   routing of cables to boards.
//! - [`transport`]: line transports and the framing of received bytes.
//! - [`venue`], [`venue_emit`], [`venue_roundtrip`], [`venue_comments`]:
//!   reading and writing venue files, reading back what was written, and
//!   why comments and blank lines change nothing.
//! - [`classify`], [`cable_model`], [`fk_inputs`], [`safety`], [`session`], [`cli`],
//!   [`dto`], [`errors`], [`text`]: the rest.

use vstd::prelude::*;

pub mod axis_map;
pub mod backend;
pub mod cable_model;
pub mod classify;
pub mod cli;
pub mod dto;
pub mod errors;
pub mod fk_inputs;
pub mod multi_board;
pub mod protocol;
pub mod safety;
pub mod session;
pub mod stepper;
pub mod stepper_sim;
pub mod text;
pub mod transport;
pub mod venue;
pub mod venue_comments;
pub mod venue_emit;
pub mod venue_roundtrip;

pub use classify::{classify_restraint, classify_restraint_ranked, RestraintClass};
pub use stepper_sim::SimState;

verus! {

} // verus!
