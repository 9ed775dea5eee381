//! Card composition and the phase-by-phase match state machine of a small
//! collectible card game simulator.

pub mod card;
pub mod creature;
pub mod tappable;
pub mod game;
pub mod rules;
pub mod combat;
pub mod sim;
pub mod command;
pub mod laws;
