//! Chat-driven voting for a fighting-game plugin: a Twitch chat votes on
//! effects (or on which player receives an effect), and the winning effect
//! runs through a timed lifecycle on the affected fighters.
use vstd::prelude::*;

pub mod config;
pub mod effects;
pub mod hooks;
pub mod laws;
pub mod sys_line;
pub mod twitch;
pub mod utils;
pub mod vote_text;
pub mod voting;

verus! {

/// How the chat takes part in a voting period.
#[derive(PartialEq, Eq, Structural, Clone, Copy, Debug)]
pub enum GameModes {
    /// One random effect is drawn; the chat votes for which player gets it.
    ChoosePlayer,
    /// A rotation of effects is offered; the chat votes for the effect that applies to everyone.
    ChooseEffect,
}

} // verus!
