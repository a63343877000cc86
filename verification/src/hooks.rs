//! Decisions behind the game-function hooks: gravity while flying or in low
//! gravity, and ledge grabs while ledges are off.
use vstd::prelude::*;

use crate::effects::{FLIGHT, LOW_GRAV, MAX_PLAYERS, NO_LEDGES};
use crate::voting::{Voting, VotingView};

verus! {

/// How a fighter's vertical air acceleration is changed.
#[derive(Clone, Copy, Debug, PartialEq, Eq, Structural)]
pub enum AirAccel {
    Unchanged,
    /// Low gravity is on for the fighter: acceleration is halved.
    LowGravity,
    /// Flight is on for the fighter: acceleration is divided by 2.3.
    Flight,
}

pub open spec fn effect_on(m: VotingView, effect: usize, id: usize) -> bool {
    m.votes.len() > 0 && m.votes[effect as int].is_on_for(id as int)
}

/// Which change applies to the air acceleration of the fighter in slot
/// `id`: low gravity first, then flight.
pub fn air_accel_modifier(state: &Voting, id: usize) -> (r: AirAccel)
    requires
        state@.wf(),
        id < MAX_PLAYERS,
    ensures
        r == if effect_on(state@, LOW_GRAV, id) {
            AirAccel::LowGravity
        } else if effect_on(state@, FLIGHT, id) {
            AirAccel::Flight
        } else {
            AirAccel::Unchanged
        },
{
    if state.effect_on_for(LOW_GRAV, id) {
        AirAccel::LowGravity
    } else if state.effect_on_for(FLIGHT, id) {
        AirAccel::Flight
    } else {
        AirAccel::Unchanged
    }
}

/// Whether the fighter in slot `id` is kept from grabbing ledges.
pub fn ledge_grab_blocked(state: &Voting, id: usize) -> (r: bool)
    requires
        state@.wf(),
        id < MAX_PLAYERS,
    ensures
        r == effect_on(state@, NO_LEDGES, id),
{
    state.effect_on_for(NO_LEDGES, id)
}

} // verus!
