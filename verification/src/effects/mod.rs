//! The effects the chat votes on, the per-effect vote record, and the
//! lifecycle each effect goes through on a fighter.
use vstd::prelude::*;

pub mod lifecycle;

verus! {

/// Fighter slots in a match.
pub const MAX_PLAYERS: usize = 8;

/// Number of effects that can be voted on.
pub const NUM_EFFECTS: usize = 13;

pub const TURBO: usize = 0;
pub const CURRY: usize = 1;
pub const DEATH: usize = 2;
pub const SLEEP: usize = 3;
pub const LOW_GRAV: usize = 4;
pub const SLOW_MO: usize = 5;
pub const FLIGHT: usize = 6;
pub const TRIP: usize = 7;
pub const FINAL_SMASH: usize = 8;
pub const REVERSE: usize = 9;
pub const JUMPS: usize = 10;
pub const DMG_OR_HEAL: usize = 11;
pub const NO_LEDGES: usize = 12;

/// The name the chat sees for each effect.
pub open spec fn spec_effect_name(effect: usize) -> Seq<char> {
    if effect == TURBO {
        "turbo"@
    } else if effect == CURRY {
        "curry"@
    } else if effect == DEATH {
        "death"@
    } else if effect == SLEEP {
        "sleep"@
    } else if effect == LOW_GRAV {
        "low-grav"@
    } else if effect == SLOW_MO {
        "slow-mo"@
    } else if effect == FLIGHT {
        "flight"@
    } else if effect == TRIP {
        "trip"@
    } else if effect == FINAL_SMASH {
        "final-smash"@
    } else if effect == REVERSE {
        "reverse"@
    } else if effect == JUMPS {
        "jumps"@
    } else if effect == DMG_OR_HEAL {
        "dmg-or-heal"@
    } else {
        "no-ledges"@
    }
}

/// The name of an effect, as listed to the chat.
pub fn effect_name(effect: usize) -> (name: &'static str)
    requires
        effect < NUM_EFFECTS,
    ensures
        name@ == spec_effect_name(effect),
{
    if effect == TURBO {
        "turbo"
    } else if effect == CURRY {
        "curry"
    } else if effect == DEATH {
        "death"
    } else if effect == SLEEP {
        "sleep"
    } else if effect == LOW_GRAV {
        "low-grav"
    } else if effect == SLOW_MO {
        "slow-mo"
    } else if effect == FLIGHT {
        "flight"
    } else if effect == TRIP {
        "trip"
    } else if effect == FINAL_SMASH {
        "final-smash"
    } else if effect == REVERSE {
        "reverse"
    } else if effect == JUMPS {
        "jumps"
    } else if effect == DMG_OR_HEAL {
        "dmg-or-heal"
    } else {
        "no-ledges"
    }
}

/// The vote record of one effect.
#[derive(Clone, Copy, Debug)]
pub struct Vote {
    /// Votes per player slot when the chat picks a player; when the chat
    /// picks an effect only slot 0 counts.
    pub votes: [usize; 8],
    /// The effect has been voted in and not yet run out.
    pub is_enabled: bool,
    /// Per player slot: `None` for a slot with no fighter, otherwise whether
    /// the effect is currently on for that fighter.
    pub players: [Option<bool>; 8],
    /// Per player slot, the match clock reading when the effect turned on.
    pub activate_times: [u32; 8],
}

/// [`Vote`] with its arrays as sequences.
pub struct VoteView {
    pub votes: Seq<usize>,
    pub is_enabled: bool,
    pub players: Seq<Option<bool>>,
    pub activate_times: Seq<u32>,
}

impl View for Vote {
    type V = VoteView;

    open spec fn view(&self) -> VoteView {
        VoteView {
            votes: self.votes@,
            is_enabled: self.is_enabled,
            players: self.players@,
            activate_times: self.activate_times@,
        }
    }
}

impl VoteView {
    /// Every array has one entry per player slot.
    pub open spec fn wf(self) -> bool {
        &&& self.votes.len() == MAX_PLAYERS
        &&& self.players.len() == MAX_PLAYERS
        &&& self.activate_times.len() == MAX_PLAYERS
    }

    /// The effect is currently on for the fighter in `slot`.
    pub open spec fn is_on_for(self, slot: int) -> bool {
        self.players[slot] == Some(true)
    }
}

/// A record with no votes, not enabled, no fighters and no clock readings.
pub open spec fn fresh_vote() -> VoteView {
    VoteView {
        votes: Seq::new(8, |i: int| 0usize),
        is_enabled: false,
        players: Seq::new(8, |i: int| None::<bool>),
        activate_times: Seq::new(8, |i: int| 0u32),
    }
}

impl Vote {
    pub fn new() -> (v: Vote)
        ensures
            v@ == fresh_vote(),
    {
        let v = Vote {
            votes: [0, 0, 0, 0, 0, 0, 0, 0],
            is_enabled: false,
            players: [None, None, None, None, None, None, None, None],
            activate_times: [0, 0, 0, 0, 0, 0, 0, 0],
        };
        assert(v.votes@ =~= fresh_vote().votes);
        assert(v.players@ =~= fresh_vote().players);
        assert(v.activate_times@ =~= fresh_vote().activate_times);
        v
    }
}

} // verus!
