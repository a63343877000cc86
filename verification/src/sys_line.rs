//! Per-frame decisions: a match starting or ending, and the developer's
//! taunt-button shortcuts for trying effects out.
use vstd::prelude::*;

use crate::effects::{Vote, NUM_EFFECTS};
use crate::voting::{
    draws_valid, enable, fill_rotation, fill_rotation_exec, lemma_fill_rotation, name_views,
    Voting, VotingView,
};

verus! {

/// What happened to the match at this frame.
#[derive(Clone, Copy, Debug, PartialEq, Eq, Structural)]
pub enum SessionChange {
    /// The match stopped: voting closes.
    Ended,
    /// The match began: votes are reset, a rotation is drawn and a voting
    /// period opens.
    Started,
    Unchanged,
}

/// Whether the match begins at this frame.
pub open spec fn spec_session_starts(m: VotingView, is_ready_go: bool) -> bool {
    is_ready_go && !m.last_ready_go
}

/// The state after a frame at which the match is running (`is_ready_go`) or
/// not, at match clock reading `now`; a starting match draws its rotation
/// from `draws`. `None` when those draws do not suffice.
pub open spec fn spec_handle_game_resets(
    m: VotingView,
    is_ready_go: bool,
    now: u32,
    draws: Seq<usize>,
) -> Option<(VotingView, SessionChange)> {
    if !is_ready_go && m.last_ready_go {
        Some(
            (
                VotingView { voting_period_begin: 0, last_ready_go: false, ..m },
                SessionChange::Ended,
            ),
        )
    } else if spec_session_starts(m, is_ready_go) {
        let m1 = (VotingView {
            is_players_populated: false,
            voting_period_begin: now,
            ..m
        }).init_votes();
        match fill_rotation(m1.rotation, 0, draws) {
            Some(rot) => Some(
                (
                    VotingView {
                        rotation: rot,
                        voter_names: Seq::empty(),
                        last_ready_go: true,
                        ..m1
                    },
                    SessionChange::Started,
                ),
            ),
            None => None,
        }
    } else {
        Some((VotingView { last_ready_go: is_ready_go, ..m }, SessionChange::Unchanged))
    }
}

/// What the developer's taunt buttons did.
#[derive(Clone, Copy, Debug, PartialEq, Eq, Structural)]
pub enum DebugAction {
    /// The selected effect was switched on for player slot 0.
    Forced(usize),
    /// The selected effect has no vote record yet.
    Missing(usize),
    /// The next effect is selected.
    Selected(usize),
    Nothing,
}

/// Up-taunt, while no player is chosen, switches the selected effect on
/// for player slot 0; otherwise down-taunt selects the next effect.
pub open spec fn spec_debug_buttons(m: VotingView, appeal_hi: bool, appeal_lw: bool) -> (
    VotingView,
    DebugAction,
) {
    if appeal_hi && m.player_effect_number is None {
        let e = m.debug_effect_index;
        if m.votes.len() == 0 {
            (m, DebugAction::Missing(e))
        } else {
            (
                VotingView {
                    votes: m.votes.update(e as int, enable(m.votes[e as int])),
                    player_effect_number: Some(0),
                    ..m
                },
                DebugAction::Forced(e),
            )
        }
    } else if appeal_lw {
        let i = ((m.debug_effect_index + 1) % (NUM_EFFECTS as int)) as usize;
        (VotingView { debug_effect_index: i, ..m }, DebugAction::Selected(i))
    } else {
        (m, DebugAction::Nothing)
    }
}

impl Voting {
    /// Whether the match begins at this frame (so that
    /// [`Self::handle_game_resets`] needs rotation draws).
    pub fn session_starts(&self, is_ready_go: bool) -> (r: bool)
        ensures
            r == spec_session_starts(self@, is_ready_go),
    {
        is_ready_go && !self.last_ready_go
    }

    /// Follows the match starting and stopping (see
    /// [`spec_handle_game_resets`]). Returns `None`, changing nothing, when
    /// a starting match needs more rotation draws than `draws` holds.
    pub fn handle_game_resets(&mut self, is_ready_go: bool, now: u32, draws: &Vec<usize>) -> (r:
        Option<SessionChange>)
        requires
            old(self)@.wf(),
            draws_valid(draws@),
        ensures
            final(self)@.wf(),
            match spec_handle_game_resets(old(self)@, is_ready_go, now, draws@) {
                Some((m, c)) => r == Some(c) && final(self)@ == m,
                None => r is None && final(self)@ == old(self)@,
            },
    {
        if !is_ready_go && self.last_ready_go {
            self.voting_period_begin = 0;
            self.last_ready_go = false;
            return Some(SessionChange::Ended);
        }
        if is_ready_go && !self.last_ready_go {
            let rot = match fill_rotation_exec(self.rotation, draws) {
                Some(rot) => rot,
                None => {
                    return None;
                },
            };
            proof {
                lemma_fill_rotation(self@.rotation, 0, draws@);
            }
            let ghost before = self@;
            self.init_votes();
            self.is_players_populated = false;
            self.voting_period_begin = now;
            self.rotation = rot;
            self.voter_names = Vec::new();
            self.last_ready_go = true;
            proof {
                assert(name_views(self.voter_names@) =~= Seq::<Seq<char>>::empty());
                let m1 = (VotingView {
                    is_players_populated: false,
                    voting_period_begin: now,
                    ..before
                }).init_votes();
                assert(m1.rotation == before.rotation);
                assert(self@ =~= VotingView {
                    rotation: rot@,
                    voter_names: Seq::empty(),
                    last_ready_go: true,
                    ..m1
                });
            }
            return Some(SessionChange::Started);
        }
        self.last_ready_go = is_ready_go;
        Some(SessionChange::Unchanged)
    }

    /// Handles the developer's taunt buttons (see [`spec_debug_buttons`]).
    pub fn debug_buttons(&mut self, appeal_hi: bool, appeal_lw: bool) -> (r: DebugAction)
        requires
            old(self)@.wf(),
        ensures
            final(self)@.wf(),
            (final(self)@, r) == spec_debug_buttons(old(self)@, appeal_hi, appeal_lw),
    {
        if appeal_hi && self.player_effect_number.is_none() {
            let e = self.debug_effect_index;
            if self.votes.len() == 0 {
                return DebugAction::Missing(e);
            }
            let mut v: Vote = self.votes[e];
            v.is_enabled = true;
            self.set_vote(e, v);
            self.player_effect_number = Some(0);
            DebugAction::Forced(e)
        } else if appeal_lw {
            let i = (self.debug_effect_index + 1) % NUM_EFFECTS;
            self.debug_effect_index = i;
            DebugAction::Selected(i)
        } else {
            DebugAction::Nothing
        }
    }
}

} // verus!
