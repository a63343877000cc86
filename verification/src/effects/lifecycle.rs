//! The lifecycle of a voted effect on one fighter, run once per frame:
//! it turns on, runs until its time is up, and turns off again.
use vstd::prelude::*;

use crate::effects::{
    VoteView, CURRY, DEATH, DMG_OR_HEAL, FINAL_SMASH, FLIGHT, JUMPS, LOW_GRAV, MAX_PLAYERS,
    NO_LEDGES, NUM_EFFECTS, REVERSE, SLEEP, SLOW_MO, TRIP, TURBO,
};
use crate::utils::{is_time_range, spec_is_time_range};
use crate::voting::{Voting, VotingView};

verus! {

/// Seconds turbo lasts.
pub const TURBO_DURATION: u32 = 20;
/// Seconds the timed effects other than turbo and sleep last.
pub const EFFECT_DURATION: u32 = 15;
/// Sleep lasts a random 1 to this many seconds, drawn every frame.
pub const SLEEP_MAX_DURATION_IN_SECS: u32 = 5;

/// How long an effect lasts once on.
#[derive(Clone, Copy, Debug, PartialEq, Eq, Structural)]
pub enum EffectClock {
    /// Done on the first frame after it turned on.
    Instant,
    /// Lasts the given seconds from when it turned on for this fighter.
    PerPlayer(u32),
    /// Lasts the given seconds from when it last turned on for any fighter.
    Shared(u32),
}

/// Where the effect stands for the fighter after this frame; the game side
/// acts on it.
#[derive(Clone, Copy, Debug, PartialEq, Eq, Structural)]
pub enum EffectPhase {
    /// There are no vote records yet.
    Absent,
    /// The effect just turned on for this fighter.
    Activated,
    /// The effect is on and keeps running.
    Running,
    /// The effect's time is up: it is switched off (see [`VotingView::expire`]).
    Expired,
    /// The effect was switched off and now turns off for this fighter.
    Deactivated,
    /// The effect is off for this fighter and not voted in.
    Idle,
}

/// The clock reading the effect's time is measured from.
pub open spec fn clock_start(m: VotingView, effect: usize, id: usize, clock: EffectClock) -> u32 {
    match clock {
        EffectClock::PerPlayer(_) => m.votes[effect as int].activate_times[id as int],
        EffectClock::Shared(_) => m.effect_clocks[effect as int],
        EffectClock::Instant => 0,
    }
}

/// Whether the effect's time is up at clock reading `now` (or it is cut
/// short by `stop_early`).
pub open spec fn time_up(
    m: VotingView,
    effect: usize,
    id: usize,
    clock: EffectClock,
    now: u32,
    stop_early: bool,
) -> bool {
    let elapsed = match clock {
        EffectClock::Instant => true,
        EffectClock::PerPlayer(d) => spec_is_time_range(clock_start(m, effect, id, clock), d, now),
        EffectClock::Shared(d) => spec_is_time_range(clock_start(m, effect, id, clock), d, now),
    };
    elapsed || stop_early
}

/// One frame of `effect` on the fighter in slot `id`:
/// voted in but not on yet, it turns on (and its clock starts);
/// on and voted in, it runs until its time is up, when it runs out (see
/// [`VotingView::expire`]); on but switched off, it turns off for the
/// fighter.
pub open spec fn spec_effect_frame(
    m: VotingView,
    effect: usize,
    id: usize,
    now: u32,
    clock: EffectClock,
    stop_early: bool,
) -> (VotingView, EffectPhase) {
    if m.votes.len() == 0 {
        (m, EffectPhase::Absent)
    } else {
        let v = m.votes[effect as int];
        let on = v.is_on_for(id as int);
        if !on && v.is_enabled {
            let v1 = VoteView {
                players: v.players.update(id as int, Some(true)),
                activate_times: if clock is PerPlayer {
                    v.activate_times.update(id as int, now)
                } else {
                    v.activate_times
                },
                ..v
            };
            let clocks = if clock is Shared {
                m.effect_clocks.update(effect as int, now)
            } else {
                m.effect_clocks
            };
            (
                VotingView { votes: m.votes.update(effect as int, v1), effect_clocks: clocks, ..m },
                EffectPhase::Activated,
            )
        } else if on && v.is_enabled {
            if time_up(m, effect, id, clock, now, stop_early) {
                (m.expire(effect as int), EffectPhase::Expired)
            } else {
                (m, EffectPhase::Running)
            }
        } else if on && !v.is_enabled {
            (
                VotingView {
                    votes: m.votes.update(
                        effect as int,
                        VoteView { players: v.players.update(id as int, Some(false)), ..v },
                    ),
                    ..m
                },
                EffectPhase::Deactivated,
            )
        } else {
            (m, EffectPhase::Idle)
        }
    }
}

/// One frame of `effect` on the fighter in slot `id` (see
/// [`spec_effect_frame`]).
pub fn effect_frame(
    state: &mut Voting,
    effect: usize,
    id: usize,
    now: u32,
    clock: EffectClock,
    stop_early: bool,
) -> (r: EffectPhase)
    requires
        old(state)@.wf(),
        effect < NUM_EFFECTS,
        id < MAX_PLAYERS,
    ensures
        final(state)@.wf(),
        (final(state)@, r) == spec_effect_frame(old(state)@, effect, id, now, clock, stop_early),
{
    if state.votes.len() == 0 {
        return EffectPhase::Absent;
    }
    let ghost m = state@;
    let mut v = state.votes[effect];
    assert(v@ == m.votes[effect as int]);
    let on = match v.players[id] {
        Some(b) => b,
        None => false,
    };
    if !on && v.is_enabled {
        v.players[id] = Some(true);
        match clock {
            EffectClock::PerPlayer(_) => {
                v.activate_times[id] = now;
            },
            EffectClock::Shared(_) => {
                state.effect_clocks[effect] = now;
            },
            EffectClock::Instant => {},
        }
        state.set_vote(effect, v);
        assert(state@ =~= spec_effect_frame(m, effect, id, now, clock, stop_early).0);
        EffectPhase::Activated
    } else if on && v.is_enabled {
        let elapsed = match clock {
            EffectClock::Instant => true,
            EffectClock::PerPlayer(d) => is_time_range(v.activate_times[id], d, now),
            EffectClock::Shared(d) => is_time_range(state.effect_clocks[effect], d, now),
        };
        if elapsed || stop_early {
            state.expire(effect);
            EffectPhase::Expired
        } else {
            EffectPhase::Running
        }
    } else if on && !v.is_enabled {
        v.players[id] = Some(false);
        state.set_vote(effect, v);
        EffectPhase::Deactivated
    } else {
        EffectPhase::Idle
    }
}


/// Turbo: attacks that connect can be cancelled, for 20 seconds of this fighter's clock.
/// One frame of the effect on the fighter in slot `id` at clock reading `now`.
pub fn turbo(state: &mut Voting, id: usize, now: u32) -> (r: EffectPhase)
    requires
        old(state)@.wf(),
        id < MAX_PLAYERS,
    ensures
        final(state)@.wf(),
        (final(state)@, r) == spec_effect_frame(old(state)@, TURBO, id, now, EffectClock::PerPlayer(TURBO_DURATION), false),
{
    effect_frame(state, TURBO, id, now, EffectClock::PerPlayer(TURBO_DURATION), false)
}

/// Curry: the fighter is handed a curry item; done the next frame.
/// One frame of the effect on the fighter in slot `id` at clock reading `now`.
pub fn curry(state: &mut Voting, id: usize, now: u32) -> (r: EffectPhase)
    requires
        old(state)@.wf(),
        id < MAX_PLAYERS,
    ensures
        final(state)@.wf(),
        (final(state)@, r) == spec_effect_frame(old(state)@, CURRY, id, now, EffectClock::Instant, false),
{
    effect_frame(state, CURRY, id, now, EffectClock::Instant, false)
}

/// Death: the fighter is sent to the dead status; done the next frame.
/// One frame of the effect on the fighter in slot `id` at clock reading `now`.
pub fn death(state: &mut Voting, id: usize, now: u32) -> (r: EffectPhase)
    requires
        old(state)@.wf(),
        id < MAX_PLAYERS,
    ensures
        final(state)@.wf(),
        (final(state)@, r) == spec_effect_frame(old(state)@, DEATH, id, now, EffectClock::Instant, false),
{
    effect_frame(state, DEATH, id, now, EffectClock::Instant, false)
}

/// Low gravity: air acceleration halved, for 15 seconds of the shared clock.
/// One frame of the effect on the fighter in slot `id` at clock reading `now`.
pub fn low_grav(state: &mut Voting, id: usize, now: u32) -> (r: EffectPhase)
    requires
        old(state)@.wf(),
        id < MAX_PLAYERS,
    ensures
        final(state)@.wf(),
        (final(state)@, r) == spec_effect_frame(old(state)@, LOW_GRAV, id, now, EffectClock::Shared(EFFECT_DURATION), false),
{
    effect_frame(state, LOW_GRAV, id, now, EffectClock::Shared(EFFECT_DURATION), false)
}

/// Slow motion for the whole match, for 15 seconds of the shared clock.
/// One frame of the effect on the fighter in slot `id` at clock reading `now`.
pub fn slow_mo(state: &mut Voting, id: usize, now: u32) -> (r: EffectPhase)
    requires
        old(state)@.wf(),
        id < MAX_PLAYERS,
    ensures
        final(state)@.wf(),
        (final(state)@, r) == spec_effect_frame(old(state)@, SLOW_MO, id, now, EffectClock::Shared(EFFECT_DURATION), false),
{
    effect_frame(state, SLOW_MO, id, now, EffectClock::Shared(EFFECT_DURATION), false)
}

/// Flight: the stick pushes the fighter around, for 15 seconds of this fighter's clock.
/// One frame of the effect on the fighter in slot `id` at clock reading `now`.
pub fn flight(state: &mut Voting, id: usize, now: u32) -> (r: EffectPhase)
    requires
        old(state)@.wf(),
        id < MAX_PLAYERS,
    ensures
        final(state)@.wf(),
        (final(state)@, r) == spec_effect_frame(old(state)@, FLIGHT, id, now, EffectClock::PerPlayer(EFFECT_DURATION), false),
{
    effect_frame(state, FLIGHT, id, now, EffectClock::PerPlayer(EFFECT_DURATION), false)
}

/// Trip: dashes may slip, for 15 seconds of the shared clock.
/// One frame of the effect on the fighter in slot `id` at clock reading `now`.
pub fn trip(state: &mut Voting, id: usize, now: u32) -> (r: EffectPhase)
    requires
        old(state)@.wf(),
        id < MAX_PLAYERS,
    ensures
        final(state)@.wf(),
        (final(state)@, r) == spec_effect_frame(old(state)@, TRIP, id, now, EffectClock::Shared(EFFECT_DURATION), false),
{
    effect_frame(state, TRIP, id, now, EffectClock::Shared(EFFECT_DURATION), false)
}

/// Final smash: the fighter is given a final smash; done the next frame.
/// One frame of the effect on the fighter in slot `id` at clock reading `now`.
pub fn final_smash(state: &mut Voting, id: usize, now: u32) -> (r: EffectPhase)
    requires
        old(state)@.wf(),
        id < MAX_PLAYERS,
    ensures
        final(state)@.wf(),
        (final(state)@, r) == spec_effect_frame(old(state)@, FINAL_SMASH, id, now, EffectClock::Instant, false),
{
    effect_frame(state, FINAL_SMASH, id, now, EffectClock::Instant, false)
}

/// Reverse: the fighter keeps turning around, for 15 seconds of the shared clock.
/// One frame of the effect on the fighter in slot `id` at clock reading `now`.
pub fn reverse_dir(state: &mut Voting, id: usize, now: u32) -> (r: EffectPhase)
    requires
        old(state)@.wf(),
        id < MAX_PLAYERS,
    ensures
        final(state)@.wf(),
        (final(state)@, r) == spec_effect_frame(old(state)@, REVERSE, id, now, EffectClock::Shared(EFFECT_DURATION), false),
{
    effect_frame(state, REVERSE, id, now, EffectClock::Shared(EFFECT_DURATION), false)
}

/// Jumps: the jump count keeps resetting, for 15 seconds of the shared clock.
/// One frame of the effect on the fighter in slot `id` at clock reading `now`.
pub fn double_jumps(state: &mut Voting, id: usize, now: u32) -> (r: EffectPhase)
    requires
        old(state)@.wf(),
        id < MAX_PLAYERS,
    ensures
        final(state)@.wf(),
        (final(state)@, r) == spec_effect_frame(old(state)@, JUMPS, id, now, EffectClock::Shared(EFFECT_DURATION), false),
{
    effect_frame(state, JUMPS, id, now, EffectClock::Shared(EFFECT_DURATION), false)
}

/// Damage or heal: the fighter takes or loses damage; done the next frame.
/// One frame of the effect on the fighter in slot `id` at clock reading `now`.
pub fn dmg(state: &mut Voting, id: usize, now: u32) -> (r: EffectPhase)
    requires
        old(state)@.wf(),
        id < MAX_PLAYERS,
    ensures
        final(state)@.wf(),
        (final(state)@, r) == spec_effect_frame(old(state)@, DMG_OR_HEAL, id, now, EffectClock::Instant, false),
{
    effect_frame(state, DMG_OR_HEAL, id, now, EffectClock::Instant, false)
}

/// No ledges: ledges cannot be grabbed, for 15 seconds of the shared clock.
/// One frame of the effect on the fighter in slot `id` at clock reading `now`.
pub fn no_ledges(state: &mut Voting, id: usize, now: u32) -> (r: EffectPhase)
    requires
        old(state)@.wf(),
        id < MAX_PLAYERS,
    ensures
        final(state)@.wf(),
        (final(state)@, r) == spec_effect_frame(old(state)@, NO_LEDGES, id, now, EffectClock::Shared(EFFECT_DURATION), false),
{
    effect_frame(state, NO_LEDGES, id, now, EffectClock::Shared(EFFECT_DURATION), false)
}

/// Sleep: the fighter falls asleep for a random 1 to 5 seconds of this
/// fighter's clock (`sleep_duration`, drawn anew every frame), or until it
/// leaves the sleeping status (`still_asleep` false).
pub fn sleep(state: &mut Voting, id: usize, now: u32, sleep_duration: u32, still_asleep: bool) -> (r:
    EffectPhase)
    requires
        old(state)@.wf(),
        id < MAX_PLAYERS,
    ensures
        final(state)@.wf(),
        (final(state)@, r) == spec_effect_frame(
            old(state)@,
            SLEEP,
            id,
            now,
            EffectClock::PerPlayer(sleep_duration),
            !still_asleep,
        ),
{
    effect_frame(state, SLEEP, id, now, EffectClock::PerPlayer(sleep_duration), !still_asleep)
}

} // verus!
