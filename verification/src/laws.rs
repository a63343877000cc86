//! Properties of the voting that span several operations.
use vstd::prelude::*;

use crate::effects::lifecycle::{spec_effect_frame, EffectClock, EffectPhase};
use crate::effects::{
    spec_effect_name, VoteView, CURRY, DEATH, DMG_OR_HEAL, FINAL_SMASH, FLIGHT, JUMPS, LOW_GRAV,
    MAX_PLAYERS, NO_LEDGES, NUM_EFFECTS, REVERSE, SLEEP, SLOW_MO, TRIP, TURBO,
};
use crate::twitch::spec_parse_chat_line;
use crate::utils::{find_from, first_occurrence, lemma_occurrence_in_range, occurs_at};
use crate::sys_line::{spec_debug_buttons, spec_handle_game_resets, DebugAction, SessionChange};
use crate::utils::spec_is_time_range;
use crate::voting::{
    count_present, counts_below_max, draws_valid, first_reaching, lemma_fill_rotation,
    lemma_vote_candidates_are_highest, rotation_full, update_votes_defined, votes_looked_at,
    mark_present, max_count, reset_record, spec_get_players,
    spec_conclude_voting_period, spec_update_votes, vote_candidates, vote_entries, VotingView,
};
use crate::vote_text::{
    ascii_lower, is_ascii_text, lemma_ascii_lower_trim_vote, lemma_trim_idempotent, spec_parse_vote,
    trim,
};
use crate::GameModes;
use vstd::arithmetic::div_mod::{lemma_add_mod_noop, lemma_mod_twice, lemma_small_mod};

verus! {

/// The winner of a voting period has the most votes: its entry carries the
/// highest count, no entry has more, and the winner is switched on (the
/// effect itself, or, when the chat picks a player, the offered effect for
/// that player).
pub proof fn law_winner_has_most_votes(
    m: VotingView,
    tie_draw: int,
    draws: Seq<usize>,
    now: u32,
)
    requires
        m.wf(),
        m.voting_period_begin != 0,
        0 <= tie_draw < vote_candidates(m).len(),
    ensures
        spec_conclude_voting_period(m, tie_draw, draws, now) matches Some((m2, w)) ==> {
            &&& exists|j: int|
                0 <= j < vote_entries(m).len() && #[trigger] vote_entries(m)[j] == (
                    w,
                    max_count(vote_entries(m)) as usize,
                )
            &&& forall|j: int|
                0 <= j < vote_entries(m).len() ==> #[trigger] vote_entries(m)[j].1 <= max_count(
                    vote_entries(m),
                )
            &&& m.mode == GameModes::ChooseEffect ==> m2.votes[w as int].is_enabled
            &&& m.mode == GameModes::ChoosePlayer ==> m2.player_effect_number == Some(w)
                && m2.votes[m.offered(0) as int].is_enabled
        },
{
    lemma_vote_candidates_are_highest(m);
    let c = vote_candidates(m)[tie_draw];
    assert(c.1 == max_count(vote_entries(m)));
}

/// Each chatter votes at most once per voting period: once a message from
/// `name` is counted, no further message from `name` counts or changes
/// anything until the period ends.
pub proof fn law_one_vote_per_chatter(
    m: VotingView,
    first: Option<usize>,
    second: Option<usize>,
    name: Seq<char>,
    is_ready_go: bool,
    total_fighters: usize,
)
    requires
        m.wf(),
        spec_update_votes(m, first, name, is_ready_go, total_fighters).1,
    ensures
        ({
            let m1 = spec_update_votes(m, first, name, is_ready_go, total_fighters).0;
            spec_update_votes(m1, second, name, is_ready_go, total_fighters) == (m1, false)
        }),
{
    let m1 = spec_update_votes(m, first, name, is_ready_go, total_fighters).0;
    assert(m1.voter_names.last() == name);
    assert(m1.voter_names.contains(name));
}

/// A counted vote raises exactly one counter of one record by one and
/// records the chatter; nothing else changes.
pub proof fn law_vote_raises_one_counter(
    m: VotingView,
    vote: Option<usize>,
    name: Seq<char>,
    is_ready_go: bool,
    total_fighters: usize,
)
    requires
        m.wf(),
        counts_below_max(m),
        total_fighters <= MAX_PLAYERS,
        spec_update_votes(m, vote, name, is_ready_go, total_fighters).1,
    ensures
        ({
            let m1 = spec_update_votes(m, vote, name, is_ready_go, total_fighters).0;
            exists|e: int, k: int|
                #![trigger m1.votes[e].votes[k]]
                0 <= e < NUM_EFFECTS && 0 <= k < MAX_PLAYERS && m1.votes[e].votes[k]
                    == m.votes[e].votes[k] + 1 && m1.votes == m.votes.update(
                    e,
                    crate::voting::bump(m.votes[e], k),
                ) && m1.voter_names == m.voter_names.push(name)
                && m1.rotation == m.rotation
                && m1.voting_period_begin == m.voting_period_begin
        }),
{
    let m1 = spec_update_votes(m, vote, name, is_ready_go, total_fighters).0;
    let n = vote->Some_0;
    match m.mode {
        GameModes::ChooseEffect => {
            let e = m.offered(n - 1) as int;
            assert(m.votes[e].votes[0] < usize::MAX);
            assert(m1.votes[e].votes[0] == m.votes[e].votes[0] + 1);
        },
        GameModes::ChoosePlayer => {
            let e = m.offered(0) as int;
            assert(m.votes[e].votes[n - 1] < usize::MAX);
            assert(m1.votes[e].votes[n - 1] == m.votes[e].votes[n - 1] + 1);
        },
    }
}

/// When a match ends, voting closes: no message counts until the next
/// match starts.
pub proof fn law_no_votes_after_match_end(
    m: VotingView,
    now: u32,
    draws: Seq<usize>,
    vote: Option<usize>,
    name: Seq<char>,
    is_ready_go: bool,
    total_fighters: usize,
)
    requires
        m.wf(),
        m.last_ready_go,
    ensures
        spec_handle_game_resets(m, false, now, draws) matches Some((m2, c)) && c
            == SessionChange::Ended && spec_update_votes(
            m2,
            vote,
            name,
            is_ready_go,
            total_fighters,
        ) == (m2, false),
{
}

/// Once a voting period or effect duration has elapsed on the (decreasing)
/// match clock, it stays elapsed at every later reading.
pub proof fn law_time_range_stays_elapsed(initial_time: u32, duration: u32, now: u32, later: u32)
    requires
        later <= now,
        spec_is_time_range(initial_time, duration, now),
    ensures
        spec_is_time_range(initial_time, duration, later),
{
}

/// Resetting the votes twice is the same as resetting them once (except
/// when the chat picks players, no table exists yet and a player is
/// chosen: the second reset then also forgets the player).
pub proof fn law_init_votes_idempotent(m: VotingView)
    requires
        m.mode == GameModes::ChooseEffect || m.votes.len() > 0 || m.player_effect_number is None,
    ensures
        m.init_votes().init_votes() == m.init_votes(),
{
    if m.mode == GameModes::ChoosePlayer {
        let a = m.init_votes().votes;
        assert forall|e: int| 0 <= e < a.len() implies reset_record(a[e]) == a[e] by {
            assert(reset_record(a[e]).votes =~= a[e].votes);
            assert(reset_record(a[e]).players =~= a[e].players);
        }
        assert(a.map_values(|v: VoteView| reset_record(v)) =~= a);
    }
    assert(m.init_votes().init_votes() =~= m.init_votes());
}

/// When the chat picks a player and a vote table exists, resetting the
/// votes switches every record off with no votes, keeps each fighter slot
/// but with the effect off, keeps the clock readings and forgets the chosen
/// player.
pub proof fn law_player_reset_clears_votes(m: VotingView)
    requires
        m.wf(),
        m.mode == GameModes::ChoosePlayer,
        m.votes.len() > 0,
    ensures
        ({
            let r = m.init_votes();
            &&& r.votes.len() == m.votes.len()
            &&& r.player_effect_number is None
            &&& forall|e: int, i: int|
                #![trigger r.votes[e].players[i]]
                #![trigger r.votes[e].votes[i]]
                #![trigger r.votes[e].activate_times[i]]
                0 <= e < m.votes.len() && 0 <= i < MAX_PLAYERS ==> {
                    &&& !r.votes[e].is_enabled
                    &&& r.votes[e].votes[i] == 0
                    &&& r.votes[e].players[i] == match m.votes[e].players[i] {
                        Some(_) => Some(false),
                        None => None::<bool>,
                    }
                    &&& r.votes[e].activate_times[i] == m.votes[e].activate_times[i]
                }
        }),
{
}

/// When the chat picks effects and an effect's time is up on a fighter,
/// it then turns off on the next frame of each fighter it was on for: that
/// frame reports it switched off and leaves it off for the fighter.
pub proof fn law_expired_effect_turns_off(
    m: VotingView,
    effect: usize,
    id: usize,
    now: u32,
    clock: EffectClock,
    stop_early: bool,
    other: usize,
    later: u32,
    clock2: EffectClock,
    stop_early2: bool,
)
    requires
        m.wf(),
        m.mode == GameModes::ChooseEffect,
        effect < NUM_EFFECTS,
        id < MAX_PLAYERS,
        other < MAX_PLAYERS,
        spec_effect_frame(m, effect, id, now, clock, stop_early).1 == EffectPhase::Expired,
        m.votes[effect as int].is_on_for(other as int),
    ensures
        ({
            let m1 = spec_effect_frame(m, effect, id, now, clock, stop_early).0;
            let (m2, p) = spec_effect_frame(m1, effect, other, later, clock2, stop_early2);
            &&& p == EffectPhase::Deactivated
            &&& m2.votes[effect as int].players[other as int] == Some(false)
            &&& !m2.votes[effect as int].is_enabled
        }),
{
    let m1 = spec_effect_frame(m, effect, id, now, clock, stop_early).0;
    assert(m1.votes.len() == NUM_EFFECTS);
    assert(m1.votes[effect as int].players == m.votes[effect as int].players);
}

/// Effects overlap: when the chat picks effects, one effect running out
/// switches off that effect alone; every other effect keeps its switch and
/// the fighters it is on for.
pub proof fn law_expiry_leaves_other_effects_running(
    m: VotingView,
    effect: usize,
    id: usize,
    now: u32,
    clock: EffectClock,
    stop_early: bool,
)
    requires
        m.wf(),
        m.mode == GameModes::ChooseEffect,
        effect < NUM_EFFECTS,
        id < MAX_PLAYERS,
        spec_effect_frame(m, effect, id, now, clock, stop_early).1 == EffectPhase::Expired,
    ensures
        ({
            let m1 = spec_effect_frame(m, effect, id, now, clock, stop_early).0;
            &&& !m1.votes[effect as int].is_enabled
            &&& m1.votes.len() == m.votes.len()
            &&& forall|e: int|
                0 <= e < m.votes.len() && e != effect ==> (#[trigger] m1.votes[e]).is_enabled
                    == m.votes[e].is_enabled && m1.votes[e].players == m.votes[e].players
        }),
{
}

/// When the chat picks a player and an effect's time is up, every effect
/// is switched off and off for every fighter, and no player is chosen any
/// more: nothing the effects do to the game stays on.
pub proof fn law_player_expiry_turns_everything_off(
    m: VotingView,
    effect: usize,
    id: usize,
    now: u32,
    clock: EffectClock,
    stop_early: bool,
)
    requires
        m.wf(),
        m.mode == GameModes::ChoosePlayer,
        effect < NUM_EFFECTS,
        id < MAX_PLAYERS,
        spec_effect_frame(m, effect, id, now, clock, stop_early).1 == EffectPhase::Expired,
    ensures
        ({
            let m1 = spec_effect_frame(m, effect, id, now, clock, stop_early).0;
            &&& m1.player_effect_number is None
            &&& forall|e: int, i: int|
                0 <= e < m1.votes.len() && 0 <= i < MAX_PLAYERS ==> !(#[trigger] m1.votes[e].is_on_for(
                    i,
                )) && !m1.votes[e].is_enabled
        }),
{
}

/// An ASCII chat message counts the same as the message lowercased and
/// trimmed: both update the votes alike (so ` 2 ` or `2\r` is a vote for
/// 2, as `2` is).
pub proof fn law_lowercased_trimmed_message_counts_the_same(
    m: VotingView,
    msg: Seq<char>,
    name: Seq<char>,
    is_ready_go: bool,
    total_fighters: usize,
)
    requires
        is_ascii_text(msg),
    ensures
        is_ascii_text(trim(ascii_lower(msg))),
        spec_update_votes(
            m,
            spec_parse_vote(ascii_lower(trim(ascii_lower(msg)))),
            name,
            is_ready_go,
            total_fighters,
        ) == spec_update_votes(m, spec_parse_vote(ascii_lower(msg)), name, is_ready_go, total_fighters),
{
    lemma_ascii_lower_trim_vote(msg);
}

/// A message and its trimmed form read as the same vote.
pub proof fn law_trimmed_message_votes_the_same(lowered: Seq<char>)
    ensures
        spec_parse_vote(trim(lowered)) == spec_parse_vote(lowered),
{
    lemma_trim_idempotent(lowered);
}

/// An effect that is done at once runs through one frame: the frame after
/// it turns on for a fighter, it is switched off and the votes are reset.
pub proof fn law_instant_effect_expires_next_frame(
    m: VotingView,
    effect: usize,
    id: usize,
    now: u32,
    later: u32,
)
    requires
        m.wf(),
        effect < NUM_EFFECTS,
        id < MAX_PLAYERS,
        spec_effect_frame(m, effect, id, now, EffectClock::Instant, false).1
            == EffectPhase::Activated,
    ensures
        spec_effect_frame(
            spec_effect_frame(m, effect, id, now, EffectClock::Instant, false).0,
            effect,
            id,
            later,
            EffectClock::Instant,
            false,
        ).1 == EffectPhase::Expired,
{
    let m1 = spec_effect_frame(m, effect, id, now, EffectClock::Instant, false).0;
    assert(m1.votes[effect as int].players[id as int] == Some(true));
}

/// A timed effect keeps running on a fighter until its duration has
/// elapsed since it turned on for that fighter, and expires from then on.
pub proof fn law_timed_effect_runs_for_its_duration(
    m: VotingView,
    effect: usize,
    id: usize,
    duration: u32,
    start: u32,
    later: u32,
)
    requires
        m.wf(),
        effect < NUM_EFFECTS,
        id < MAX_PLAYERS,
        spec_effect_frame(m, effect, id, start, EffectClock::PerPlayer(duration), false).1
            == EffectPhase::Activated,
    ensures
        spec_effect_frame(
            spec_effect_frame(m, effect, id, start, EffectClock::PerPlayer(duration), false).0,
            effect,
            id,
            later,
            EffectClock::PerPlayer(duration),
            false,
        ).1 == if later <= start && start - later >= duration {
            EffectPhase::Expired
        } else {
            EffectPhase::Running
        },
{
    let m1 = spec_effect_frame(m, effect, id, start, EffectClock::PerPlayer(duration), false).0;
    assert(m1.votes[effect as int].players[id as int] == Some(true));
    assert(m1.votes[effect as int].activate_times[id as int] == start);
}

/// The state after the fighters in `ids` each record themselves once, in
/// order, while the match has `total` fighters.
pub open spec fn record_pass(m: VotingView, ids: Seq<usize>, total: nat) -> VotingView
    decreases ids.len(),
{
    if ids.len() == 0 {
        m
    } else {
        spec_get_players(record_pass(m, ids.drop_last(), total), ids.last() as int, total).0
    }
}

/// The player slots of a record once exactly the fighters in `ids` are
/// recorded.
pub open spec fn slots_of(ids: Seq<usize>) -> Seq<Option<bool>> {
    Seq::new(MAX_PLAYERS as nat, |i: int| if ids.contains(i as usize) { Some(false) } else { None })
}

proof fn lemma_count_present_mark(p: Seq<Option<bool>>, i: int)
    requires
        0 <= i < p.len(),
        p[i] is None,
    ensures
        count_present(p.update(i, Some(false))) == count_present(p) + 1,
    decreases p.len(),
{
    let q = p.update(i, Some(false));
    if i == p.len() - 1 {
        assert(q.drop_last() =~= p.drop_last());
    } else {
        lemma_count_present_mark(p.drop_last(), i);
        assert(q.drop_last() =~= p.drop_last().update(i, Some(false)));
    }
}

proof fn lemma_none_reach(votes: Seq<VoteView>, total: nat, i: int)
    requires
        0 <= i <= votes.len(),
        forall|e: int| 0 <= e < votes.len() ==> count_present(#[trigger] votes[e].players) < total,
    ensures
        first_reaching(votes, total, i) == votes.len(),
    decreases votes.len() - i,
{
    if i < votes.len() {
        lemma_none_reach(votes, total, i + 1);
    }
}

proof fn lemma_record_pass(m: VotingView, ids: Seq<usize>, total: nat)
    requires
        !m.is_players_populated,
        m.voting_period_begin != 0,
        forall|e: int| 0 <= e < m.votes.len() ==> (#[trigger] m.votes[e]).players =~= slots_of(
            Seq::empty(),
        ),
        forall|k: int| 0 <= k < ids.len() ==> #[trigger] ids[k] < MAX_PLAYERS,
        forall|a: int, b: int| 0 <= a < b < ids.len() ==> ids[a] != ids[b],
        ids.len() <= total,
    ensures
        ({
            let r = record_pass(m, ids, total);
            &&& r == VotingView { votes: r.votes, ..m }
            &&& r.votes.len() == m.votes.len()
            &&& forall|e: int| 0 <= e < r.votes.len() ==> (#[trigger] r.votes[e]).players == slots_of(ids)
            &&& count_present(slots_of(ids)) == ids.len()
        }),
    decreases ids.len(),
{
    if ids.len() == 0 {
        assert(count_present(slots_of(ids)) == 0) by {
            let p = slots_of(ids);
            assert forall|i: int| 0 <= i < p.len() implies p[i] is None by {
                assert(!ids.contains(i as usize));
            }
            lemma_count_present_none(p);
        }
    } else {
        let pre = ids.drop_last();
        let x = ids.last();
        lemma_record_pass(m, pre, total);
        let r0 = record_pass(m, pre, total);
        assert(!pre.contains(x)) by {
            if pre.contains(x) {
                let j = choose|j: int| 0 <= j < pre.len() && pre[j] == x;
                assert(ids[j] == ids[ids.len() - 1]);
            }
        }
        assert forall|e: int| 0 <= e < r0.votes.len() implies count_present(
            #[trigger] r0.votes[e].players,
        ) < total by {}
        lemma_none_reach(r0.votes, total, 0);
        assert(slots_of(pre).update(x as int, Some(false)) =~= slots_of(ids)) by {
            assert forall|i: int| 0 <= i < MAX_PLAYERS implies #[trigger] slots_of(ids)[i]
                == slots_of(pre).update(x as int, Some(false))[i] by {
                if i == x {
                    assert(ids[ids.len() - 1] == x);
                    assert(ids.contains(i as usize));
                } else if pre.contains(i as usize) {
                    let j = choose|j: int| 0 <= j < pre.len() && pre[j] == i as usize;
                    assert(ids[j] == i as usize);
                    assert(ids.contains(i as usize));
                } else {
                    if ids.contains(i as usize) {
                        let j = choose|j: int| 0 <= j < ids.len() && ids[j] == i as usize;
                        assert(j != ids.len() - 1);
                        assert(pre[j] == i as usize);
                    }
                }
            }
        }
        lemma_count_present_mark(slots_of(pre), x as int);
        let r = record_pass(m, ids, total);
        assert(r == spec_get_players(r0, x as int, total).0);
        assert forall|e: int| 0 <= e < r.votes.len() implies (#[trigger] r.votes[e]).players
            == slots_of(ids) by {
            assert(r.votes[e] == mark_present(r0.votes[e], x as int));
        }
    }
}

proof fn lemma_count_present_none(p: Seq<Option<bool>>)
    requires
        forall|i: int| 0 <= i < p.len() ==> p[i] is None,
    ensures
        count_present(p) == 0,
    decreases p.len(),
{
    if p.len() > 0 {
        lemma_count_present_none(p.drop_last());
    }
}

/// While the chat picks a player, with no fighter recorded yet: once every
/// fighter of the match has recorded itself (each once, in any order), one
/// more frame completes the recording, and each record then holds exactly
/// the fighters' slots, with the effect off for each.
pub proof fn law_one_pass_records_the_fighters(m: VotingView, ids: Seq<usize>, next: usize)
    requires
        m.wf(),
        !m.is_players_populated,
        m.voting_period_begin != 0,
        forall|e: int, i: int|
            0 <= e < m.votes.len() && 0 <= i < MAX_PLAYERS ==> #[trigger] m.votes[e].players[i] is None,
        forall|k: int| 0 <= k < ids.len() ==> #[trigger] ids[k] < MAX_PLAYERS,
        forall|a: int, b: int| 0 <= a < b < ids.len() ==> ids[a] != ids[b],
        next < MAX_PLAYERS,
    ensures
        ({
            let (m2, done) = spec_get_players(
                record_pass(m, ids, ids.len()),
                next as int,
                ids.len(),
            );
            &&& done
            &&& m2.is_players_populated
            &&& forall|e: int, i: int|
                0 <= e < m2.votes.len() && 0 <= i < MAX_PLAYERS ==> #[trigger] m2.votes[e].players[i]
                    == if ids.contains(i as usize) {
                    Some(false)
                } else {
                    None
                }
        }),
{
    assert forall|e: int| 0 <= e < m.votes.len() implies (#[trigger] m.votes[e]).players
        =~= slots_of(Seq::empty()) by {
        assert forall|i: int| 0 <= i < MAX_PLAYERS implies m.votes[e].players[i] == slots_of(
            Seq::<usize>::empty(),
        )[i] by {
            assert(!Seq::<usize>::empty().contains(i as usize));
        }
    }
    lemma_record_pass(m, ids, ids.len());
    let r = record_pass(m, ids, ids.len());
    assert(count_present(r.votes[0].players) >= ids.len());
    assert(first_reaching(r.votes, ids.len(), 0) == 0);
    let m2 = spec_get_players(r, next as int, ids.len()).0;
    assert(m2.votes =~= r.votes);
}

/// The state after `k` presses of down-taunt alone.
pub open spec fn down_taunts(m: VotingView, k: nat) -> VotingView
    decreases k,
{
    if k == 0 {
        m
    } else {
        spec_debug_buttons(down_taunts(m, (k - 1) as nat), false, true).0
    }
}

proof fn lemma_down_taunts(m: VotingView, k: nat)
    requires
        m.debug_effect_index < NUM_EFFECTS,
    ensures
        down_taunts(m, k) == (VotingView {
            debug_effect_index: ((m.debug_effect_index + k) % (NUM_EFFECTS as int)) as usize,
            ..m
        }),
    decreases k,
{
    if k > 0 {
        lemma_down_taunts(m, (k - 1) as nat);
        let d = m.debug_effect_index + k - 1;
        lemma_add_mod_noop(d, 1, NUM_EFFECTS as int);
        assert(1int % 13 == 1);
        assert((d % 13) % 13 == d % 13) by {
            lemma_mod_twice(d, 13);
        }
    } else {
        assert(m.debug_effect_index % 13 == m.debug_effect_index) by {
            lemma_small_mod(m.debug_effect_index as nat, 13);
        }
    }
}

/// After `k` presses of down-taunt, the developer's up-taunt (while no
/// player is chosen and a vote table exists) switches on effect number
/// `(d + k) % 13`, counting from the selection `d` before the presses, for
/// player slot 0.
pub proof fn law_down_taunts_select_the_forced_effect(m: VotingView, k: nat)
    requires
        m.wf(),
        m.player_effect_number is None,
        m.votes.len() > 0,
    ensures
        ({
            let e = ((m.debug_effect_index + k) % (NUM_EFFECTS as int)) as usize;
            let (m2, a) = spec_debug_buttons(down_taunts(m, k), true, false);
            &&& a == DebugAction::Forced(e)
            &&& m2.votes[e as int].is_enabled
            &&& m2.player_effect_number == Some(0usize)
        }),
{
    lemma_down_taunts(m, k);
}

// ---------------------------------------------------------------------------
// Which messages count, and when voting reopens
// ---------------------------------------------------------------------------

/// The message reads as a number that names an option on offer: one of
/// the three offered effects when the chat picks effects, one of the
/// `total_fighters` players when it picks a player.
pub open spec fn names_an_option(m: VotingView, vote: Option<usize>, total_fighters: usize) -> bool {
    match vote {
        Some(n) => match m.mode {
            GameModes::ChooseEffect => 1 <= n <= 3 && m.rotation[n - 1] is Some,
            GameModes::ChoosePlayer => 1 <= n <= total_fighters && m.rotation[0] is Some,
        },
        None => false,
    }
}

/// A chat message counts exactly when votes are looked at, the message
/// names an option on offer, and the chatter has not voted in this period.
/// A message that does not count changes nothing: a message that is no
/// vote leaves the chatter free to vote later in the period.
pub proof fn law_which_messages_count(
    m: VotingView,
    vote: Option<usize>,
    name: Seq<char>,
    is_ready_go: bool,
    total_fighters: usize,
)
    requires
        m.wf(),
    ensures
        spec_update_votes(m, vote, name, is_ready_go, total_fighters).1 <==> (votes_looked_at(
            m,
            is_ready_go,
        ) && names_an_option(m, vote, total_fighters) && !m.voter_names.contains(name)),
        !spec_update_votes(m, vote, name, is_ready_go, total_fighters).1 ==> spec_update_votes(
            m,
            vote,
            name,
            is_ready_go,
            total_fighters,
        ).0 == m,
        spec_update_votes(m, vote, name, is_ready_go, total_fighters).1 ==> spec_update_votes(
            m,
            vote,
            name,
            is_ready_go,
            total_fighters,
        ).0.voter_names == m.voter_names.push(name),
{
}

/// The record and slot a vote for option `n` raises: the offered effect
/// in slot `n - 1` (its only count) when the chat picks effects; player
/// `n`'s count on the effect being given away when it picks a player.
pub open spec fn voted_counter(m: VotingView, n: usize) -> (int, int) {
    match m.mode {
        GameModes::ChooseEffect => (m.rotation[n - 1]->Some_0 as int, 0),
        GameModes::ChoosePlayer => (m.rotation[0]->Some_0 as int, n - 1),
    }
}

/// A counted vote for option `n` raises that option's count by one and
/// leaves every other count, switch, fighter slot and clock reading, and
/// everything else but the voter list, as it was.
pub proof fn law_counted_vote_raises_the_named_option(
    m: VotingView,
    n: usize,
    name: Seq<char>,
    is_ready_go: bool,
    total_fighters: usize,
)
    requires
        m.wf(),
        update_votes_defined(m, is_ready_go, total_fighters),
        spec_update_votes(m, Some(n), name, is_ready_go, total_fighters).1,
    ensures
        ({
            let m1 = spec_update_votes(m, Some(n), name, is_ready_go, total_fighters).0;
            let (e, k) = voted_counter(m, n);
            &&& m1.votes.len() == m.votes.len()
            &&& forall|f: int, j: int|
                0 <= f < m.votes.len() && 0 <= j < MAX_PLAYERS ==> #[trigger] m1.votes[f].votes[j]
                    == m.votes[f].votes[j] + if f == e && j == k {
                    1int
                } else {
                    0int
                }
            &&& forall|f: int|
                0 <= f < m.votes.len() ==> (#[trigger] m1.votes[f]).votes.len() == MAX_PLAYERS
                    && m1.votes[f].is_enabled == m.votes[f].is_enabled && m1.votes[f].players
                    == m.votes[f].players && m1.votes[f].activate_times
                    == m.votes[f].activate_times
            &&& m1 == VotingView { votes: m1.votes, voter_names: m1.voter_names, ..m }
        }),
{
    let m1 = spec_update_votes(m, Some(n), name, is_ready_go, total_fighters).0;
    let (e, k) = voted_counter(m, n);
    match m.mode {
        GameModes::ChooseEffect => {
            assert(m.rotation[n - 1] is Some);
        },
        GameModes::ChoosePlayer => {
            assert(m.rotation[0] is Some);
        },
    }
    assert(0 <= e < m.votes.len() && 0 <= k < MAX_PLAYERS);
    assert(m.votes[e].votes[k] < usize::MAX);
    assert(m1.votes == m.votes.update(e, crate::voting::bump(m.votes[e], k)));
}

/// A match that starts opens a fresh voting period: it begins at the
/// current clock reading, a full rotation is offered, no chatter has voted
/// yet, and no fighter is recorded.
pub proof fn law_match_start_opens_fresh_period(
    m: VotingView,
    is_ready_go: bool,
    now: u32,
    draws: Seq<usize>,
)
    requires
        m.wf(),
        draws_valid(draws),
    ensures
        (match spec_handle_game_resets(m, is_ready_go, now, draws) {
            Some((m2, c)) => c == SessionChange::Started ==> {
                &&& m2.voter_names.len() == 0
                &&& forall|name: Seq<char>| !m2.voter_names.contains(name)
                &&& m2.voting_period_begin == now
                &&& rotation_full(m2.rotation)
                &&& !m2.is_players_populated
                &&& m2.last_ready_go
            },
            None => true,
        }),
{
    lemma_fill_rotation(m.init_votes().rotation, 0, draws);
}

/// When a voting period ends, in either mode, voting reopens to every
/// chatter: a new period begins at `now`, a full rotation is offered and
/// the voter list is empty.
pub proof fn law_period_end_reopens_voting(m: VotingView, tie_draw: int, draws: Seq<usize>, now: u32)
    requires
        m.wf(),
        m.voting_period_begin != 0,
        0 <= tie_draw < vote_candidates(m).len(),
        draws_valid(draws),
    ensures
        spec_conclude_voting_period(m, tie_draw, draws, now) matches Some((m2, w)) ==> {
            &&& m2.voter_names.len() == 0
            &&& forall|name: Seq<char>| !m2.voter_names.contains(name)
            &&& m2.voting_period_begin == now
            &&& rotation_full(m2.rotation)
        },
{
    lemma_fill_rotation(m.rotation, 0, draws);
}

// ---------------------------------------------------------------------------
// Reading chat lines
// ---------------------------------------------------------------------------

/// The line begins with `PING`.
pub open spec fn starts_with_ping(line: Seq<char>) -> bool {
    &&& line.len() >= 4
    &&& line[0] == 'P'
    &&& line[1] == 'I'
    &&& line[2] == 'N'
    &&& line[3] == 'G'
}

/// `PRIVMSG` appears somewhere in the line.
pub open spec fn contains_privmsg(line: Seq<char>) -> bool {
    exists|i: int|
        0 <= i && i + 7 <= line.len() && #[trigger] line.subrange(i, i + 7) == seq![
            'P',
            'R',
            'I',
            'V',
            'M',
            'S',
            'G',
        ]
}

proof fn lemma_find_from_complete(s: Seq<char>, pat: Seq<char>, i: int, j: int)
    requires
        0 <= i <= j,
        occurs_at(s, pat, j),
    ensures
        find_from(s, pat, i) is Some,
    decreases j - i,
{
    if !occurs_at(s, pat, i) {
        lemma_find_from_complete(s, pat, i + 1, j);
    }
}

/// A line is a keep-alive exactly when it begins with `PING`; otherwise a
/// line holding `PRIVMSG` anywhere is a chat message, and any other line
/// is neither.
pub proof fn law_ping_only_at_line_start(line: Seq<char>, channel: Seq<char>)
    ensures
        (spec_parse_chat_line(line, channel) is Ping) <==> starts_with_ping(line),
        !starts_with_ping(line) && contains_privmsg(line) ==> spec_parse_chat_line(
            line,
            channel,
        ) is Privmsg,
        !starts_with_ping(line) && !contains_privmsg(line) ==> spec_parse_chat_line(
            line,
            channel,
        ) is Other,
{
    reveal_strlit("PING");
    reveal_strlit("PRIVMSG");
    let ping = "PING"@;
    let pm = "PRIVMSG"@;
    assert(ping =~= seq!['P', 'I', 'N', 'G']);
    assert(pm =~= seq!['P', 'R', 'I', 'V', 'M', 'S', 'G']);
    if starts_with_ping(line) {
        assert(line.subrange(0, 4) =~= ping);
    }
    if occurs_at(line, ping, 0) {
        assert(line.subrange(0, 4)[0] == 'P');
        assert(line.subrange(0, 4)[1] == 'I');
        assert(line.subrange(0, 4)[2] == 'N');
        assert(line.subrange(0, 4)[3] == 'G');
    }
    if contains_privmsg(line) {
        let i = choose|i: int|
            0 <= i && i + 7 <= line.len() && #[trigger] line.subrange(i, i + 7) == seq![
                'P',
                'R',
                'I',
                'V',
                'M',
                'S',
                'G',
            ];
        lemma_find_from_complete(line, pm, 0, i);
    }
    lemma_occurrence_in_range(line, pm);
    match first_occurrence(line, pm) {
        Some(j) => {
            assert(line.subrange(j, j + 7) == pm);
            assert(contains_privmsg(line));
        },
        None => {},
    }
}

// ---------------------------------------------------------------------------
// Effect names
// ---------------------------------------------------------------------------

/// The effects' names, in the order of their numbers.
pub open spec fn names_in_order() -> Seq<Seq<char>> {
    seq![
        "turbo"@,
        "curry"@,
        "death"@,
        "sleep"@,
        "low-grav"@,
        "slow-mo"@,
        "flight"@,
        "trip"@,
        "final-smash"@,
        "reverse"@,
        "jumps"@,
        "dmg-or-heal"@,
        "no-ledges"@,
    ]
}

/// Each effect is shown under its own name: effect number `e` is listed as
/// the `e`-th name of the list, in which each effect's constant picks its
/// own name (`LOW_GRAV` is "low-grav", `SLOW_MO` is "slow-mo", ...).
pub proof fn law_each_effect_has_its_own_name(e: usize)
    requires
        e < NUM_EFFECTS,
    ensures
        spec_effect_name(e) == names_in_order()[e as int],
        names_in_order()[TURBO as int] == "turbo"@,
        names_in_order()[CURRY as int] == "curry"@,
        names_in_order()[DEATH as int] == "death"@,
        names_in_order()[SLEEP as int] == "sleep"@,
        names_in_order()[LOW_GRAV as int] == "low-grav"@,
        names_in_order()[SLOW_MO as int] == "slow-mo"@,
        names_in_order()[FLIGHT as int] == "flight"@,
        names_in_order()[TRIP as int] == "trip"@,
        names_in_order()[FINAL_SMASH as int] == "final-smash"@,
        names_in_order()[REVERSE as int] == "reverse"@,
        names_in_order()[JUMPS as int] == "jumps"@,
        names_in_order()[DMG_OR_HEAL as int] == "dmg-or-heal"@,
        names_in_order()[NO_LEDGES as int] == "no-ledges"@,
{
}

} // verus!
