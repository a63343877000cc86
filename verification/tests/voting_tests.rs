use ssbu_twitch_integration::config::Config;
use ssbu_twitch_integration::effects::lifecycle::{
    death, flight, low_grav, no_ledges, sleep, turbo, EffectPhase,
};
use ssbu_twitch_integration::effects::{
    effect_name, Vote, DEATH, FLIGHT, LOW_GRAV, NUM_EFFECTS, TURBO,
};
use ssbu_twitch_integration::hooks::{air_accel_modifier, ledge_grab_blocked, AirAccel};
use ssbu_twitch_integration::sys_line::{DebugAction, SessionChange};
use ssbu_twitch_integration::voting::{VoteListing, Voting};
use ssbu_twitch_integration::GameModes;

fn started(mode: GameModes, now: u32, draws: Vec<usize>) -> Voting {
    let mut config = Config::new();
    config.mode = mode;
    let mut v = Voting::new(&config);
    assert!(v.session_starts(true));
    assert_eq!(v.handle_game_resets(true, now, &draws), Some(SessionChange::Started));
    v
}

#[test]
fn effect_names_listed() {
    assert_eq!(effect_name(TURBO), "turbo");
    assert_eq!(effect_name(DEATH), "death");
    assert_eq!(effect_name(NUM_EFFECTS - 1), "no-ledges");
}

#[test]
fn fresh_vote_record() {
    let v = Vote::new();
    assert_eq!(v.votes, [0; 8]);
    assert!(!v.is_enabled);
    assert_eq!(v.players, [None; 8]);
    assert_eq!(v.activate_times, [0; 8]);
}

#[test]
fn no_votes_before_match() {
    let config = Config::new();
    let mut v = Voting::new(&config);
    let u = v.update_votes("1", "alice".to_string(), true, 2, 100);
    assert!(!u.vote_counted && !u.period_over);
    assert!(v.vote_listing().is_none());
}

#[test]
fn match_start_needs_enough_draws() {
    let config = Config::new();
    let mut v = Voting::new(&config);
    assert!(!v.rotation_draws_suffice(&vec![4, 4, 4]));
    assert_eq!(v.handle_game_resets(true, 200, &vec![4, 4, 4]), None);
    assert!(v.votes.is_empty());
    assert!(!v.last_ready_go);
    assert!(v.rotation_draws_suffice(&vec![4, 4, 5, 6]));
    assert_eq!(v.handle_game_resets(true, 200, &vec![4, 4, 5, 6]), Some(SessionChange::Started));
    assert_eq!(v.rotation, [Some(4), Some(5), Some(6)]);
    assert_eq!(v.votes.len(), NUM_EFFECTS);
    assert_eq!(v.voting_period_begin, 200);
    assert_eq!(v.handle_game_resets(true, 190, &vec![]), Some(SessionChange::Unchanged));
    assert_eq!(v.handle_game_resets(false, 180, &vec![]), Some(SessionChange::Ended));
    assert_eq!(v.voting_period_begin, 0);
    let u = v.update_votes("1", "alice".to_string(), true, 2, 170);
    assert!(!u.vote_counted && !u.period_over);
}

#[test]
fn choose_effect_scenario() {
    let mut v = started(GameModes::ChooseEffect, 200, vec![0, 1, 2]);
    assert_eq!(v.rotation, [Some(0), Some(1), Some(2)]);
    let u = v.update_votes("2", "alice".to_string(), true, 2, 190);
    assert!(u.vote_counted && !u.period_over);
    // One vote per chatter and period.
    let u = v.update_votes("3", "alice".to_string(), true, 2, 189);
    assert!(!u.vote_counted);
    assert!(v.update_votes("3", "bob".to_string(), true, 2, 188).vote_counted);
    assert!(!v.update_votes("4", "carol".to_string(), true, 2, 187).vote_counted);
    assert!(!v.update_votes("0", "carol".to_string(), true, 2, 187).vote_counted);
    // Not while the match is paused.
    assert!(!v.update_votes("1", "carol".to_string(), false, 2, 187).vote_counted);
    let u = v.update_votes(" 3 ", "dave".to_string(), true, 2, 155);
    assert!(u.vote_counted && u.period_over);
    assert_eq!(v.votes[1].votes[0], 1);
    assert_eq!(v.votes[2].votes[0], 2);
    match v.vote_listing() {
        Some(VoteListing::Effects(e)) => assert_eq!(e, vec![(0, 0), (1, 1), (2, 2)]),
        _ => panic!("expected the effect listing"),
    }
    assert_eq!(v.vote_candidates(), vec![(2, 2)]);
    assert_eq!(v.conclude_voting_period(0, &vec![0, 1, 2, 3, 4, 5], 155), Some(2));
    assert!(v.votes[2].is_enabled);
    assert_eq!(v.rotation, [Some(3), Some(4), Some(5)]);
    assert!(v.voter_names.is_empty());
    assert_eq!(v.voting_period_begin, 155);
    // Voting reopens to everyone.
    assert!(v.update_votes("1", "alice".to_string(), true, 2, 150).vote_counted);
}

#[test]
fn ties_are_all_candidates() {
    let mut v = started(GameModes::ChooseEffect, 100, vec![5, 6, 7]);
    assert!(v.update_votes("1", "a".to_string(), true, 2, 90).vote_counted);
    assert!(v.update_votes("2", "b".to_string(), true, 2, 90).vote_counted);
    assert_eq!(v.vote_candidates(), vec![(5, 1), (6, 1)]);
    // The draw picks among the tied ones; too few rotation draws change nothing.
    assert_eq!(v.conclude_voting_period(1, &vec![5, 6], 50), None);
    assert!(!v.votes[6].is_enabled);
    assert_eq!(v.conclude_voting_period(1, &vec![8, 9, 10], 50), Some(6));
    assert!(v.votes[6].is_enabled);
    assert!(!v.votes[5].is_enabled);
}

#[test]
fn no_votes_means_everyone_ties() {
    let v = started(GameModes::ChooseEffect, 100, vec![1, 2, 3]);
    assert_eq!(v.vote_candidates(), vec![(1, 0), (2, 0), (3, 0)]);
}

#[test]
fn choose_player_scenario() {
    let mut v = started(GameModes::ChoosePlayer, 300, vec![7, 8, 9]);
    // Fighters are recorded before votes count.
    assert!(!v.update_votes("1", "alice".to_string(), true, 2, 299).vote_counted);
    assert!(!v.get_players(0, 2));
    assert!(!v.get_players(1, 2));
    assert_eq!(v.votes[3].players[0..3], [Some(false), Some(false), None]);
    assert!(v.get_players(0, 2));
    assert!(v.is_players_populated);
    assert!(!v.get_players(3, 2));
    assert!(v.update_votes("2", "alice".to_string(), true, 2, 290).vote_counted);
    assert!(!v.update_votes("3", "bob".to_string(), true, 2, 290).vote_counted);
    assert_eq!(v.votes[7].votes[1], 1);
    match v.vote_listing() {
        Some(VoteListing::Player { effect, players }) => {
            assert_eq!(effect, 7);
            assert_eq!(players, vec![(0, 0), (1, 1)]);
        }
        _ => panic!("expected the player listing"),
    }
    let u = v.update_votes("", "zed".to_string(), true, 2, 255);
    assert!(!u.vote_counted && u.period_over);
    assert_eq!(v.vote_candidates(), vec![(1, 1)]);
    assert_eq!(v.conclude_voting_period(0, &vec![1, 2, 3], 255), Some(1));
    assert_eq!(v.player_effect_number, Some(1));
    assert!(v.votes[7].is_enabled);
    assert!(v.once_per_frame(1));
    assert!(!v.once_per_frame(0));
    // Resetting an existing table switches every record off with no votes,
    // keeps the fighter slots (off) and forgets the chosen player.
    v.init_votes();
    assert_eq!(v.player_effect_number, None);
    assert!(!v.votes[7].is_enabled);
    assert_eq!(v.votes[7].votes, [0; 8]);
    assert_eq!(v.votes[7].players[0..3], [Some(false), Some(false), None]);
    assert!(v.votes.iter().all(|x| !x.is_enabled && x.votes == [0; 8]));
}

#[test]
fn choose_player_reset_switches_effects_off_for_fighters() {
    let mut v = started(GameModes::ChoosePlayer, 300, vec![7, 8, 9]);
    assert!(!v.get_players(0, 1));
    assert!(v.get_players(0, 1));
    assert_eq!(v.debug_buttons(true, false), DebugAction::Forced(TURBO));
    assert_eq!(turbo(&mut v, 0, 290), EffectPhase::Activated);
    assert_eq!(v.votes[TURBO].players[0], Some(true));
    v.init_votes();
    assert_eq!(v.votes[TURBO].players[0], Some(false));
    assert_eq!(v.votes[TURBO].players[1], None);
    assert_eq!(v.votes[TURBO].activate_times[0], 290);
    assert!(!v.votes[TURBO].is_enabled);
}

#[test]
fn one_pass_of_fighters_then_one_frame_completes_recording() {
    let mut v = started(GameModes::ChoosePlayer, 300, vec![7, 8, 9]);
    for id in [5, 2, 6] {
        assert!(!v.get_players(id, 3));
    }
    assert!(v.get_players(5, 3));
    assert!(v.is_players_populated);
    for x in v.votes.iter() {
        for i in 0..8 {
            let expected = if i == 2 || i == 5 || i == 6 { Some(false) } else { None };
            assert_eq!(x.players[i], expected);
        }
    }
}

#[test]
fn clock_above_period_start_is_not_over() {
    let mut v = started(GameModes::ChooseEffect, 100, vec![0, 1, 2]);
    let u = v.update_votes("1", "a".to_string(), true, 2, 150);
    assert!(u.vote_counted);
    assert!(!u.period_over);
}

#[test]
fn choose_effect_runs_effects_on_everyone() {
    let v = started(GameModes::ChooseEffect, 300, vec![7, 8, 9]);
    assert!(v.once_per_frame(0));
    assert!(v.once_per_frame(5));
}

#[test]
fn instant_effect_lifecycle() {
    let mut v = started(GameModes::ChooseEffect, 200, vec![0, 1, 2]);
    assert!(v.update_votes("3", "a".to_string(), true, 2, 150).vote_counted);
    assert_eq!(v.conclude_voting_period(0, &vec![3, 4, 5], 150), Some(DEATH));
    assert_eq!(death(&mut v, 0, 149), EffectPhase::Activated);
    assert_eq!(v.votes[DEATH].players[0], Some(true));
    assert_eq!(death(&mut v, 1, 149), EffectPhase::Activated);
    assert_eq!(death(&mut v, 0, 148), EffectPhase::Expired);
    // Votes start over when the effect runs out; the effect is switched
    // off but still on for both fighters, and turns off for each.
    assert!(!v.votes[DEATH].is_enabled);
    assert_eq!(v.votes[DEATH].players[1], Some(true));
    assert_eq!(death(&mut v, 1, 147), EffectPhase::Deactivated);
    assert_eq!(v.votes[DEATH].players[1], Some(false));
    assert_eq!(death(&mut v, 0, 146), EffectPhase::Deactivated);
    assert_eq!(death(&mut v, 0, 145), EffectPhase::Idle);
    assert_eq!(death(&mut v, 1, 145), EffectPhase::Idle);
}

#[test]
fn turbo_turns_off_after_expiry_when_chat_picks_effects() {
    let mut v = started(GameModes::ChooseEffect, 200, vec![1, 2, 3]);
    assert_eq!(v.debug_buttons(true, false), DebugAction::Forced(TURBO));
    assert_eq!(turbo(&mut v, 0, 190), EffectPhase::Activated);
    assert_eq!(turbo(&mut v, 0, 171), EffectPhase::Running);
    assert_eq!(turbo(&mut v, 0, 170), EffectPhase::Expired);
    // Every other record is left as it was.
    assert!(v.votes.iter().enumerate().all(|(e, x)| e == TURBO || x.players == [None; 8]));
    assert_eq!(turbo(&mut v, 0, 169), EffectPhase::Deactivated);
    assert_eq!(v.votes[TURBO].players[0], Some(false));
    assert_eq!(turbo(&mut v, 0, 168), EffectPhase::Idle);
}

#[test]
fn timed_effect_lifecycle() {
    let mut v = started(GameModes::ChooseEffect, 200, vec![0, 1, 2]);
    assert_eq!(v.debug_buttons(true, false), DebugAction::Forced(TURBO));
    assert_eq!(v.player_effect_number, Some(0));
    assert_eq!(turbo(&mut v, 1, 150), EffectPhase::Activated);
    assert_eq!(v.votes[TURBO].activate_times[1], 150);
    // A clock reading above the start is not elapsed time.
    assert_eq!(turbo(&mut v, 1, 151), EffectPhase::Running);
    assert_eq!(turbo(&mut v, 1, 140), EffectPhase::Running);
    assert_eq!(turbo(&mut v, 1, 130), EffectPhase::Expired);
    assert!(!v.votes[TURBO].is_enabled);
}

#[test]
fn player_pick_expiry_turns_the_effect_off() {
    let mut v = started(GameModes::ChoosePlayer, 200, vec![0, 1, 2]);
    assert_eq!(v.debug_buttons(true, false), DebugAction::Forced(TURBO));
    assert_eq!(turbo(&mut v, 0, 150), EffectPhase::Activated);
    assert_eq!(turbo(&mut v, 0, 120), EffectPhase::Expired);
    // The votes are reset: the effect is off for the fighter, and no player
    // is chosen any more.
    assert_eq!(v.votes[TURBO].players[0], Some(false));
    assert_eq!(v.player_effect_number, None);
    assert!(!v.once_per_frame(0));
    assert_eq!(turbo(&mut v, 0, 119), EffectPhase::Idle);
}

#[test]
fn player_pick_no_ledges_expiry_frees_the_ledges() {
    let mut v = started(GameModes::ChoosePlayer, 200, vec![0, 1, 2]);
    assert!(!v.get_players(0, 1));
    assert!(v.get_players(0, 1));
    for _ in 0..12 {
        v.debug_buttons(false, true);
    }
    assert_eq!(v.debug_buttons(true, false), DebugAction::Forced(12));
    assert_eq!(no_ledges(&mut v, 0, 190), EffectPhase::Activated);
    assert!(ledge_grab_blocked(&v, 0));
    assert_eq!(no_ledges(&mut v, 0, 176), EffectPhase::Running);
    assert_eq!(no_ledges(&mut v, 0, 175), EffectPhase::Expired);
    assert!(!ledge_grab_blocked(&v, 0));
    assert!(!v.once_per_frame(0));
}

#[test]
fn effects_overlap_when_the_chat_picks_effects() {
    let mut v = started(GameModes::ChooseEffect, 200, vec![3, 4, 5]);
    assert!(v.update_votes("1", "a".to_string(), true, 2, 199).vote_counted);
    assert_eq!(v.debug_buttons(true, false), DebugAction::Forced(TURBO));
    assert_eq!(turbo(&mut v, 0, 190), EffectPhase::Activated);
    for _ in 0..FLIGHT {
        v.debug_buttons(false, true);
    }
    v.player_effect_number = None;
    assert_eq!(v.debug_buttons(true, false), DebugAction::Forced(FLIGHT));
    assert_eq!(flight(&mut v, 0, 185), EffectPhase::Activated);
    assert_eq!(turbo(&mut v, 0, 170), EffectPhase::Expired);
    // Turbo alone is switched off; flight keeps running on the fighter.
    assert!(!v.votes[TURBO].is_enabled);
    assert!(v.votes[FLIGHT].is_enabled);
    assert_eq!(v.votes[FLIGHT].players[0], Some(true));
    assert_eq!(flight(&mut v, 0, 171), EffectPhase::Running);
    // The vote counts start over.
    assert_eq!(v.votes[3].votes[0], 0);
    assert_eq!(turbo(&mut v, 0, 169), EffectPhase::Deactivated);
    assert_eq!(flight(&mut v, 0, 170), EffectPhase::Expired);
}

#[test]
fn ascii_message_counts_as_its_lowercased_trimmed_form() {
    let mut a = started(GameModes::ChooseEffect, 200, vec![3, 4, 5]);
    let mut b = started(GameModes::ChooseEffect, 200, vec![3, 4, 5]);
    assert!(a.update_votes("  2\r", "x".to_string(), true, 2, 199).vote_counted);
    assert!(b.update_votes("2", "x".to_string(), true, 2, 199).vote_counted);
    assert_eq!(a.votes[4].votes, b.votes[4].votes);
    assert_eq!(a.votes[4].votes[0], 1);
}

#[test]
fn shared_clock_effect_and_hooks() {
    let mut v = started(GameModes::ChooseEffect, 200, vec![0, 1, 2]);
    assert_eq!(air_accel_modifier(&v, 0), AirAccel::Unchanged);
    for _ in 0..LOW_GRAV {
        assert!(matches!(v.debug_buttons(false, true), DebugAction::Selected(_)));
    }
    assert_eq!(v.debug_effect_index, LOW_GRAV);
    assert_eq!(v.debug_buttons(true, false), DebugAction::Forced(LOW_GRAV));
    assert_eq!(low_grav(&mut v, 0, 180), EffectPhase::Activated);
    assert_eq!(v.effect_clocks[LOW_GRAV], 180);
    assert_eq!(air_accel_modifier(&v, 0), AirAccel::LowGravity);
    assert_eq!(air_accel_modifier(&v, 1), AirAccel::Unchanged);
    assert!(!ledge_grab_blocked(&v, 0));
    assert_eq!(low_grav(&mut v, 1, 170), EffectPhase::Activated);
    assert_eq!(v.effect_clocks[LOW_GRAV], 170);
    // Both fighters are timed from the last activation.
    assert_eq!(low_grav(&mut v, 0, 156), EffectPhase::Running);
    assert_eq!(low_grav(&mut v, 0, 155), EffectPhase::Expired);
}

#[test]
fn sleep_ends_early_when_woken() {
    let mut v = started(GameModes::ChooseEffect, 200, vec![0, 1, 2]);
    for _ in 0..3 {
        v.debug_buttons(false, true);
    }
    assert_eq!(v.debug_buttons(true, false), DebugAction::Forced(3));
    assert_eq!(sleep(&mut v, 0, 150, 5, true), EffectPhase::Activated);
    assert_eq!(sleep(&mut v, 0, 149, 5, true), EffectPhase::Running);
    assert_eq!(sleep(&mut v, 0, 148, 5, false), EffectPhase::Expired);
}

#[test]
fn debug_buttons_cycle_and_missing() {
    let config = Config::new();
    let mut v = Voting::new(&config);
    assert_eq!(v.debug_buttons(true, false), DebugAction::Missing(0));
    for i in 1..NUM_EFFECTS {
        assert_eq!(v.debug_buttons(false, true), DebugAction::Selected(i));
    }
    assert_eq!(v.debug_buttons(false, true), DebugAction::Selected(0));
    assert_eq!(v.debug_buttons(false, false), DebugAction::Nothing);
}

#[test]
fn down_taunts_then_up_taunt_forces_selected_effect() {
    let mut v = started(GameModes::ChooseEffect, 200, vec![0, 1, 2]);
    for _ in 0..15 {
        v.debug_buttons(false, true);
    }
    assert_eq!(v.debug_effect_index, 15 % NUM_EFFECTS);
    assert_eq!(v.debug_buttons(true, false), DebugAction::Forced(2));
    assert!(v.votes[2].is_enabled);
    assert_eq!(v.player_effect_number, Some(0));
}

#[test]
fn hooks_follow_no_ledges() {
    let mut v = started(GameModes::ChooseEffect, 200, vec![0, 1, 2]);
    for _ in 0..12 {
        v.debug_buttons(false, true);
    }
    assert_eq!(v.debug_buttons(true, false), DebugAction::Forced(12));
    assert_eq!(no_ledges(&mut v, 2, 150), EffectPhase::Activated);
    assert!(ledge_grab_blocked(&v, 2));
    assert!(!ledge_grab_blocked(&v, 0));
}

#[test]
fn counters_below_max_check() {
    let mut v = started(GameModes::ChooseEffect, 200, vec![0, 1, 2]);
    assert!(v.counts_below_max());
    v.votes[4].votes[3] = usize::MAX;
    assert!(!v.counts_below_max());
}

#[test]
fn rotation_redraws_every_slot() {
    let mut v = started(GameModes::ChooseEffect, 200, vec![0, 1, 2]);
    // A slot may take an effect an earlier slot offered before, never one
    // still offered at that moment.
    assert!(v.randomize_voting_rotation(&vec![1, 3, 3, 2, 0, 1]));
    assert_eq!(v.rotation, [Some(3), Some(0), Some(1)]);
    assert!(!v.randomize_voting_rotation(&vec![3, 0, 1, 2]));
    assert_eq!(v.rotation, [Some(3), Some(0), Some(1)]);
}

#[test]
fn init_votes_twice_is_once() {
    let mut v = started(GameModes::ChooseEffect, 200, vec![0, 1, 2]);
    assert!(v.update_votes("1", "a".to_string(), true, 2, 190).vote_counted);
    v.init_votes();
    assert_eq!(v.votes[0].votes[0], 0);
    let once: Vec<([usize; 8], bool)> = v.votes.iter().map(|x| (x.votes, x.is_enabled)).collect();
    v.init_votes();
    let twice: Vec<([usize; 8], bool)> = v.votes.iter().map(|x| (x.votes, x.is_enabled)).collect();
    assert_eq!(once, twice);
}
