use ssbu_twitch_integration::config::Config;
use ssbu_twitch_integration::utils::{is_time_range, SliceBound, StringUtils};
use ssbu_twitch_integration::vote_text::{parse_vote, parse_vote_text};
use ssbu_twitch_integration::GameModes;

#[test]
fn config_new_has_the_documented_defaults() {
    let c = Config::new();
    assert_eq!(c.oauth, "oauth:");
    assert_eq!(c.channel, "faultypine");
    assert_eq!(c.mode, GameModes::ChooseEffect);
    assert_eq!(c.voting_interval, 45);
}

#[test]
fn time_range_elapses_after_duration() {
    assert!(!is_time_range(200, 45, 156));
    assert!(is_time_range(200, 45, 155));
    assert!(is_time_range(200, 45, 0));
    assert!(is_time_range(7, 0, 7));
}

#[test]
fn time_range_stays_elapsed_as_clock_runs_down() {
    assert!(is_time_range(100, 20, 80));
    assert!(is_time_range(100, 20, 10));
}

#[test]
fn time_range_false_when_clock_reads_above_start() {
    assert!(!is_time_range(100, 0, 101));
    assert!(!is_time_range(100, 20, u32::MAX));
    assert!(!is_time_range(0, 1, 5));
}

#[test]
fn substring_counts_characters() {
    assert_eq!("héllo".substring(1, 3), "éll");
    assert_eq!("héllo".substring(10, 2), "");
    assert_eq!("abc".substring(1, usize::MAX), "bc");
    assert_eq!("abc".substring(0, 0), "");
}

#[test]
fn slice_bounds() {
    assert_eq!("abcd".slice(SliceBound::Included(1), SliceBound::Excluded(3)), "bc");
    // An excluded start is treated like an included one.
    assert_eq!("abcd".slice(SliceBound::Excluded(1), SliceBound::Included(2)), "bc");
    assert_eq!("abcd".slice(SliceBound::Unbounded, SliceBound::Excluded(2)), "ab");
    // An unbounded end is the byte length: 6 bytes, 5 characters.
    assert_eq!("héllo".slice(SliceBound::Unbounded, SliceBound::Unbounded), "héllo");
    assert_eq!("héllo".slice(SliceBound::Included(2), SliceBound::Unbounded), "llo");
}

#[test]
fn slice_out_of_order_or_past_the_end_is_empty() {
    assert_eq!("ab".slice(SliceBound::Included(5), SliceBound::Unbounded), "");
    assert_eq!("abcd".slice(SliceBound::Included(3), SliceBound::Excluded(1)), "");
    assert_eq!("abcd".slice(SliceBound::Included(2), SliceBound::Excluded(2)), "");
    assert_eq!("abcd".slice(SliceBound::Included(2), SliceBound::Excluded(9)), "cd");
}

#[test]
fn vote_text_reads_trimmed_decimal_numbers() {
    assert_eq!(parse_vote_text("2"), Some(2));
    assert_eq!(parse_vote_text(" 3 \n"), Some(3));
    assert_eq!(parse_vote_text("\u{3000}2\u{2003}"), Some(2));
    assert_eq!(parse_vote_text("+1"), Some(1));
    assert_eq!(parse_vote_text("007"), Some(7));
}

#[test]
fn vote_text_rejects_non_numbers() {
    assert_eq!(parse_vote_text("+"), None);
    assert_eq!(parse_vote_text(""), None);
    assert_eq!(parse_vote_text("   "), None);
    assert_eq!(parse_vote_text("1 2"), None);
    assert_eq!(parse_vote_text("-1"), None);
    assert_eq!(parse_vote_text("two"), None);
    assert_eq!(parse_vote_text("\u{0662}"), None);
}

#[test]
fn vote_text_rejects_overflow() {
    let max = usize::MAX.to_string();
    assert_eq!(parse_vote_text(&max), Some(usize::MAX));
    let over = format!("{}0", max);
    assert_eq!(parse_vote_text(&over), None);
}

#[test]
fn parse_vote_lowercases_first() {
    assert_eq!(parse_vote(" 3 "), Some(3));
    assert_eq!(parse_vote("ONE"), None);
    assert_eq!(parse_vote("\u{FF12}"), None);
}

#[test]
fn trimmed_message_votes_the_same() {
    for m in [" 2 ", "2\r", "\t3\n", "x", "  "] {
        assert_eq!(parse_vote_text(m.trim()), parse_vote_text(m));
        assert_eq!(parse_vote(m.trim()), parse_vote(m));
    }
    assert_eq!(parse_vote("2\r"), Some(2));
}
