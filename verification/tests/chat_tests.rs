use ssbu_twitch_integration::twitch::{
    chat_line_fits, irc_channel, login_commands, parse_chat_line, ChatLine, ChatReader,
};

fn privmsg(line: &str, channel: &str) -> (Option<String>, String) {
    match parse_chat_line(line, channel) {
        ChatLine::Privmsg { chatter, message } => (chatter, message),
        _ => panic!("not a message line"),
    }
}

#[test]
fn chat_line_standard_message() {
    let line = ":alice!alice@alice.tmi.twitch.tv PRIVMSG #faultypine :2";
    assert!(chat_line_fits(line));
    let (name, msg) = privmsg(line, "#faultypine");
    assert_eq!(name.as_deref(), Some("alice"));
    assert_eq!(msg, "2");
}

#[test]
fn chat_line_message_with_unicode_text() {
    let line = ":bob!bob@bob.tmi.twitch.tv PRIVMSG #chan :héllo wörld";
    let (name, msg) = privmsg(line, "#chan");
    assert_eq!(name.as_deref(), Some("bob"));
    assert_eq!(msg, "héllo wörld");
}

#[test]
fn chat_line_byte_offsets_used_as_character_counts() {
    // Before the host part the line holds three two-byte characters, so the
    // byte offsets found run ahead of the character positions they are used as.
    let line = ":é!é@é.tmi.twitch.tv PRIVMSG #c :hi";
    assert!(chat_line_fits(line));
    let (name, msg) = privmsg(line, "#c");
    assert_eq!(name.as_deref(), Some("tm"));
    assert_eq!(msg, "");
}

#[test]
fn chat_line_ping_and_other() {
    assert!(matches!(parse_chat_line("PING :tmi.twitch.tv", "#c"), ChatLine::Ping));
    assert!(matches!(
        parse_chat_line(":tmi.twitch.tv 001 bruh :Welcome, GLHF!", "#c"),
        ChatLine::Other
    ));
}

#[test]
fn chat_line_without_host_or_channel() {
    let (name, msg) = privmsg("x.tmi.twitch.tv PRIVMSG", "#c");
    assert_eq!(name.as_deref(), Some(""));
    assert_eq!(msg, "x.tmi.twitch.tv PRIVMSG");
    let (name, msg) = privmsg("someone PRIVMSG nothing", "#c");
    assert_eq!(name, None);
    assert_eq!(msg, "someone PRIVMSG nothing");
}

#[test]
fn chat_line_positions_out_of_order_or_past_the_end() {
    // The name would end before it starts: it is empty.
    let (name, msg) = privmsg(".tmi.twitch.tv PRIVMSG", "#c");
    assert_eq!(name.as_deref(), Some(""));
    assert_eq!(msg, ".tmi.twitch.tv PRIVMSG");
    // The message would begin past the end of the line: it is empty.
    let (name, msg) = privmsg("PRIVMSG #c", "#c");
    assert_eq!(name, None);
    assert_eq!(msg, "");
    assert!(chat_line_fits("PRIVMSG #c"));
    assert!(chat_line_fits(""));
}

#[test]
fn chat_reader_blanks_name_without_message() {
    let mut reader = ChatReader::new();
    let m = reader.read_line(":alice!alice@alice.tmi.twitch.tv PRIVMSG #c :1", "#c");
    assert_eq!(m, Some(("1".to_string(), true)));
    assert_eq!(reader.chatter_name, "alice");
    // A message line naming no one keeps the last name.
    let m = reader.read_line("someone PRIVMSG #c :3", "#c");
    assert_eq!(m, Some(("3".to_string(), true)));
    assert_eq!(reader.chatter_name, "alice");
    // PING changes nothing.
    let m = reader.read_line("PING :tmi.twitch.tv", "#c");
    assert_eq!(m, None);
    assert_eq!(reader.chatter_name, "alice");
    // Any other line carries no chat message: message and name are blank.
    let m = reader.read_line(":tmi.twitch.tv 001 bruh :hello", "#c");
    assert_eq!(m, Some((String::new(), false)));
    assert_eq!(reader.chatter_name, "");
    // So is a line that could not be read.
    reader.read_line(":bob!bob@bob.tmi.twitch.tv PRIVMSG #c :2", "#c");
    assert_eq!(reader.chatter_name, "bob");
    assert_eq!(reader.unreadable_line(), "");
    assert_eq!(reader.chatter_name, "");
}

#[test]
fn login_lines() {
    let channel = irc_channel("faultypine");
    assert_eq!(channel, "#faultypine");
    let lines = login_commands("oauth:abc", &channel);
    assert_eq!(
        lines,
        vec![
            "PASS oauth:abc\r\n".to_string(),
            "NICK bruh\r\n".to_string(),
            "JOIN #faultypine\r\n".to_string()
        ]
    );
}
