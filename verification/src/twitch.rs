//! Reading the chat: what each IRC line from the chat server means, and the
//! lines sent to log in.
//!
//! A chat message arrives as a line such as
//! `:name!name@name.tmi.twitch.tv PRIVMSG #channel :the message`.
//! Positions are found as UTF-8 byte offsets and then used as character
//! counts; on ASCII lines the two agree.
use vstd::prelude::*;
use vstd::string::*;

use crate::utils::{
    byte_offset, chars_of, find_index, first_occurrence, last_occurrence, lemma_occurrence_in_range,
    lemma_utf8_append, matches_at, occurs_at, rfind_index, spec_substring, utf8_len, utf8_len_of,
    byte_offset_of, lemma_byte_offset_bounds, spec_slice, SliceBound, StringUtils,
};

verus! {

/// Whether the line is a keep-alive request from the server.
pub open spec fn is_ping(line: Seq<char>) -> bool {
    occurs_at(line, "PING"@, 0)
}

/// Whether the line carries a chat message.
pub open spec fn is_privmsg(line: Seq<char>) -> bool {
    first_occurrence(line, "PRIVMSG"@) is Some
}

/// Byte offset of the host part that follows the chatter's name, if any.
pub open spec fn name_end(line: Seq<char>) -> Option<int> {
    match first_occurrence(line, ".tmi.twitch.tv"@) {
        Some(ci) => Some(byte_offset(line, ci) as int),
        None => None,
    }
}

/// Byte offset of the `@` that precedes the chatter's name, within the
/// first `end` characters of the line (0 when there is none).
pub open spec fn name_start(line: Seq<char>, end: int) -> int {
    let prefix = spec_slice(line, 0, end);
    match last_occurrence(prefix, "@"@) {
        Some(k) => byte_offset(prefix, k) as int,
        None => 0,
    }
}

/// Position where the message text begins: two past the end of the first
/// mention of the channel, or 0.
pub open spec fn message_begin(line: Seq<char>, channel: Seq<char>) -> int {
    match first_occurrence(line, channel) {
        Some(ci) => (byte_offset(line, ci) + channel.len() + 2) as int,
        None => 0,
    }
}

/// The line's UTF-8 length leaves room for the positions computed on it
/// (a string never comes near `usize::MAX` bytes).
pub open spec fn spec_chat_line_fits(line: Seq<char>) -> bool {
    utf8_len(line) + 2 <= usize::MAX
}

/// The meaning of one line from the chat server.
pub enum ChatLine {
    /// A keep-alive request, to be answered with `PONG`.
    Ping,
    /// A chat message; the chatter's name, when the line names one.
    Privmsg { chatter: Option<String>, message: String },
    /// Any other line.
    Other,
}

/// [`ChatLine`] with its texts as character sequences.
pub enum ChatLineView {
    Ping,
    Privmsg { chatter: Option<Seq<char>>, message: Seq<char> },
    Other,
}

impl View for ChatLine {
    type V = ChatLineView;

    open spec fn view(&self) -> ChatLineView {
        match self {
            ChatLine::Ping => ChatLineView::Ping,
            ChatLine::Privmsg { chatter, message } => ChatLineView::Privmsg {
                chatter: match chatter {
                    Some(c) => Some(c@),
                    None => None,
                },
                message: message@,
            },
            ChatLine::Other => ChatLineView::Other,
        }
    }
}

/// What a line means.
pub open spec fn spec_parse_chat_line(line: Seq<char>, channel: Seq<char>) -> ChatLineView {
    if is_ping(line) {
        ChatLineView::Ping
    } else if is_privmsg(line) {
        let begin = message_begin(line, channel);
        ChatLineView::Privmsg {
            chatter: match name_end(line) {
                Some(e) => Some(spec_slice(line, name_start(line, e) + 1, e)),
                None => None,
            },
            message: spec_slice(line, begin, utf8_len(line) as int),
        }
    } else {
        ChatLineView::Other
    }
}

proof fn lemma_utf8_len_subrange(s: Seq<char>, a: int, b: int)
    requires
        0 <= a <= b <= s.len(),
    ensures
        utf8_len(s.subrange(a, b)) <= utf8_len(s),
{
    assert(s =~= s.subrange(0, a) + (s.subrange(a, b) + s.subrange(b, s.len() as int)));
    lemma_utf8_append(s.subrange(0, a), s.subrange(a, b) + s.subrange(b, s.len() as int));
    lemma_utf8_append(s.subrange(a, b), s.subrange(b, s.len() as int));
}

/// Shared first steps of reading a line: its characters, and the byte
/// offset where the chatter's name ends, if the line names one.
fn line_name_end(chars: &Vec<char>) -> (r: Option<usize>)
    requires
        utf8_len(chars@) <= usize::MAX,
    ensures
        match r {
            Some(e) => name_end(chars@) == Some(e as int) && e <= utf8_len(chars@),
            None => name_end(chars@) is None,
        },
{
    let host = chars_of(".tmi.twitch.tv");
    match find_index(chars, &host) {
        Some(ci) => {
            proof {
                lemma_occurrence_in_range(chars@, host@);
                lemma_byte_offset_bounds(chars@, ci as int);
            }
            Some(byte_offset_of(chars, ci))
        },
        None => None,
    }
}

fn line_name_start(line: &str, end: usize) -> (r: usize)
    requires
        utf8_len(line@) <= usize::MAX,
    ensures
        r == name_start(line@, end as int),
        r <= utf8_len(line@),
{
    let prefix = line.slice(SliceBound::Unbounded, SliceBound::Excluded(end));
    let pchars = chars_of(prefix);
    proof {
        let s = line@;
        if end > 0 {
            let to = if (end as int) < s.len() { end as int } else { s.len() as int };
            lemma_utf8_len_subrange(s, 0, to);
        } else {
            assert(utf8_len(pchars@) == 0) by {
                assert(pchars@ =~= Seq::<char>::empty());
            }
        }
    }
    let at = chars_of("@");
    match rfind_index(&pchars, &at) {
        Some(k) => {
            proof {
                lemma_occurrence_in_range(pchars@, at@);
            }
            proof {
                lemma_byte_offset_bounds(pchars@, k as int);
            }
            byte_offset_of(&pchars, k)
        },
        None => 0,
    }
}

/// Returns the start of the message.
fn line_message_begin(chars: &Vec<char>, channel: &str) -> (r: usize)
    requires
        spec_chat_line_fits(chars@),
    ensures
        message_begin(chars@, channel@) == r,
{
    let chan = chars_of(channel);
    match find_index(chars, &chan) {
        Some(ci) => {
            proof {
                lemma_occurrence_in_range(chars@, chan@);
                lemma_occurrence_bytes(chars@, chan@, ci as int);
            }
            let b = byte_offset_of(chars, ci);
            b + chan.len() + 2
        },
        None => 0,
    }
}

/// The bytes before an occurrence of `pat`, plus the characters of `pat`,
/// fit in the text.
proof fn lemma_occurrence_bytes(s: Seq<char>, pat: Seq<char>, i: int)
    requires
        occurs_at(s, pat, i),
    ensures
        byte_offset(s, i) + pat.len() <= utf8_len(s),
{
    assert(s.take(i + pat.len()) =~= s.take(i) + pat);
    lemma_utf8_append(s.take(i), pat);
    lemma_byte_offset_bounds(pat, pat.len() as int);
    assert(pat.take(pat.len() as int) =~= pat);
    lemma_byte_offset_bounds(s, i + pat.len());
}

fn line_flags(chars: &Vec<char>) -> (r: (bool, bool))
    ensures
        r.0 == is_ping(chars@),
        r.1 == is_privmsg(chars@),
{
    let ping = chars_of("PING");
    let is_ping = ping.len() <= chars.len() && matches_at(chars, &ping, 0);
    let privmsg = chars_of("PRIVMSG");
    let is_privmsg = find_index(chars, &privmsg).is_some();
    (is_ping, is_privmsg)
}

/// Whether the line is short enough for [`parse_chat_line`] (see
/// [`spec_chat_line_fits`]).
pub fn chat_line_fits(line: &str) -> (r: bool)
    ensures
        r == spec_chat_line_fits(line@),
{
    let chars = chars_of(line);
    match utf8_len_of(&chars) {
        Some(t) => t <= usize::MAX - 2,
        None => false,
    }
}

/// Takes a line from the chat server apart. `channel` is the channel as it
/// appears on the line, `#` included.
pub fn parse_chat_line(line: &str, channel: &str) -> (r: ChatLine)
    requires
        spec_chat_line_fits(line@),
    ensures
        r@ == spec_parse_chat_line(line@, channel@),
{
    let chars = chars_of(line);
    let (ping, privmsg) = line_flags(&chars);
    if ping {
        return ChatLine::Ping;
    }
    if !privmsg {
        return ChatLine::Other;
    }
    let chatter = match line_name_end(&chars) {
        Some(e) => {
            let s = line_name_start(line, e);
            let name = line.slice(SliceBound::Included(s + 1), SliceBound::Excluded(e));
            Some(String::from_str(name))
        },
        None => None,
    };
    let begin = line_message_begin(&chars, channel);
    let message = line.slice(SliceBound::Included(begin), SliceBound::Unbounded);
    ChatLine::Privmsg { chatter, message: String::from_str(message) }
}

/// The chat reader's memory: the chatter name to hand to the vote counter
/// with each line. A chat message line sets it to the name it carries (a
/// message line naming no one keeps the previous name); any other line
/// blanks it, as no chat message came in.
pub struct ChatReader {
    pub chatter_name: String,
}

impl ChatReader {
    pub fn new() -> (r: ChatReader)
        ensures
            r.chatter_name@ == Seq::<char>::empty(),
    {
        ChatReader { chatter_name: String::new() }
    }

    /// Reads one line. `None` asks for a `PONG` reply and no vote update;
    /// otherwise the message to hand to the vote counter (empty for lines
    /// that carry none) and whether the line was a chat message, with
    /// `chatter_name` updated.
    pub fn read_line(&mut self, line: &str, channel: &str) -> (r: Option<(String, bool)>)
        requires
            spec_chat_line_fits(line@),
        ensures
            match spec_parse_chat_line(line@, channel@) {
                ChatLineView::Ping => r is None && final(self).chatter_name@ == old(
                    self,
                ).chatter_name@,
                ChatLineView::Other => r matches Some((m, is_msg)) && m@ == Seq::<char>::empty()
                    && !is_msg && final(self).chatter_name@ == Seq::<char>::empty(),
                ChatLineView::Privmsg { chatter, message } => r matches Some((m, is_msg)) && m@
                    == message && is_msg && final(self).chatter_name@ == (match chatter {
                    Some(c) => c,
                    None => old(self).chatter_name@,
                }),
            },
    {
        match parse_chat_line(line, channel) {
            ChatLine::Ping => None,
            ChatLine::Other => {
                self.chatter_name = String::new();
                Some((String::new(), false))
            },
            ChatLine::Privmsg { chatter, message } => {
                match chatter {
                    Some(c) => {
                        self.chatter_name = c;
                    },
                    None => {},
                }
                Some((message, true))
            },
        }
    }

    /// A line that could not be read: no chat message came in, so the name
    /// is blanked. Returns the (empty) message to hand to the vote counter.
    pub fn unreadable_line(&mut self) -> (r: String)
        ensures
            r@ == Seq::<char>::empty(),
            final(self).chatter_name@ == Seq::<char>::empty(),
    {
        self.chatter_name = String::new();
        String::new()
    }
}

/// The channel as written on the chat server: `#` and the channel name.
pub fn irc_channel(channel: &str) -> (r: String)
    ensures
        r@ == "#"@ + channel@,
{
    let mut r = String::from_str("#");
    r.append(channel);
    r
}

/// The lines sent after connecting: the token, a nickname, and the channel
/// to join, each ended by CR LF.
pub fn login_commands(oauth: &str, irc_channel: &str) -> (r: Vec<String>)
    ensures
        r@.len() == 3,
        r@[0]@ == "PASS "@ + oauth@ + "\r\n"@,
        r@[1]@ == "NICK bruh\r\n"@,
        r@[2]@ == "JOIN "@ + irc_channel@ + "\r\n"@,
{
    let mut pass = String::from_str("PASS ");
    pass.append(oauth);
    pass.append("\r\n");
    let nick = String::from_str("NICK bruh\r\n");
    let mut join = String::from_str("JOIN ");
    join.append(irc_channel);
    join.append("\r\n");
    let mut r: Vec<String> = Vec::new();
    r.push(pass);
    r.push(nick);
    r.push(join);
    r
}

} // verus!
