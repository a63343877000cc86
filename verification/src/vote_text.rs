//! Reading a chat message as a vote: the message is lowercased, trimmed of
//! white space and read as a decimal number.
use vstd::prelude::*;

verus! {

/// Unicode white space (the `White_Space` property that `char::is_whitespace`
/// tests).
pub open spec fn is_white_space(c: char) -> bool {
    let u = c as u32;
    ||| 0x09 <= u <= 0x0D
    ||| u == 0x20
    ||| u == 0x85
    ||| u == 0xA0
    ||| u == 0x1680
    ||| 0x2000 <= u <= 0x200A
    ||| u == 0x2028
    ||| u == 0x2029
    ||| u == 0x202F
    ||| u == 0x205F
    ||| u == 0x3000
}

/// `s` without its leading white space.
pub open spec fn trim_start(s: Seq<char>) -> Seq<char>
    decreases s.len(),
{
    if s.len() > 0 && is_white_space(s[0]) {
        trim_start(s.drop_first())
    } else {
        s
    }
}

/// `s` without its trailing white space.
pub open spec fn trim_end(s: Seq<char>) -> Seq<char>
    decreases s.len(),
{
    if s.len() > 0 && is_white_space(s.last()) {
        trim_end(s.drop_last())
    } else {
        s
    }
}

/// `s` without leading and trailing white space.
pub open spec fn trim(s: Seq<char>) -> Seq<char> {
    trim_end(trim_start(s))
}

pub open spec fn is_decimal_digit(c: char) -> bool {
    '0' <= c <= '9'
}

/// The value of a string of decimal digits.
pub open spec fn decimal_value(s: Seq<char>) -> nat
    decreases s.len(),
{
    if s.len() == 0 {
        0
    } else {
        decimal_value(s.drop_last()) * 10 + (s.last() as u32 - '0' as u32) as nat
    }
}

/// How `usize`'s `from_str` reads `s`: an optional `+`, then one or more
/// decimal digits whose value fits in `usize`.
pub open spec fn spec_parse_usize(s: Seq<char>) -> Option<usize> {
    let digits = if s.len() > 0 && s[0] == '+' {
        s.drop_first()
    } else {
        s
    };
    parse_digits(digits)
}

/// The value of a non-empty string of decimal digits that fits in `usize`.
pub open spec fn parse_digits(digits: Seq<char>) -> Option<usize> {
    if digits.len() == 0 {
        None
    } else if exists|i: int| 0 <= i < digits.len() && !is_decimal_digit(#[trigger] digits[i]) {
        None
    } else if decimal_value(digits) > usize::MAX {
        None
    } else {
        Some(decimal_value(digits) as usize)
    }
}

/// The number a (lowercased) message votes for, if it is one.
pub open spec fn spec_parse_vote(lowered: Seq<char>) -> Option<usize> {
    spec_parse_usize(trim(lowered))
}

fn white_space(c: char) -> (r: bool)
    ensures
        r == is_white_space(c),
{
    let u = c as u32;
    (0x09 <= u && u <= 0x0D) || u == 0x20 || u == 0x85 || u == 0xA0 || u == 0x1680 || (0x2000
        <= u && u <= 0x200A) || u == 0x2028 || u == 0x2029 || u == 0x202F || u == 0x205F || u
        == 0x3000
}

proof fn lemma_trim_start_skip(s: Seq<char>, i: int)
    requires
        0 <= i <= s.len(),
        forall|k: int| 0 <= k < i ==> is_white_space(#[trigger] s[k]),
    ensures
        trim_start(s) == trim_start(s.skip(i)),
    decreases i,
{
    if i > 0 {
        assert(s.skip(1) =~= s.drop_first());
        lemma_trim_start_skip(s.drop_first(), i - 1);
        assert(s.drop_first().skip(i - 1) =~= s.skip(i));
    } else {
        assert(s.skip(0) =~= s);
    }
}

proof fn lemma_trim_end_take(s: Seq<char>, j: int)
    requires
        0 <= j <= s.len(),
        forall|k: int| j <= k < s.len() ==> is_white_space(#[trigger] s[k]),
    ensures
        trim_end(s) == trim_end(s.take(j)),
    decreases s.len() - j,
{
    if j < s.len() {
        assert(s.take(s.len() - 1) =~= s.drop_last());
        lemma_trim_end_take(s.drop_last(), j);
        assert(s.drop_last().take(j) =~= s.take(j));
    } else {
        assert(s.take(j) =~= s);
    }
}

proof fn lemma_trim_start_shape(s: Seq<char>)
    ensures
        trim_start(s).len() == 0 || !is_white_space(trim_start(s)[0]),
    decreases s.len(),
{
    if s.len() > 0 && is_white_space(s[0]) {
        lemma_trim_start_shape(s.drop_first());
    }
}

proof fn lemma_trim_end_shape(s: Seq<char>)
    ensures
        trim_end(s).len() <= s.len(),
        trim_end(s) =~= s.take(trim_end(s).len() as int),
        trim_end(s).len() == 0 || !is_white_space(trim_end(s).last()),
    decreases s.len(),
{
    if s.len() > 0 && is_white_space(s.last()) {
        lemma_trim_end_shape(s.drop_last());
        assert(s.drop_last().take(trim_end(s).len() as int) =~= s.take(trim_end(s).len() as int));
    } else {
        assert(s.take(s.len() as int) =~= s);
    }
}

/// Trimming a trimmed text changes nothing.
pub proof fn lemma_trim_idempotent(s: Seq<char>)
    ensures
        trim(trim(s)) == trim(s),
{
    let u = trim_start(s);
    let t = trim(s);
    lemma_trim_start_shape(s);
    lemma_trim_end_shape(u);
    if t.len() > 0 {
        assert(t[0] == u[0]);
    }
    assert(trim_start(t) == t);
    assert(trim_end(t) == t);
}

proof fn lemma_trim_start_suffix(s: Seq<char>)
    ensures
        trim_start(s).len() <= s.len(),
        trim_start(s) =~= s.skip(s.len() - trim_start(s).len()),
    decreases s.len(),
{
    if s.len() > 0 && is_white_space(s[0]) {
        lemma_trim_start_suffix(s.drop_first());
        assert(s.drop_first().skip(s.drop_first().len() - trim_start(s).len()) =~= s.skip(
            s.len() - trim_start(s).len(),
        ));
    } else {
        assert(s.skip(0) =~= s);
    }
}

/// Every character of `trim(s)` is a character of `s`.
pub proof fn lemma_trim_chars(s: Seq<char>)
    ensures
        forall|i: int|
            0 <= i < trim(s).len() ==> exists|j: int| 0 <= j < s.len() && s[j] == #[trigger] trim(s)[i],
{
    let u = trim_start(s);
    lemma_trim_start_suffix(s);
    lemma_trim_end_shape(u);
    let k = s.len() - u.len();
    assert forall|i: int| 0 <= i < trim(s).len() implies exists|j: int|
        0 <= j < s.len() && s[j] == #[trigger] trim(s)[i] by {
        assert(trim(s)[i] == u[i]);
        assert(u[i] == s[k + i]);
    }
}

/// A lowercased ASCII text, trimmed and lowercased again, reads as the same
/// vote as the lowercased text.
pub proof fn lemma_ascii_lower_trim_vote(msg: Seq<char>)
    requires
        is_ascii_text(msg),
    ensures
        is_ascii_text(trim(ascii_lower(msg))),
        ascii_lower(trim(ascii_lower(msg))) == trim(ascii_lower(msg)),
        spec_parse_vote(ascii_lower(trim(ascii_lower(msg)))) == spec_parse_vote(ascii_lower(msg)),
{
    let l = ascii_lower(msg);
    let t = trim(l);
    assert forall|j: int| 0 <= j < l.len() implies (#[trigger] l[j] as u32) < 128 && !('A' <= l[j]
        && l[j] <= 'Z') by {
        assert((msg[j] as u32) < 128);
    }
    lemma_trim_chars(l);
    assert forall|i: int| 0 <= i < t.len() implies (#[trigger] t[i] as u32) < 128 && !('A' <= t[i]
        && t[i] <= 'Z') by {
        let j = choose|j: int| 0 <= j < l.len() && l[j] == t[i];
        assert((l[j] as u32) < 128);
    }
    assert(ascii_lower(t) =~= t);
    lemma_trim_idempotent(l);
}

/// Reads the number a lowercased message votes for.
pub fn parse_vote_text(lowered: &str) -> (r: Option<usize>)
    ensures
        r == spec_parse_vote(lowered@),
{
    let n = lowered.unicode_len();
    let ghost s = lowered@;
    // Leading white space.
    let mut a: usize = 0;
    while a < n
        invariant
            s == lowered@,
            n == s.len(),
            a <= n,
            forall|k: int| 0 <= k < a ==> is_white_space(#[trigger] s[k]),
        ensures
            a <= n,
            forall|k: int| 0 <= k < a ==> is_white_space(#[trigger] s[k]),
            a < n ==> !is_white_space(s[a as int]),
        decreases n - a,
    {
        if !white_space(lowered.get_char(a)) {
            break;
        }
        a = a + 1;
    }
    proof {
        lemma_trim_start_skip(s, a as int);
    }
    let ghost t = s.skip(a as int);
    // Trailing white space.
    let mut b: usize = n;
    while b > a
        invariant
            s == lowered@,
            n == s.len(),
            a <= b <= n,
            t == s.skip(a as int),
            forall|k: int| b - a <= k < t.len() ==> is_white_space(#[trigger] t[k]),
        ensures
            a <= b <= n,
            forall|k: int| b - a <= k < t.len() ==> is_white_space(#[trigger] t[k]),
            b > a ==> !is_white_space(s[b - 1]),
        decreases b,
    {
        if !white_space(lowered.get_char(b - 1)) {
            break;
        }
        b = b - 1;
    }
    proof {
        assert(trim_start(t) == t) by {
            if t.len() > 0 {
                assert(t[0] == s[a as int]);
            }
        }
        lemma_trim_end_take(t, b - a);
        let u = t.take(b - a);
        assert(trim_end(u) == u) by {
            if u.len() > 0 {
                assert(u.last() == s[b - 1]);
            }
        }
        assert(trim(s) == u);
        assert(forall|k: int| 0 <= k < u.len() ==> u[k] == s[a + k]);
    }
    let ghost u = t.take(b - a);
    // Optional sign.
    let mut i: usize = a;
    if i < b && lowered.get_char(i) == '+' {
        i = i + 1;
    }
    let ghost digits = if u.len() > 0 && u[0] == '+' {
        u.drop_first()
    } else {
        u
    };
    assert(digits.len() == b - i);
    assert(forall|k: int| 0 <= k < digits.len() ==> digits[k] == s[i + k]);
    assert(spec_parse_vote(lowered@) == parse_digits(digits));
    if i == b {
        return None;
    }
    let start = i;
    let mut value: usize = 0;
    while i < b
        invariant
            s == lowered@,
            n == s.len(),
            start <= i <= b <= n,
            digits.len() == b - start,
            digits.len() > 0,
            spec_parse_vote(lowered@) == parse_digits(digits),
            forall|k: int| 0 <= k < digits.len() ==> digits[k] == s[start + k],
            forall|k: int| 0 <= k < i - start ==> is_decimal_digit(#[trigger] digits[k]),
            value == decimal_value(digits.take(i - start)),
        decreases b - i,
    {
        let c = lowered.get_char(i);
        assert(c == digits[i - start]);
        if !('0' <= c && c <= '9') {
            assert(!is_decimal_digit(digits[i - start]));
            return None;
        }
        let d = (c as u32 - '0' as u32) as usize;
        proof {
            let p = digits.take(i - start + 1);
            assert(p.drop_last() =~= digits.take(i - start));
            assert(p.last() == c);
        }
        match value.checked_mul(10) {
            Some(v10) => match v10.checked_add(d) {
                Some(v) => {
                    value = v;
                },
                None => {
                    proof {
                        lemma_decimal_prefix_bound(digits, i - start + 1);
                    }
                    return None;
                },
            },
            None => {
                proof {
                    lemma_decimal_prefix_bound(digits, i - start + 1);
                }
                return None;
            },
        }
        i = i + 1;
    }
    assert(digits.take(b - start) =~= digits);
    Some(value)
}

/// A digit string is worth at least as much as any of its prefixes.
proof fn lemma_decimal_prefix_bound(digits: Seq<char>, j: int)
    requires
        0 <= j <= digits.len(),
    ensures
        decimal_value(digits.take(j)) <= decimal_value(digits),
    decreases digits.len() - j,
{
    if j < digits.len() {
        lemma_decimal_prefix_bound(digits, j + 1);
        let p = digits.take(j + 1);
        assert(p.drop_last() =~= digits.take(j));
    } else {
        assert(digits.take(j) =~= digits);
    }
}

/// Every character is ASCII.
pub open spec fn is_ascii_text(s: Seq<char>) -> bool {
    forall|i: int| 0 <= i < s.len() ==> (#[trigger] s[i] as u32) < 128
}

/// The lowercase of an ASCII character: `A` to `Z` become `a` to `z`, every
/// other character stays.
pub open spec fn ascii_lower_char(c: char) -> char {
    if 'A' <= c && c <= 'Z' {
        ((c as u32) + 32) as char
    } else {
        c
    }
}

/// `s` with every character passed through [`ascii_lower_char`].
pub open spec fn ascii_lower(s: Seq<char>) -> Seq<char> {
    s.map_values(|c: char| ascii_lower_char(c))
}

/// The result of `str::to_lowercase` on `s`.
pub uninterp spec fn lowercase_of(s: Seq<char>) -> Seq<char>;

/// Calls `str::to_lowercase`. The result is named [`lowercase_of`] of the
/// input. The one further claim: on a text of ASCII characters it is
/// [`ascii_lower`] of the text, since Unicode's lowercase mapping, which
/// `to_lowercase` applies to each character, takes `A` to `Z` to `a` to `z`
/// and leaves every other ASCII character as it is. Nothing is claimed of
/// other texts (Unicode case mapping at large is not written out here).
#[verifier::external_body]
fn to_lowercase(s: &str) -> (r: String)
    ensures
        r@ == lowercase_of(s@),
        is_ascii_text(s@) ==> r@ == ascii_lower(s@),
{
    s.to_lowercase()
}

/// The number a chat message votes for: the message lowercased, trimmed and
/// read as a decimal number.
pub fn parse_vote(chat_msg: &str) -> (r: Option<usize>)
    ensures
        r == spec_parse_vote(lowercase_of(chat_msg@)),
        is_ascii_text(chat_msg@) ==> r == spec_parse_vote(ascii_lower(chat_msg@)),
{
    let lowered = to_lowercase(chat_msg);
    parse_vote_text(lowered.as_str())
}

} // verus!
