//! Match-clock arithmetic and the character-based text helpers the chat
//! reader is written with.
use vstd::prelude::*;
use vstd::string::*;
use vstd::utf8::*;

verus! {

/// True once `duration` seconds have gone by since `initial_time`, both read
/// from the match clock, which counts the remaining seconds down; false
/// otherwise, including when the clock reads above `initial_time`.
pub open spec fn spec_is_time_range(initial_time: u32, duration: u32, now: u32) -> bool {
    now <= initial_time && initial_time - now >= duration
}

/// Whether `duration` seconds have elapsed since `initial_time`, where `now`
/// is the current reading of the (decreasing) remaining-time clock.
pub fn is_time_range(initial_time: u32, duration: u32, now: u32) -> (r: bool)
    ensures
        r == spec_is_time_range(initial_time, duration, now),
{
    now <= initial_time && initial_time - now >= duration
}

// ---------------------------------------------------------------------------
// UTF-8 byte offsets of character positions
// ---------------------------------------------------------------------------

/// Number of bytes in the UTF-8 encoding of `s`.
pub open spec fn utf8_len(s: Seq<char>) -> nat {
    encode_utf8(s).len()
}

/// Byte offset, in the UTF-8 encoding of `s`, of the character at index `i`.
pub open spec fn byte_offset(s: Seq<char>, i: int) -> nat {
    utf8_len(s.take(i))
}

proof fn lemma_encode_utf8_append(a: Seq<char>, b: Seq<char>)
    ensures
        encode_utf8(a + b) == encode_utf8(a) + encode_utf8(b),
    decreases a.len(),
{
    if a.len() == 0 {
        assert(a + b =~= b);
        assert(encode_utf8(a) =~= Seq::<u8>::empty());
        assert(encode_utf8(a) + encode_utf8(b) =~= encode_utf8(b));
    } else {
        assert((a + b).drop_first() =~= a.drop_first() + b);
        assert((a + b)[0] == a[0]);
        lemma_encode_utf8_append(a.drop_first(), b);
        assert(encode_utf8(a + b) =~= encode_scalar(a[0] as u32) + encode_utf8(a.drop_first() + b));
        assert(encode_utf8(a + b) =~= encode_utf8(a) + encode_utf8(b));
    }
}

/// UTF-8 length is additive over concatenation.
pub proof fn lemma_utf8_append(a: Seq<char>, b: Seq<char>)
    ensures
        utf8_len(a + b) == utf8_len(a) + utf8_len(b),
{
    lemma_encode_utf8_append(a, b);
}

proof fn lemma_byte_offset_step(s: Seq<char>, i: int)
    requires
        0 <= i < s.len(),
    ensures
        byte_offset(s, i + 1) == byte_offset(s, i) + encode_scalar(s[i] as u32).len(),
{
    assert(s.take(i + 1) =~= s.take(i) + seq![s[i]]);
    lemma_encode_utf8_append(s.take(i), seq![s[i]]);
    let t = seq![s[i]];
    assert(t.drop_first() =~= Seq::<char>::empty());
    assert(encode_utf8(t.drop_first()) =~= Seq::<u8>::empty());
    assert(t[0] == s[i]);
    assert(encode_utf8(t) == encode_scalar(t[0] as u32) + encode_utf8(t.drop_first()));
    assert(encode_utf8(t) =~= encode_scalar(s[i] as u32));
}

/// Every character takes one to four bytes.
pub proof fn lemma_byte_offset_bounds(s: Seq<char>, i: int)
    requires
        0 <= i <= s.len(),
    ensures
        i <= byte_offset(s, i) <= 4 * i,
        byte_offset(s, i) <= utf8_len(s),
    decreases i,
{
    if i == 0 {
        assert(s.take(0) =~= Seq::<char>::empty());
    } else {
        lemma_byte_offset_bounds(s, i - 1);
        lemma_byte_offset_step(s, i - 1);
    }
    if i == s.len() {
        assert(s.take(i) =~= s);
    } else {
        assert(s =~= s.take(i) + s.skip(i));
        lemma_encode_utf8_append(s.take(i), s.skip(i));
    }
}

/// Byte length of the UTF-8 encoding of one character.
fn char_width(c: char) -> (w: usize)
    ensures
        w == encode_scalar(c as u32).len(),
        1 <= w <= 4,
{
    proof {
        char_is_scalar(c);
    }
    let u = c as u32;
    if u < 0x80 {
        1
    } else if u < 0x800 {
        2
    } else if u < 0x10000 {
        3
    } else {
        4
    }
}

/// The characters of `s`, in order.
pub fn chars_of(s: &str) -> (v: Vec<char>)
    ensures
        v@ == s@,
{
    let n = s.unicode_len();
    let mut v: Vec<char> = Vec::new();
    let mut i: usize = 0;
    while i < n
        invariant
            n == s@.len(),
            i <= n,
            v@ == s@.take(i as int),
        decreases n - i,
    {
        v.push(s.get_char(i));
        i = i + 1;
        assert(v@ =~= s@.take(i as int));
    }
    assert(v@ =~= s@);
    v
}

/// Byte offset of character index `i` in `s`.
pub fn byte_offset_of(s: &Vec<char>, i: usize) -> (b: usize)
    requires
        i <= s@.len(),
        utf8_len(s@) <= usize::MAX,
    ensures
        b == byte_offset(s@, i as int),
{
    let mut k: usize = 0;
    let mut b: usize = 0;
    proof {
        assert(s@.take(0) =~= Seq::<char>::empty());
    }
    while k < i
        invariant
            i <= s@.len(),
            utf8_len(s@) <= usize::MAX,
            k <= i,
            b == byte_offset(s@, k as int),
        decreases i - k,
    {
        let w = char_width(s[k]);
        proof {
            lemma_byte_offset_step(s@, k as int);
            lemma_byte_offset_bounds(s@, k + 1);
        }
        b = b + w;
        k = k + 1;
    }
    b
}

/// Byte length of the UTF-8 encoding of `s`.
pub fn utf8_len_of(s: &Vec<char>) -> (b: Option<usize>)
    ensures
        match b {
            Some(n) => n == utf8_len(s@),
            None => utf8_len(s@) > usize::MAX,
        },
{
    let mut k: usize = 0;
    let mut b: usize = 0;
    proof {
        assert(s@.take(0) =~= Seq::<char>::empty());
    }
    while k < s.len()
        invariant
            k <= s@.len(),
            b == byte_offset(s@, k as int),
        decreases s@.len() - k,
    {
        let w = char_width(s[k]);
        proof {
            lemma_byte_offset_step(s@, k as int);
            lemma_byte_offset_bounds(s@, k + 1);
        }
        if b > usize::MAX - w {
            proof {
                lemma_byte_offset_bounds(s@, k + 1);
            }
            return None;
        }
        b = b + w;
        k = k + 1;
    }
    proof {
        assert(s@.take(s@.len() as int) =~= s@);
    }
    Some(b)
}

// ---------------------------------------------------------------------------
// Searching
// ---------------------------------------------------------------------------

/// `pat` occurs in `s` starting at character index `i`.
pub open spec fn occurs_at(s: Seq<char>, pat: Seq<char>, i: int) -> bool {
    &&& 0 <= i
    &&& i + pat.len() <= s.len()
    &&& s.subrange(i, i + pat.len()) == pat
}

/// First character index, at or after `i`, where `pat` occurs in `s`.
pub open spec fn find_from(s: Seq<char>, pat: Seq<char>, i: int) -> Option<int>
    decreases s.len() + 1 - i,
{
    if i < 0 || i + pat.len() > s.len() {
        None
    } else if occurs_at(s, pat, i) {
        Some(i)
    } else {
        find_from(s, pat, i + 1)
    }
}

/// First character index where `pat` occurs in `s`.
pub open spec fn first_occurrence(s: Seq<char>, pat: Seq<char>) -> Option<int> {
    find_from(s, pat, 0)
}

/// Last character index, below `k`, where `pat` occurs in `s`.
pub open spec fn last_before(s: Seq<char>, pat: Seq<char>, k: nat) -> Option<int>
    decreases k,
{
    if k == 0 {
        None
    } else if occurs_at(s, pat, k - 1) {
        Some(k - 1)
    } else {
        last_before(s, pat, (k - 1) as nat)
    }
}

/// Last character index where `pat` occurs in `s`.
pub open spec fn last_occurrence(s: Seq<char>, pat: Seq<char>) -> Option<int> {
    if pat.len() > s.len() {
        None
    } else {
        last_before(s, pat, (s.len() - pat.len() + 1) as nat)
    }
}

proof fn lemma_find_from_found(s: Seq<char>, pat: Seq<char>, i: int)
    ensures
        find_from(s, pat, i) matches Some(j) ==> i <= j && occurs_at(s, pat, j),
    decreases s.len() + 1 - i,
{
    if i < 0 || i + pat.len() > s.len() {
    } else if occurs_at(s, pat, i) {
    } else {
        lemma_find_from_found(s, pat, i + 1);
    }
}

proof fn lemma_last_before_found(s: Seq<char>, pat: Seq<char>, k: nat)
    ensures
        last_before(s, pat, k) matches Some(j) ==> 0 <= j < k && occurs_at(s, pat, j),
    decreases k,
{
    if k == 0 {
    } else if occurs_at(s, pat, k - 1) {
    } else {
        lemma_last_before_found(s, pat, (k - 1) as nat);
    }
}

/// Facts about a found occurrence: it lies inside `s`.
pub proof fn lemma_occurrence_in_range(s: Seq<char>, pat: Seq<char>)
    ensures
        first_occurrence(s, pat) matches Some(j) ==> occurs_at(s, pat, j),
        last_occurrence(s, pat) matches Some(j) ==> occurs_at(s, pat, j),
{
    lemma_find_from_found(s, pat, 0);
    if pat.len() <= s.len() {
        lemma_last_before_found(s, pat, (s.len() - pat.len() + 1) as nat);
    }
}

/// Whether `pat` occurs in `s` at character index `i`.
pub fn matches_at(s: &Vec<char>, pat: &Vec<char>, i: usize) -> (r: bool)
    requires
        i + pat@.len() <= s@.len(),
    ensures
        r == occurs_at(s@, pat@, i as int),
{
    let n = s.len();
    let mut k: usize = 0;
    while k < pat.len()
        invariant
            n == s@.len(),
            i + pat@.len() <= s@.len(),
            k <= pat@.len(),
            forall|j: int| 0 <= j < k ==> s@[i + j] == pat@[j],
        decreases pat@.len() - k,
    {
        if s[i + k] != pat[k] {
            proof {
                assert(s@.subrange(i as int, i + pat@.len())[k as int] != pat@[k as int]);
            }
            return false;
        }
        k = k + 1;
    }
    assert(s@.subrange(i as int, i + pat@.len()) =~= pat@);
    true
}

/// Character index of the first occurrence of `pat` in `s`.
pub fn find_index(s: &Vec<char>, pat: &Vec<char>) -> (r: Option<usize>)
    ensures
        match r {
            Some(i) => first_occurrence(s@, pat@) == Some(i as int),
            None => first_occurrence(s@, pat@) is None,
        },
{
    if pat.len() > s.len() {
        return None;
    }
    let last = s.len() - pat.len();
    let mut i: usize = 0;
    loop
        invariant
            last == s@.len() - pat@.len(),
            i <= last,
            find_from(s@, pat@, 0) == find_from(s@, pat@, i as int),
        decreases last - i,
    {
        if matches_at(s, pat, i) {
            return Some(i);
        }
        if i == last {
            proof {
                assert(find_from(s@, pat@, i + 1) is None);
            }
            return None;
        }
        i = i + 1;
    }
}

/// Character index of the last occurrence of `pat` in `s`.
pub fn rfind_index(s: &Vec<char>, pat: &Vec<char>) -> (r: Option<usize>)
    ensures
        match r {
            Some(i) => last_occurrence(s@, pat@) == Some(i as int),
            None => last_occurrence(s@, pat@) is None,
        },
{
    if pat.len() > s.len() {
        return None;
    }
    let mut k: usize = s.len() - pat.len();
    loop
        invariant
            pat@.len() <= s@.len(),
            k <= s@.len() - pat@.len(),
            last_occurrence(s@, pat@) == last_before(s@, pat@, (k + 1) as nat),
        decreases k,
    {
        if matches_at(s, pat, k) {
            return Some(k);
        }
        if k == 0 {
            proof {
                assert(last_before(s@, pat@, 1) == last_before(s@, pat@, 0));
            }
            return None;
        }
        k = k - 1;
    }
}

// ---------------------------------------------------------------------------
// Character-indexed substrings
// ---------------------------------------------------------------------------

/// The characters of `s` from index `start` (clamped to the end), at most `len` of them.
pub open spec fn spec_substring(s: Seq<char>, start: int, len: int) -> Seq<char> {
    let from = if start < s.len() { start } else { s.len() as int };
    let to = if len < s.len() - from { from + len } else { s.len() as int };
    s.subrange(from, to)
}

/// One end of a range handed to [`StringUtils::slice`].
#[derive(Clone, Copy, Debug)]
pub enum SliceBound {
    Included(usize),
    Excluded(usize),
    Unbounded,
}

/// Character index at which [`StringUtils::slice`] starts. An excluded start
/// bound starts at the bound itself, as an included one does.
pub open spec fn slice_start(start: SliceBound) -> int {
    match start {
        SliceBound::Included(b) => b as int,
        SliceBound::Excluded(b) => b as int,
        SliceBound::Unbounded => 0,
    }
}

/// The end position of [`StringUtils::slice`]; an unbounded end is the byte
/// length of the text.
pub open spec fn slice_end(end: SliceBound, byte_len: nat) -> int {
    match end {
        SliceBound::Included(b) => b + 1,
        SliceBound::Excluded(b) => b as int,
        SliceBound::Unbounded => byte_len as int,
    }
}

/// The characters of `text` between character positions `start` and `end`
/// (clamped to the text); empty when `end` is not past `start`.
pub open spec fn spec_slice(text: Seq<char>, start: int, end: int) -> Seq<char> {
    if end <= start {
        Seq::empty()
    } else {
        spec_substring(text, start, end - start)
    }
}

/// Character-indexed substrings, whatever the byte widths of the characters.
pub trait StringUtils {
    /// The characters of the text.
    spec fn text(&self) -> Seq<char>;

    /// Byte length of the text's UTF-8 encoding.
    spec fn byte_len(&self) -> nat;

    /// Up to `len` characters starting at character `start`; empty when
    /// `start` is past the end.
    fn substring(&self, start: usize, len: usize) -> (r: &str)
        ensures
            r@ == spec_substring(self.text(), start as int, len as int),
    ;

    /// The characters between the two bounds, read as character positions;
    /// an unbounded end stands for the byte length of the text. Bounds out
    /// of order or past the end give an empty or shorter text, never a crash.
    fn slice(&self, start: SliceBound, end: SliceBound) -> (r: &str)
        ensures
            r@ == spec_slice(self.text(), slice_start(start), slice_end(end, self.byte_len())),
    ;
}

impl StringUtils for str {
    open spec fn text(&self) -> Seq<char> {
        self@
    }

    open spec fn byte_len(&self) -> nat {
        utf8_len(self@)
    }

    fn substring(&self, start: usize, len: usize) -> (r: &str) {
        let n = self.unicode_len();
        let from = if start < n {
            start
        } else {
            n
        };
        let to = if len < n - from {
            from + len
        } else {
            n
        };
        self.substring_char(from, to)
    }

    fn slice(&self, start: SliceBound, end: SliceBound) -> (r: &str) {
        let s = match start {
            SliceBound::Included(b) => b,
            SliceBound::Excluded(b) => b,
            SliceBound::Unbounded => 0,
        };
        // The length `end - start`; an included end of `usize::MAX` takes
        // every character after the start.
        let len = match end {
            SliceBound::Included(b) => {
                if b < s {
                    0
                } else if b - s == usize::MAX {
                    usize::MAX
                } else {
                    b - s + 1
                }
            },
            SliceBound::Excluded(b) => {
                if b <= s {
                    0
                } else {
                    b - s
                }
            },
            SliceBound::Unbounded => {
                let chars = chars_of(self);
                match utf8_len_of(&chars) {
                    Some(n) => {
                        if n <= s {
                            0
                        } else {
                            n - s
                        }
                    },
                    None => usize::MAX,
                }
            },
        };
        if len == 0 {
            let empty = self.substring(0, 0);
            assert(empty@ =~= Seq::<char>::empty());
            return empty;
        }
        let n = self.unicode_len();
        proof {
            lemma_byte_offset_bounds(self@, self@.len() as int);
            assert(self@.take(self@.len() as int) =~= self@);
            assert(n <= usize::MAX);
        }
        self.substring(s, len)
    }
}

} // verus!
