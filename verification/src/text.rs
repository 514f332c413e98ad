//! Text as the library sees it: a sequence of characters whose positions are
//! byte offsets into its UTF-8 encoding.

use vstd::prelude::*;
use vstd::string::*;
use vstd::utf8::*;

verus! {

broadcast use vstd::utf8::group_utf8_lib;

/// The UTF-8 encoding of a text.
pub open spec fn text_bytes(text: Seq<char>) -> Seq<u8> {
    encode_utf8(text)
}

/// A byte span that can be cut out of `text`: ordered, inside the text, and
/// with both ends on character boundaries.
pub open spec fn span_in_text(text: Seq<char>, start: int, end: int) -> bool {
    &&& 0 <= start <= end <= text_bytes(text).len()
    &&& is_char_boundary(text_bytes(text), start)
    &&& is_char_boundary(text_bytes(text), end)
}

/// The characters that the bytes `start..end` of `text` encode.
pub open spec fn span_value(text: Seq<char>, start: int, end: int) -> Seq<char> {
    decode_utf8(text_bytes(text).subrange(start, end))
}

/// A character boundary of a text is also one of every prefix that reaches it.
pub proof fn lemma_boundary_in_prefix(bytes: Seq<u8>, start: int, end: int)
    requires
        valid_utf8(bytes),
        0 <= start <= end <= bytes.len(),
        is_char_boundary(bytes, start),
        is_char_boundary(bytes, end),
    ensures
        valid_utf8(bytes.subrange(0, end)),
        is_char_boundary(bytes.subrange(0, end), start),
{
    let head = bytes.subrange(0, end);
    valid_utf8_split(bytes, end);
    if start < end {
        is_char_boundary_iff_not_is_continuation_byte(bytes, start);
        is_char_boundary_iff_not_is_continuation_byte(head, start);
    } else {
        is_char_boundary_start_end_of_seq(head);
    }
}

/// The part of a text between two character boundaries is valid UTF-8, and
/// encoding its characters gives back exactly those bytes.
pub proof fn lemma_span_value_bytes(text: Seq<char>, start: int, end: int)
    requires
        span_in_text(text, start, end),
    ensures
        valid_utf8(text_bytes(text).subrange(start, end)),
        text_bytes(span_value(text, start, end)) == text_bytes(text).subrange(start, end),
{
    let bytes = text_bytes(text);
    lemma_boundary_in_prefix(bytes, start, end);
    let head = bytes.subrange(0, end);
    valid_utf8_split(head, start);
    assert(head.subrange(start, head.len() as int) =~= bytes.subrange(start, end));
    decode_utf8_encode_utf8(bytes.subrange(start, end));
}

/// A character boundary of a text is also one of every span that holds it.
pub proof fn lemma_boundary_in_span(text: Seq<char>, start: int, mid: int, end: int)
    requires
        span_in_text(text, start, mid),
        span_in_text(text, mid, end),
    ensures
        valid_utf8(text_bytes(text).subrange(start, end)),
        is_char_boundary(text_bytes(text).subrange(start, end), mid - start),
{
    let bytes = text_bytes(text);
    let part = bytes.subrange(start, end);
    lemma_span_value_bytes(text, start, end);
    if mid < end {
        is_char_boundary_iff_not_is_continuation_byte(bytes, mid);
        is_char_boundary_iff_not_is_continuation_byte(part, mid - start);
    } else {
        is_char_boundary_start_end_of_seq(part);
    }
}

/// Two spans that meet make one span.
pub proof fn lemma_span_join(text: Seq<char>, start: int, mid: int, end: int)
    requires
        span_in_text(text, start, mid),
        span_in_text(text, mid, end),
    ensures
        span_value(text, start, mid) + span_value(text, mid, end) == span_value(text, start, end),
{
    let bytes = text_bytes(text);
    let part = bytes.subrange(start, end);
    lemma_boundary_in_span(text, start, mid, end);
    decode_utf8_split(part, mid - start);
    assert(part.subrange(0, mid - start) =~= bytes.subrange(start, mid));
    assert(part.subrange(mid - start, part.len() as int) =~= bytes.subrange(mid, end));
}

/// The text between the byte offsets `start` and `end`.
pub fn cut<'a>(text: &'a str, start: usize, end: usize) -> (piece: &'a str)
    requires
        span_in_text(text@, start as int, end as int),
    ensures
        piece@ == span_value(text@, start as int, end as int),
        text_bytes(piece@) == text_bytes(text@).subrange(start as int, end as int),
{
    let (head, _) = text.split_at(end);
    proof {
        lemma_boundary_in_prefix(text_bytes(text@), start as int, end as int);
    }
    let (_, piece) = head.split_at(start);
    proof {
        assert(piece.spec_bytes() =~= text_bytes(text@).subrange(start as int, end as int));
        encode_utf8_decode_utf8(piece@);
    }
    piece
}

/// What `str::to_lowercase` makes of a text: the Unicode lowercase mapping of
/// its characters, with the one rule of that mapping that looks at the
/// neighbours of a character (the Greek sigma at the end of a word).
pub uninterp spec fn lowercased(s: Seq<char>) -> Seq<char>;

/// Calls `str::to_lowercase`, whose result depends on the characters of the
/// text alone.
#[verifier::external_body]
pub(crate) fn to_lowercase(s: &str) -> (lower: String)
    ensures
        lower@ == lowercased(s@),
{
    s.to_lowercase()
}

/// Calls `String::push`, which appends one character.
#[verifier::external_body]
pub(crate) fn push_char(s: &mut String, c: char)
    ensures
        final(s)@ == old(s)@.push(c),
{
    s.push(c)
}

/// `needle` stands in `hay` at character offset `at`.
pub open spec fn occurs_at(hay: Seq<char>, needle: Seq<char>, at: int) -> bool {
    &&& 0 <= at
    &&& at + needle.len() <= hay.len()
    &&& hay.subrange(at, at + needle.len()) == needle
}

/// `needle` is a substring of `hay`: its characters stand somewhere in
/// `hay`, one after the other.
pub open spec fn contains_text(hay: Seq<char>, needle: Seq<char>) -> bool {
    exists|at: int| occurs_at(hay, needle, at)
}

/// Whether `needle` stands in `hay` at offset `at`.
fn matches_at(hay: &Vec<char>, needle: &Vec<char>, at: usize) -> (found: bool)
    requires
        at + needle@.len() <= hay@.len(),
    ensures
        found == occurs_at(hay@, needle@, at as int),
{
    let hay_len: usize = hay.len();
    let mut k: usize = 0;
    while k < needle.len()
        invariant
            at + needle@.len() <= hay@.len() == hay_len,
            k <= needle@.len(),
            forall|j: int| 0 <= j < k ==> hay@[at + j] == needle@[j],
        decreases needle@.len() - k,
    {
        if hay[at + k] != needle[k] {
            proof {
                let part = hay@.subrange(at as int, at + needle@.len());
                assert(part[k as int] == hay@[at + k]);
            }
            return false;
        }
        k += 1;
    }
    assert(hay@.subrange(at as int, at + needle@.len()) =~= needle@);
    true
}

/// Whether the characters `needle` stand somewhere in `hay`, one after the
/// other.
pub fn contains_chars(hay: &Vec<char>, needle: &Vec<char>) -> (found: bool)
    ensures
        found == contains_text(hay@, needle@),
{
    if needle.len() > hay.len() {
        return false;
    }
    let last: usize = hay.len() - needle.len();
    let mut at: usize = 0;
    loop
        invariant
            last == hay@.len() - needle@.len(),
            at <= last,
            forall|j: int| 0 <= j < at ==> !occurs_at(hay@, needle@, j),
        decreases last - at,
    {
        if matches_at(hay, needle, at) {
            return true;
        }
        if at == last {
            return false;
        }
        at += 1;
    }
}

/// Whether `needle` is a substring of `hay`.
pub fn contains(hay: &str, needle: &str) -> (found: bool)
    ensures
        found == contains_text(hay@, needle@),
{
    let hay = chars_of(hay);
    let needle = chars_of(needle);
    contains_chars(&hay, &needle)
}

/// Whether two texts are the same.
pub fn same_text(a: &str, b: &str) -> (same: bool)
    ensures
        same == (a@ == b@),
{
    let x = a.as_bytes();
    let y = b.as_bytes();
    proof {
        encode_utf8_decode_utf8(a@);
        encode_utf8_decode_utf8(b@);
    }
    if x.len() != y.len() {
        return false;
    }
    let mut k: usize = 0;
    while k < x.len()
        invariant
            x@ == text_bytes(a@),
            y@ == text_bytes(b@),
            x@.len() == y@.len(),
            k <= x@.len(),
            forall|j: int| 0 <= j < k ==> x@[j] == y@[j],
        decreases x@.len() - k,
    {
        if x[k] != y[k] {
            return false;
        }
        k += 1;
    }
    assert(x@ =~= y@);
    true
}

/// The characters of a text.
pub fn chars_of(s: &str) -> (chars: Vec<char>)
    ensures
        chars@ == s@,
{
    let mut chars: Vec<char> = Vec::new();
    for c in it: s.chars()
        invariant
            it.seq() == s@,
            chars@ == s@.take(it.index() as int),
    {
        chars.push(c);
        proof {
            assert(s@.take(it.index() + 1) =~= s@.take(it.index() as int).push(c));
        }
    }
    proof {
        assert(s@.take(s@.len() as int) =~= s@);
    }
    chars
}

} // verus!
