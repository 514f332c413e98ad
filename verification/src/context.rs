//! Context snippets: a match with up to fifty characters of the text on each
//! side of it.
//!
//! Offsets into the text are bytes, the context is counted in characters, so
//! the ends of a snippet are found by stepping from one character boundary to
//! the next.

use crate::text::{
    cut, lemma_span_join, lemma_span_value_bytes, span_in_text, span_value, text_bytes,
};
use vstd::prelude::*;
use vstd::string::*;
use vstd::utf8::*;

verus! {

broadcast use vstd::utf8::group_utf8_lib;

/// The number of characters of context kept on each side of a match.
pub const CONTEXT_CHARS: usize = 50;

/// The last `n` characters of `s`, or all of it where it is shorter.
pub open spec fn last_chars(s: Seq<char>, n: int) -> Seq<char> {
    if s.len() <= n {
        s
    } else {
        s.subrange(s.len() - n, s.len() as int)
    }
}

/// The first `n` characters of `s`, or all of it where it is shorter.
pub open spec fn first_chars(s: Seq<char>, n: int) -> Seq<char> {
    if s.len() <= n {
        s
    } else {
        s.subrange(0, n)
    }
}

/// The context snippet of the span `start..end`: the match with up to
/// [`CONTEXT_CHARS`] characters on each side, clipped to the text.
pub open spec fn context_of(text: Seq<char>, start: int, end: int) -> Seq<char> {
    last_chars(span_value(text, 0, start), CONTEXT_CHARS as int) + span_value(text, start, end)
        + first_chars(
        span_value(text, end, text_bytes(text).len() as int),
        CONTEXT_CHARS as int,
    )
}

/// No character boundary lies strictly between the two offsets.
pub open spec fn adjacent_boundaries(bytes: Seq<u8>, from: int, to: int) -> bool {
    forall|at: int| from < at < to ==> !is_char_boundary(bytes, at)
}

/// The bytes between two adjacent character boundaries encode one character.
pub proof fn lemma_one_char(text: Seq<char>, from: int, to: int)
    requires
        span_in_text(text, from, to),
        from < to,
        adjacent_boundaries(text_bytes(text), from, to),
    ensures
        span_value(text, from, to).len() == 1,
{
    let bytes = text_bytes(text);
    let part = bytes.subrange(from, to);
    lemma_span_value_bytes(text, from, to);
    let width = length_of_first_scalar(part);
    let rest = pop_first_scalar(part);
    assert(1 <= width <= part.len());
    assert(is_char_boundary(rest, 0));
    assert(is_char_boundary(part, width));
    if width < part.len() {
        is_char_boundary_iff_not_is_continuation_byte(part, width);
        is_char_boundary_iff_not_is_continuation_byte(bytes, from + width);
        assert(part[width] == bytes[from + width]);
        assert(is_char_boundary(bytes, from + width));
    }
    assert(rest.len() == 0);
    assert(decode_utf8(rest) =~= Seq::<char>::empty());
    assert(decode_utf8(part) =~= seq![decode_first_scalar(part) as char] + decode_utf8(rest));
}

/// The character boundary before `at`.
pub fn step_back(text: &str, at: usize) -> (prev: usize)
    requires
        span_in_text(text@, 0, at as int),
        at > 0,
    ensures
        prev < at,
        span_in_text(text@, prev as int, at as int),
        span_value(text@, prev as int, at as int).len() == 1,
{
    let mut prev: usize = at - 1;
    while !text.is_char_boundary(prev)
        invariant
            prev < at,
            span_in_text(text@, 0, at as int),
            adjacent_boundaries(text_bytes(text@), prev as int, at as int),
        decreases prev,
    {
        prev -= 1;
    }
    proof {
        lemma_one_char(text@, prev as int, at as int);
    }
    prev
}

/// The character boundary after `at`.
pub fn step_forward(text: &str, at: usize) -> (next: usize)
    requires
        span_in_text(text@, at as int, text_bytes(text@).len() as int),
        at < text_bytes(text@).len(),
    ensures
        at < next <= text_bytes(text@).len(),
        span_in_text(text@, at as int, next as int),
        span_value(text@, at as int, next as int).len() == 1,
{
    let len: usize = text.as_bytes().len();
    let mut next: usize = at + 1;
    while !text.is_char_boundary(next)
        invariant
            at < next <= len,
            len == text_bytes(text@).len(),
            span_in_text(text@, at as int, len as int),
            adjacent_boundaries(text_bytes(text@), at as int, next as int),
        decreases len - next,
    {
        next += 1;
    }
    proof {
        lemma_one_char(text@, at as int, next as int);
    }
    next
}

/// Where the context of a match that starts at `start` begins: up to
/// [`CONTEXT_CHARS`] characters before it.
pub fn context_start(text: &str, start: usize) -> (from: usize)
    requires
        span_in_text(text@, 0, start as int),
    ensures
        from <= start,
        span_in_text(text@, from as int, start as int),
        span_value(text@, from as int, start as int) == last_chars(
            span_value(text@, 0, start as int),
            CONTEXT_CHARS as int,
        ),
{
    let mut from: usize = start;
    let mut count: usize = 0;
    proof {
        assert(text_bytes(text@).subrange(start as int, start as int) =~= Seq::<u8>::empty());
    }
    while count < CONTEXT_CHARS && from > 0
        invariant
            from <= start,
            count <= CONTEXT_CHARS,
            span_in_text(text@, 0, from as int),
            span_in_text(text@, from as int, start as int),
            span_value(text@, from as int, start as int).len() == count,
        decreases from,
    {
        let prev = step_back(text, from);
        proof {
            lemma_span_join(text@, prev as int, from as int, start as int);
        }
        from = prev;
        count += 1;
    }
    proof {
        lemma_span_join(text@, 0, from as int, start as int);
        let head = span_value(text@, 0, start as int);
        let kept = span_value(text@, from as int, start as int);
        if from == 0 {
            assert(kept == head);
        } else {
            assert(kept =~= head.subrange(head.len() - CONTEXT_CHARS, head.len() as int));
        }
    }
    from
}

/// Where the context of a match that ends at `end` ends: up to
/// [`CONTEXT_CHARS`] characters after it.
pub fn context_end(text: &str, end: usize) -> (to: usize)
    requires
        span_in_text(text@, end as int, text_bytes(text@).len() as int),
    ensures
        end <= to <= text_bytes(text@).len(),
        span_in_text(text@, end as int, to as int),
        span_value(text@, end as int, to as int) == first_chars(
            span_value(text@, end as int, text_bytes(text@).len() as int),
            CONTEXT_CHARS as int,
        ),
{
    let len: usize = text.as_bytes().len();
    let mut to: usize = end;
    let mut count: usize = 0;
    proof {
        assert(text_bytes(text@).subrange(end as int, end as int) =~= Seq::<u8>::empty());
    }
    while count < CONTEXT_CHARS && to < len
        invariant
            end <= to <= len,
            len == text_bytes(text@).len(),
            count <= CONTEXT_CHARS,
            span_in_text(text@, to as int, len as int),
            span_in_text(text@, end as int, to as int),
            span_value(text@, end as int, to as int).len() == count,
        decreases len - to,
    {
        let next = step_forward(text, to);
        proof {
            lemma_span_join(text@, end as int, to as int, next as int);
        }
        to = next;
        count += 1;
    }
    proof {
        lemma_span_join(text@, end as int, to as int, len as int);
        let tail = span_value(text@, end as int, len as int);
        let kept = span_value(text@, end as int, to as int);
        if to == len {
            assert(kept == tail);
        } else {
            assert(kept =~= tail.subrange(0, CONTEXT_CHARS as int));
        }
    }
    to
}

/// The context snippet of the span `start..end` of `text`.
pub fn context_snippet(text: &str, start: usize, end: usize) -> (snippet: String)
    requires
        span_in_text(text@, start as int, end as int),
    ensures
        snippet@ == context_of(text@, start as int, end as int),
{
    proof {
        is_char_boundary_start_end_of_seq(text_bytes(text@));
    }
    let from = context_start(text, start);
    let to = context_end(text, end);
    proof {
        lemma_span_join(text@, from as int, start as int, end as int);
        lemma_span_join(text@, from as int, end as int, to as int);
    }
    String::from_str(cut(text, from, to))
}

} // verus!
