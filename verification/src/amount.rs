//! Normalization of amounts: thousands separators and currency symbols are
//! stripped, the leading numeric token is taken, and a scale word is read.
//!
//! The numeric token is kept as text. Turning it into a number is left to the
//! caller, so that no rounding is decided here.

use crate::entity::{AmountValue, AmountView, Scale};
use crate::text::{chars_of, contains, contains_text, push_char};
use vstd::prelude::*;
use vstd::string::*;

verus! {

/// The characters that are stripped from an amount: the thousands separator
/// and the dollar, euro and pound signs.
pub open spec fn is_stripped(c: char) -> bool {
    c == ',' || c == '$' || c == '\u{20ac}' || c == '\u{a3}'
}

/// The predicate of the characters that remain.
pub open spec fn remains() -> spec_fn(char) -> bool {
    |c: char| !is_stripped(c)
}

/// An amount without its separators and currency symbols.
pub open spec fn strip_symbols(value: Seq<char>) -> Seq<char> {
    value.filter(remains())
}

/// Unicode white space: the characters on which a text is split into tokens.
pub open spec fn is_space(c: char) -> bool {
    let code = c as u32;
    ||| 0x09 <= code <= 0x0d
    ||| code == 0x20
    ||| code == 0x85
    ||| code == 0xa0
    ||| code == 0x1680
    ||| 0x2000 <= code <= 0x200a
    ||| code == 0x2028
    ||| code == 0x2029
    ||| code == 0x202f
    ||| code == 0x205f
    ||| code == 0x3000
}

/// The first index at or after `from` whose character is white space
/// (`space` true) or is not (`space` false); the length where there is none.
pub open spec fn next_index(s: Seq<char>, from: int, space: bool) -> int
    decreases s.len() - from,
{
    if from < 0 || from >= s.len() {
        s.len() as int
    } else if is_space(s[from]) == space {
        from
    } else {
        next_index(s, from + 1, space)
    }
}

/// The first token of `s` when split on white space; empty where `s` holds
/// no token.
pub open spec fn leading_token(s: Seq<char>) -> Seq<char> {
    let start = next_index(s, 0, false);
    s.subrange(start, next_index(s, start, true))
}

/// The scale word of a stripped amount: "million" is looked for first, then
/// "billion".
pub open spec fn scale_of(stripped: Seq<char>) -> Scale {
    if contains_text(stripped, "million"@) {
        Scale::Million
    } else if contains_text(stripped, "billion"@) {
        Scale::Billion
    } else {
        Scale::Unit
    }
}

/// The normalized form of the amount `value`.
pub open spec fn normalized(value: Seq<char>) -> AmountView {
    AmountView {
        numeric: leading_token(strip_symbols(value)),
        scale: scale_of(strip_symbols(value)),
    }
}

/// Whether `c` is Unicode white space.
pub fn is_whitespace(c: char) -> (space: bool)
    ensures
        space == is_space(c),
{
    let code: u32 = c as u32;
    (0x09 <= code && code <= 0x0d) || code == 0x20 || code == 0x85 || code == 0xa0 || code
        == 0x1680 || (0x2000 <= code && code <= 0x200a) || code == 0x2028 || code == 0x2029
        || code == 0x202f || code == 0x205f || code == 0x3000
}

/// Whether `c` is stripped from an amount.
pub fn is_stripped_char(c: char) -> (stripped: bool)
    ensures
        stripped == is_stripped(c),
{
    c == ',' || c == '$' || c == '\u{20ac}' || c == '\u{a3}'
}

/// The first index at or after `from` whose character is white space
/// (`space` true) or is not (`space` false).
fn find_index(chars: &Vec<char>, from: usize, space: bool) -> (at: usize)
    requires
        from <= chars@.len(),
    ensures
        at == next_index(chars@, from as int, space),
        from <= at <= chars@.len(),
{
    let mut at: usize = from;
    while at < chars.len() && is_whitespace(chars[at]) != space
        invariant
            from <= at <= chars@.len(),
            next_index(chars@, from as int, space) == next_index(chars@, at as int, space),
        decreases chars@.len() - at,
    {
        at += 1;
    }
    at
}

/// The amount without its separators and currency symbols.
pub fn strip(value: &str) -> (stripped: String)
    ensures
        stripped@ == strip_symbols(value@),
{
    let mut stripped = String::new();
    proof {
        reveal(Seq::filter);
        assert(value@.take(0).filter(remains()) =~= Seq::<char>::empty());
    }
    for c in it: value.chars()
        invariant
            it.seq() == value@,
            stripped@ == value@.take(it.index() as int).filter(remains()),
    {
        proof {
            assert(value@.take(it.index() + 1) =~= value@.take(it.index() as int).push(c));
            value@.take(it.index() as int).lemma_filter_push(c, remains());
        }
        if !is_stripped_char(c) {
            push_char(&mut stripped, c);
        }
    }
    proof {
        assert(value@.take(value@.len() as int) =~= value@);
    }
    stripped
}

/// The first white-space-delimited token of `s`.
pub fn first_token(s: &str) -> (token: String)
    ensures
        token@ == leading_token(s@),
{
    let chars = chars_of(s);
    let start = find_index(&chars, 0, false);
    let end = find_index(&chars, start, true);
    let mut token = String::new();
    let mut i: usize = start;
    while i < end
        invariant
            start <= i <= end <= chars@.len(),
            token@ == chars@.subrange(start as int, i as int),
        decreases end - i,
    {
        push_char(&mut token, chars[i]);
        proof {
            assert(chars@.subrange(start as int, i + 1) =~= chars@.subrange(
                start as int,
                i as int,
            ).push(chars@[i as int]));
        }
        i += 1;
    }
    token
}

/// Normalizes the amount `value`: its leading numeric token with separators
/// and currency symbols stripped, and its scale.
pub fn normalize_amount(value: &str) -> (amount: AmountValue)
    ensures
        amount@ == normalized(value@),
{
    let stripped = strip(value);
    let scale = if contains(stripped.as_str(), "million") {
        Scale::Million
    } else if contains(stripped.as_str(), "billion") {
        Scale::Billion
    } else {
        Scale::Unit
    };
    AmountValue { numeric: first_token(stripped.as_str()), scale }
}

} // verus!
