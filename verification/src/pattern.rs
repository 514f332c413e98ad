//! Compiled pattern rules: the boundary to the `regex` crate.
//!
//! A [`Rule`] is a compiled regular expression together with the capture
//! group that designates the entity value (group 0 is the whole match).
//! What the engine matches is not modelled here; it is named by
//! [`regex_captures`], and the contracts of the library are stated over that
//! name.

use crate::text::span_in_text;
use regex::Regex;
use vstd::prelude::*;
use vstd::string::*;
use vstd::utf8::*;

verus! {

/// `regex::Regex`, a compiled regular expression. Nothing of its inside is
/// known here; it is only handed to the engine.
#[verifier::external_type_specification]
#[verifier::external_body]
pub struct ExRegex(regex::Regex);

/// `regex::Error`, the engine's account of a pattern that did not compile.
/// Nothing of its inside is known here.
#[verifier::external_type_specification]
#[verifier::external_body]
pub struct ExRegexError(regex::Error);

/// The pattern text that a compiled expression was built from: what
/// `Regex::as_str` reports, which is the text given to `Regex::new`.
pub uninterp spec fn regex_source(re: Regex) -> Seq<char>;

/// What `Regex::captures_iter` finds: the successive matches of `re` in
/// `text`, each reduced to the byte span of capture group `group` as
/// `Captures::get` gives it, or to `None` where that group took no part in
/// the match.
pub uninterp spec fn regex_captures(re: Regex, group: usize, text: Seq<char>) -> Seq<
    Option<(usize, usize)>,
>;

/// Whether `Regex::new` accepts a pattern: whether it is well-formed and,
/// compiled, stays within the engine's default size limit.
pub uninterp spec fn regex_compiles(pattern: Seq<char>) -> bool;

/// All spans of a scan can be cut out of `text`.
pub open spec fn spans_in_text(text: Seq<char>, spans: Seq<Option<(usize, usize)>>) -> bool {
    forall|i: int|
        0 <= i < spans.len() ==> match #[trigger] spans[i] {
            Some((start, end)) => span_in_text(text, start as int, end as int),
            None => true,
        }
}

/// Calls `Regex::new`, which builds with a fixed default configuration, so
/// that whether it succeeds depends on the pattern text alone. On success the
/// compiled expression reports `pattern` as its source; on failure the
/// engine's error is handed back unchanged.
#[verifier::external_body]
fn compile_regex(pattern: &str) -> (result: Result<Regex, regex::Error>)
    ensures
        result is Ok <==> regex_compiles(pattern@),
        result matches Ok(re) ==> regex_source(re) == pattern@,
{
    Regex::new(pattern)
}

/// Calls `Regex::captures_iter` and reads capture group `group` of every
/// match with `Captures::get`. The result is a function of the expression,
/// the group and the text; the engine documents that every reported offset
/// satisfies `start <= end`, lies inside the text and falls on a UTF-8
/// character boundary.
#[verifier::external_body]
fn capture_spans(re: &Regex, group: usize, text: &str) -> (spans: Vec<Option<(usize, usize)>>)
    ensures
        spans@ == regex_captures(*re, group, text@),
        spans_in_text(text@, spans@),
{
    re.captures_iter(text).map(|c| c.get(group).map(|m| (m.start(), m.end()))).collect()
}

/// Calls `Regex::as_str`, which returns the pattern text that the
/// expression was built from.
#[verifier::external_body]
fn source_text(re: &Regex) -> (source: &str)
    ensures
        source@ == regex_source(*re),
{
    re.as_str()
}

/// Renders the engine's error with its `Display` impl.
#[verifier::external_body]
fn describe_error(error: &regex::Error) -> (message: String) {
    error.to_string()
}

/// Why a pattern could not be turned into a rule.
#[derive(Clone, Debug)]
pub struct PatternError {
    /// The pattern text that was rejected.
    pub pattern: String,
    /// The engine's explanation.
    pub message: String,
}

/// A compiled pattern and the capture group that designates the entity value.
#[derive(Debug)]
pub struct Rule {
    regex: Regex,
    group: usize,
}

impl Rule {
    /// The pattern text of this rule.
    pub closed spec fn source(&self) -> Seq<char> {
        regex_source(self.regex)
    }

    /// The designated capture group.
    pub closed spec fn designated_group(&self) -> usize {
        self.group
    }

    /// The designated spans of the successive matches of this rule in `text`.
    pub closed spec fn captures(&self, text: Seq<char>) -> Seq<Option<(usize, usize)>> {
        regex_captures(self.regex, self.group, text)
    }

    /// Turns the outcome of a compilation of `pattern` into a rule with the
    /// designated group `group`, or into an error that names the pattern.
    pub fn from_compiled(compiled: Result<Regex, regex::Error>, pattern: &str, group: usize) -> (result:
        Result<Rule, PatternError>)
        ensures
            compiled is Ok <==> result is Ok,
            result matches Ok(rule) ==> rule.source() == regex_source(compiled->Ok_0)
                && rule.designated_group() == group,
            result matches Ok(rule) ==> forall|text: Seq<char>| #[trigger]
                rule.captures(text) == regex_captures(compiled->Ok_0, group, text),
            result matches Err(e) ==> e.pattern@ == pattern@,
    {
        match compiled {
            Ok(regex) => Ok(Rule { regex, group }),
            Err(error) => Err(
                PatternError { pattern: pattern.to_owned(), message: describe_error(&error) },
            ),
        }
    }

    /// Compiles `pattern` into a rule whose entity value is capture group
    /// `group`. It succeeds exactly on the patterns that the engine accepts;
    /// the rule has `pattern` as its source, and an error names it.
    pub fn compile(pattern: &str, group: usize) -> (result: Result<Rule, PatternError>)
        ensures
            result is Ok <==> regex_compiles(pattern@),
            result matches Ok(rule) ==> rule.source() == pattern@ && rule.designated_group()
                == group,
            result matches Err(e) ==> e.pattern@ == pattern@,
    {
        Rule::from_compiled(compile_regex(pattern), pattern, group)
    }

    /// The pattern text of this rule.
    pub fn pattern(&self) -> (source: &str)
        ensures
            source@ == self.source(),
    {
        source_text(&self.regex)
    }

    /// The capture group that designates the entity value.
    pub fn group(&self) -> (group: usize)
        ensures
            group == self.designated_group(),
    {
        self.group
    }

    /// Scans `text` and returns the designated span of every match, in scan
    /// order.
    pub fn scan(&self, text: &str) -> (spans: Vec<Option<(usize, usize)>>)
        ensures
            spans@ == self.captures(text@),
            spans_in_text(text@, spans@),
    {
        capture_spans(&self.regex, self.group, text)
    }
}

} // verus!
