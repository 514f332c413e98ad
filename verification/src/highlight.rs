//! The highlighter: the raw matches of the six marked categories, resolved
//! into spans that do not overlap, and rendered as markup.

use crate::catalog::HighlightCatalog;
use crate::entity::Category;
use crate::markup::{all_in_text, render, render_markup};
use crate::overlap::{
    all_proper, ascending, lemma_accepted_were_given, lemma_resolve, lemma_select_greedy,
    non_overlapping, resolve, resolve_overlaps, select_greedy, select_matches, RawMatch,
};
use crate::readback::{lemma_markup_reads_back, strip_markers, unescape};
use crate::pattern::{spans_in_text, Rule};
use crate::text::{cut, lemma_span_value_bytes, span_in_text, span_value, text_bytes};
use vstd::prelude::*;
use vstd::string::*;

verus! {

/// A span marked by the highlighter.
#[derive(Clone, Debug)]
pub struct HighlightedEntity {
    /// The matched text.
    pub text: String,
    pub category: Category,
    /// Byte offset of the first byte of the match in the source text.
    pub start: usize,
    /// Byte offset just past the match.
    pub end: usize,
}

/// The model of a [`HighlightedEntity`].
pub struct HighlightedView {
    pub text: Seq<char>,
    pub category: Category,
    pub start: int,
    pub end: int,
}

impl View for HighlightedEntity {
    type V = HighlightedView;

    open spec fn view(&self) -> HighlightedView {
        HighlightedView {
            text: self.text@,
            category: self.category,
            start: self.start as int,
            end: self.end as int,
        }
    }
}

/// The models of a list of highlighted entities, in order.
pub open spec fn highlighted_views(entities: Seq<HighlightedEntity>) -> Seq<HighlightedView> {
    entities.map_values(|e: HighlightedEntity| e@)
}

/// The rendered text, the spans marked in it, and their number.
#[derive(Clone, Debug)]
pub struct HighlightResult {
    pub html: String,
    pub entities: Vec<HighlightedEntity>,
    pub count: usize,
}

/// The number of raw matches of each marked category.
#[derive(Clone, Copy, Debug, PartialEq, Eq, Structural)]
pub struct EntityCounts {
    pub persons: usize,
    pub organizations: usize,
    pub amounts: usize,
    pub dates: usize,
    pub locations: usize,
    pub emails: usize,
}

/// The raw matches after one more match of a scan: a match counts when its
/// designated group took part and is not empty.
pub open spec fn note_match(
    matches: Seq<RawMatch>,
    found: Option<(usize, usize)>,
    category: Category,
) -> Seq<RawMatch> {
    match found {
        Some((start, end)) => if start < end {
            matches.push(RawMatch { start, end, category })
        } else {
            matches
        },
        None => matches,
    }
}

/// The raw matches after the matches of one scan, taken in scan order.
pub open spec fn note_scan(
    matches: Seq<RawMatch>,
    scan: Seq<Option<(usize, usize)>>,
    category: Category,
) -> Seq<RawMatch>
    decreases scan.len(),
{
    if scan.len() == 0 {
        matches
    } else {
        note_match(note_scan(matches, scan.drop_last(), category), scan.last(), category)
    }
}

/// The raw matches of the six marked categories in `text`: category by
/// category in the highlighter's order, each in scan order.
pub open spec fn raw_matches(catalog: HighlightCatalog, text: Seq<char>) -> Seq<RawMatch> {
    let persons = note_scan(Seq::empty(), catalog.person.captures(text), Category::Person);
    let organizations = note_scan(
        persons,
        catalog.organization.captures(text),
        Category::Organization,
    );
    let amounts = note_scan(organizations, catalog.amount.captures(text), Category::Amount);
    let dates = note_scan(amounts, catalog.date.captures(text), Category::Date);
    let locations = note_scan(dates, catalog.location.captures(text), Category::Location);
    note_scan(locations, catalog.email.captures(text), Category::Email)
}

/// The highlighted entity that a match stands for.
pub open spec fn highlighted(text: Seq<char>, m: RawMatch) -> HighlightedView {
    HighlightedView {
        text: span_value(text, m.start as int, m.end as int),
        category: m.category,
        start: m.start as int,
        end: m.end as int,
    }
}

/// The highlighted entities of the matches, in order.
pub open spec fn highlighted_all(text: Seq<char>, matches: Seq<RawMatch>) -> Seq<HighlightedView> {
    matches.map_values(|m: RawMatch| highlighted(text, m))
}

/// The entity lies in `text`: its offsets delimit a non-empty part of the
/// text, and that part is its text.
pub open spec fn marks_text(text: Seq<char>, e: HighlightedView) -> bool {
    &&& 0 <= e.start < e.end <= text_bytes(text).len()
    &&& text_bytes(text).subrange(e.start, e.end) == text_bytes(e.text)
}

/// Every entity lies in `text`.
pub open spec fn all_mark_text(text: Seq<char>, entities: Seq<HighlightedView>) -> bool {
    forall|i: int| 0 <= i < entities.len() ==> marks_text(text, #[trigger] entities[i])
}

/// The entities are in ascending order of start, and each ends before the
/// next begins, or where it begins.
pub open spec fn spans_disjoint(entities: Seq<HighlightedView>) -> bool {
    forall|i: int, j: int|
        #![trigger entities[i], entities[j]]
        0 <= i < j < entities.len() ==> entities[i].start <= entities[j].start && entities[i].end
            <= entities[j].start
}

/// No raw match of a scan is empty or reversed.
pub proof fn lemma_noted_are_proper(
    matches: Seq<RawMatch>,
    scan: Seq<Option<(usize, usize)>>,
    category: Category,
)
    requires
        all_proper(matches),
    ensures
        all_proper(note_scan(matches, scan, category)),
    decreases scan.len(),
{
    if scan.len() > 0 {
        lemma_noted_are_proper(matches, scan.drop_last(), category);
    }
}

/// Whatever the catalog and the text: the spans that the highlighter accepts
/// are in ascending order of start and do not overlap.
pub proof fn lemma_accepted_spans_disjoint(catalog: HighlightCatalog, text: Seq<char>)
    ensures
        ascending(resolve(raw_matches(catalog, text))),
        non_overlapping(resolve(raw_matches(catalog, text))),
        all_proper(resolve(raw_matches(catalog, text))),
{
    let persons = note_scan(Seq::empty(), catalog.person.captures(text), Category::Person);
    let organizations = note_scan(
        persons,
        catalog.organization.captures(text),
        Category::Organization,
    );
    let amounts = note_scan(organizations, catalog.amount.captures(text), Category::Amount);
    let dates = note_scan(amounts, catalog.date.captures(text), Category::Date);
    let locations = note_scan(dates, catalog.location.captures(text), Category::Location);
    lemma_noted_are_proper(Seq::empty(), catalog.person.captures(text), Category::Person);
    lemma_noted_are_proper(persons, catalog.organization.captures(text), Category::Organization);
    lemma_noted_are_proper(organizations, catalog.amount.captures(text), Category::Amount);
    lemma_noted_are_proper(amounts, catalog.date.captures(text), Category::Date);
    lemma_noted_are_proper(dates, catalog.location.captures(text), Category::Location);
    lemma_noted_are_proper(locations, catalog.email.captures(text), Category::Email);
    lemma_resolve(raw_matches(catalog, text));
}

/// Adds the matches of `rule` in `text` to `matches`.
pub fn collect_matches(rule: &Rule, text: &str, category: Category, matches: &mut Vec<RawMatch>)
    requires
        all_in_text(text@, old(matches)@),
        all_proper(old(matches)@),
    ensures
        final(matches)@ == note_scan(old(matches)@, rule.captures(text@), category),
        all_in_text(text@, final(matches)@),
        all_proper(final(matches)@),
{
    let ghost start = matches@;
    let spans = rule.scan(text);
    let mut k: usize = 0;
    while k < spans.len()
        invariant
            k <= spans@.len(),
            spans_in_text(text@, spans@),
            matches@ == note_scan(start, spans@.take(k as int), category),
            all_in_text(text@, matches@),
            all_proper(matches@),
        decreases spans@.len() - k,
    {
        proof {
            assert(spans@.take(k + 1).drop_last() =~= spans@.take(k as int));
            assert(spans@.take(k + 1).last() == spans@[k as int]);
        }
        if let Some((from, to)) = spans[k] {
            if from < to {
                matches.push(RawMatch { start: from, end: to, category });
            }
        }
        k += 1;
    }
    proof {
        assert(spans@.take(k as int) =~= spans@);
    }
}

/// The raw matches of the six marked categories in `text`.
pub fn collect_raw(catalog: &HighlightCatalog, text: &str) -> (matches: Vec<RawMatch>)
    ensures
        matches@ == raw_matches(*catalog, text@),
        all_in_text(text@, matches@),
        all_proper(matches@),
{
    let mut matches: Vec<RawMatch> = Vec::new();
    collect_matches(&catalog.person, text, Category::Person, &mut matches);
    collect_matches(&catalog.organization, text, Category::Organization, &mut matches);
    collect_matches(&catalog.amount, text, Category::Amount, &mut matches);
    collect_matches(&catalog.date, text, Category::Date, &mut matches);
    collect_matches(&catalog.location, text, Category::Location, &mut matches);
    collect_matches(&catalog.email, text, Category::Email, &mut matches);
    matches
}

/// The highlighted entities of `matches`, each with its text cut out of
/// `text`.
pub fn entities_of(text: &str, matches: &Vec<RawMatch>) -> (entities: Vec<HighlightedEntity>)
    requires
        all_in_text(text@, matches@),
        all_proper(matches@),
    ensures
        highlighted_views(entities@) == highlighted_all(text@, matches@),
        all_mark_text(text@, highlighted_views(entities@)),
{
    let mut entities: Vec<HighlightedEntity> = Vec::new();
    let mut i: usize = 0;
    while i < matches.len()
        invariant
            i <= matches@.len(),
            all_in_text(text@, matches@),
            all_proper(matches@),
            entities@.len() == i,
            forall|k: int|
                0 <= k < i ==> (#[trigger] entities@[k])@ == highlighted(text@, matches@[k]),
        decreases matches@.len() - i,
    {
        let m = matches[i];
        entities.push(
            HighlightedEntity {
                text: String::from_str(cut(text, m.start, m.end)),
                category: m.category,
                start: m.start,
                end: m.end,
            },
        );
        i += 1;
    }
    proof {
        assert(highlighted_views(entities@) =~= highlighted_all(text@, matches@));
        assert forall|k: int| 0 <= k < entities@.len() implies marks_text(
            text@,
            #[trigger] highlighted_views(entities@)[k],
        ) by {
            lemma_span_value_bytes(text@, matches@[k].start as int, matches@[k].end as int);
        }
    }
    entities
}

/// The matches that the highlighter accepts in `text`: the raw matches of
/// the six marked categories, sorted by start and selected greedily.
pub fn accepted_matches(catalog: &HighlightCatalog, text: &str) -> (accepted: Vec<RawMatch>)
    ensures
        accepted@ == resolve(raw_matches(*catalog, text@)),
        all_in_text(text@, accepted@),
        all_proper(accepted@),
        non_overlapping(accepted@),
        ascending(accepted@),
{
    let raw = collect_raw(catalog, text);
    let accepted = resolve_overlaps(raw);
    proof {
        assert forall|i: int| 0 <= i < accepted@.len() implies span_in_text(
            text@,
            (#[trigger] accepted@[i]).start as int,
            accepted@[i].end as int,
        ) by {
            assert(raw@.contains(accepted@[i]));
        }
    }
    accepted
}

/// Entities made from proper matches that do not overlap are in ascending
/// order of start, and each ends before the next begins.
pub proof fn lemma_disjoint_entities(text: Seq<char>, matches: Seq<RawMatch>)
    requires
        all_proper(matches),
        non_overlapping(matches),
    ensures
        spans_disjoint(highlighted_all(text, matches)),
{
    let views = highlighted_all(text, matches);
    assert forall|i: int, j: int| 0 <= i < j < views.len() implies views[i].start
        <= views[j].start && views[i].end <= views[j].start by {
        assert(matches[i].end <= matches[j].start);
        assert(matches[i].start < matches[i].end);
    }
}

/// Marks the entities of the six marked categories in `text`: the raw
/// matches are resolved into spans that do not overlap, and the text is
/// rendered with each of them between markers.
pub fn highlight_entities(catalog: &HighlightCatalog, text: &str) -> (result: HighlightResult)
    ensures
        highlighted_views(result.entities@) == highlighted_all(
            text@,
            resolve(raw_matches(*catalog, text@)),
        ),
        result.html@ == render(text@, resolve(raw_matches(*catalog, text@)), true),
        result.count == result.entities@.len(),
        all_mark_text(text@, highlighted_views(result.entities@)),
        spans_disjoint(highlighted_views(result.entities@)),
        unescape(strip_markers(result.html@)) == text@,
{
    let accepted = accepted_matches(catalog, text);
    let html = render_markup(text, &accepted, true);
    let entities = entities_of(text, &accepted);
    let count = entities.len();
    proof {
        lemma_markup_reads_back(text@, accepted@, true);
        lemma_disjoint_entities(text@, accepted@);
    }
    HighlightResult { html, entities, count }
}

/// The spans that the highlighter accepts in `text`, without the markup.
pub fn accepted_entities(catalog: &HighlightCatalog, text: &str) -> (entities: Vec<
    HighlightedEntity,
>)
    ensures
        highlighted_views(entities@) == highlighted_all(
            text@,
            resolve(raw_matches(*catalog, text@)),
        ),
        all_mark_text(text@, highlighted_views(entities@)),
        spans_disjoint(highlighted_views(entities@)),
{
    let accepted = accepted_matches(catalog, text);
    proof {
        lemma_disjoint_entities(text@, accepted@);
    }
    entities_of(text, &accepted)
}

/// Marks the matches of one rule in `text`, with markers that carry no
/// title. Of matches that overlap, the one that starts first is kept.
pub fn highlight_matches(rule: &Rule, text: &str, category: Category) -> (result: (
    String,
    Vec<HighlightedEntity>,
))
    ensures
        highlighted_views(result.1@) == highlighted_all(
            text@,
            select_greedy(note_scan(Seq::empty(), rule.captures(text@), category)),
        ),
        result.0@ == render(
            text@,
            select_greedy(note_scan(Seq::empty(), rule.captures(text@), category)),
            false,
        ),
        all_mark_text(text@, highlighted_views(result.1@)),
        spans_disjoint(highlighted_views(result.1@)),
        unescape(strip_markers(result.0@)) == text@,
{
    let mut raw: Vec<RawMatch> = Vec::new();
    collect_matches(rule, text, category, &mut raw);
    let accepted = select_matches(&raw);
    proof {
        lemma_select_greedy(raw@);
        lemma_accepted_were_given(raw@);
        assert forall|i: int| 0 <= i < accepted@.len() implies span_in_text(
            text@,
            (#[trigger] accepted@[i]).start as int,
            accepted@[i].end as int,
        ) by {
            assert(raw@.contains(accepted@[i]));
        }
    }
    let html = render_markup(text, &accepted, false);
    proof {
        lemma_markup_reads_back(text@, accepted@, false);
    }
    let entities = entities_of(text, &accepted);
    proof {
        lemma_disjoint_entities(text@, accepted@);
    }
    (html, entities)
}

/// The raw matches of the six marked categories in `text` as highlighted
/// entities: category by category, each in scan order, overlaps and all.
pub fn extract_entities(catalog: &HighlightCatalog, text: &str) -> (entities: Vec<
    HighlightedEntity,
>)
    ensures
        highlighted_views(entities@) == highlighted_all(text@, raw_matches(*catalog, text@)),
        all_mark_text(text@, highlighted_views(entities@)),
{
    let raw = collect_raw(catalog, text);
    entities_of(text, &raw)
}

/// The number of matches of each marked category's rule in `text`, overlaps
/// between categories counted on each side.
pub fn count_entities(catalog: &HighlightCatalog, text: &str) -> (counts: EntityCounts)
    ensures
        counts.persons == catalog.person.captures(text@).len(),
        counts.organizations == catalog.organization.captures(text@).len(),
        counts.amounts == catalog.amount.captures(text@).len(),
        counts.dates == catalog.date.captures(text@).len(),
        counts.locations == catalog.location.captures(text@).len(),
        counts.emails == catalog.email.captures(text@).len(),
{
    EntityCounts {
        persons: catalog.person.scan(text).len(),
        organizations: catalog.organization.scan(text).len(),
        amounts: catalog.amount.scan(text).len(),
        dates: catalog.date.scan(text).len(),
        locations: catalog.location.scan(text).len(),
        emails: catalog.email.scan(text).len(),
    }
}

} // verus!
