//! The eight category extractors: the shared scan, and for persons,
//! organizations and amounts what each does to its result.

use crate::amount::{normalize_amount, normalized};
use crate::catalog::PatternCatalog;
use crate::entity::{
    category_list, distinct_lowercase, entity_views, lemma_filter_keeps_category_list,
    lemma_filter_keeps_distinct, Category, Entity, EntityView,
};
use crate::extract::{
    extract_with_patterns, lemma_extracted_values_distinct, spec_extract_with_patterns,
};
use crate::text::{
    chars_of, contains_chars, contains_text, lowercased, same_text, to_lowercase,
};
use vstd::prelude::*;
use vstd::string::*;

verus! {

/// The words that disqualify a person candidate: weekdays, months and common
/// function words.
pub open spec fn person_stopwords() -> Seq<Seq<char>> {
    seq![
        "the"@,
        "this"@,
        "that"@,
        "with"@,
        "from"@,
        "have"@,
        "will"@,
        "been"@,
        "january"@,
        "february"@,
        "march"@,
        "april"@,
        "may"@,
        "june"@,
        "july"@,
        "august"@,
        "september"@,
        "october"@,
        "november"@,
        "december"@,
        "monday"@,
        "tuesday"@,
        "wednesday"@,
        "thursday"@,
        "friday"@,
        "saturday"@,
        "sunday"@,
    ]
}

/// The short acronyms that are accepted as organizations.
pub open spec fn known_acronyms() -> Seq<Seq<char>> {
    seq![
        "FBI"@,
        "CIA"@,
        "NSA"@,
        "SEC"@,
        "DOJ"@,
        "IRS"@,
        "EPA"@,
        "FDA"@,
        "FTC"@,
        "NYSE"@,
        "LLC"@,
        "CEO"@,
        "CFO"@,
    ]
}

/// The longest value, in characters, that must be a known acronym to count
/// as an organization.
pub const SHORT_ACRONYM_CHARS: usize = 3;

/// The texts of a list of words.
pub open spec fn words_of(words: Seq<&'static str>) -> Seq<Seq<char>> {
    words.map_values(|w: &'static str| w@)
}

/// One of `words` is a substring of `text`.
pub open spec fn contains_any(text: Seq<char>, words: Seq<Seq<char>>) -> bool {
    exists|i: int| 0 <= i < words.len() && contains_text(text, #[trigger] words[i])
}

/// A person candidate is kept unless its lowercase value contains a
/// stopword as a substring, whether as a word of its own or inside another.
pub open spec fn is_person_name(value: Seq<char>) -> bool {
    !contains_any(lowercased(value), person_stopwords())
}

/// An organization candidate of more than three characters is kept; a
/// shorter one only if it is a known acronym.
pub open spec fn is_organization_name(value: Seq<char>) -> bool {
    value.len() > SHORT_ACRONYM_CHARS || known_acronyms().contains(value)
}

/// The predicate of the person candidates that are kept.
pub open spec fn keeps_person() -> spec_fn(EntityView) -> bool {
    |e: EntityView| is_person_name(e.value)
}

/// The predicate of the organization candidates that are kept.
pub open spec fn keeps_organization() -> spec_fn(EntityView) -> bool {
    |e: EntityView| is_organization_name(e.value)
}

/// An amount entity with its normalized value attached.
pub open spec fn with_amount(e: EntityView) -> EntityView {
    EntityView { amount: Some(normalized(e.value)), ..e }
}

/// What the extractor of `category` returns for `text` under `catalog`.
pub open spec fn spec_extract(catalog: PatternCatalog, category: Category, text: Seq<char>) -> Seq<
    EntityView,
> {
    let scanned = spec_extract_with_patterns(text, catalog.spec_rules(category), category);
    match category {
        Category::Person => scanned.filter(keeps_person()),
        Category::Organization => scanned.filter(keeps_organization()),
        Category::Amount => scanned.map_values(|e: EntityView| with_amount(e)),
        _ => scanned,
    }
}

/// Whatever the catalog, the category and the text: no two entities of a
/// category's list have the same value in lowercase. Lists of different
/// categories may share values.
pub proof fn lemma_values_distinct_within_category(
    catalog: PatternCatalog,
    category: Category,
    text: Seq<char>,
)
    ensures
        distinct_lowercase(spec_extract(catalog, category, text)),
{
    let scanned = spec_extract_with_patterns(text, catalog.spec_rules(category), category);
    lemma_extracted_values_distinct(text, catalog.spec_rules(category), category);
    match category {
        Category::Person => lemma_filter_keeps_distinct(scanned, keeps_person()),
        Category::Organization => lemma_filter_keeps_distinct(scanned, keeps_organization()),
        _ => {},
    }
}

/// The stopwords of the person extractor.
pub fn stopword_list() -> (words: Vec<&'static str>)
    ensures
        words_of(words@) == person_stopwords(),
{
    let words = vec![
        "the",
        "this",
        "that",
        "with",
        "from",
        "have",
        "will",
        "been",
        "january",
        "february",
        "march",
        "april",
        "may",
        "june",
        "july",
        "august",
        "september",
        "october",
        "november",
        "december",
        "monday",
        "tuesday",
        "wednesday",
        "thursday",
        "friday",
        "saturday",
        "sunday",
    ];
    assert(words_of(words@) =~= person_stopwords());
    words
}

/// The known short acronyms of the organization extractor.
pub fn acronym_list() -> (words: Vec<&'static str>)
    ensures
        words_of(words@) == known_acronyms(),
{
    let words = vec![
        "FBI",
        "CIA",
        "NSA",
        "SEC",
        "DOJ",
        "IRS",
        "EPA",
        "FDA",
        "FTC",
        "NYSE",
        "LLC",
        "CEO",
        "CFO",
    ];
    assert(words_of(words@) =~= known_acronyms());
    words
}

/// Whether one of `words` is a substring of `text`.
pub fn contains_any_of(text: &str, words: &Vec<&'static str>) -> (found: bool)
    ensures
        found == contains_any(text@, words_of(words@)),
{
    let hay = chars_of(text);
    let mut i: usize = 0;
    while i < words.len()
        invariant
            i <= words@.len(),
            hay@ == text@,
            forall|j: int| 0 <= j < i ==> !contains_text(text@, #[trigger] words_of(words@)[j]),
        decreases words@.len() - i,
    {
        let needle = chars_of(words[i]);
        if contains_chars(&hay, &needle) {
            assert(contains_text(text@, words_of(words@)[i as int]));
            return true;
        }
        i += 1;
    }
    false
}

/// Whether `value` is one of `words`.
pub fn is_one_of(value: &str, words: &Vec<&'static str>) -> (found: bool)
    ensures
        found == words_of(words@).contains(value@),
{
    let mut i: usize = 0;
    while i < words.len()
        invariant
            i <= words@.len(),
            forall|j: int| 0 <= j < i ==> words_of(words@)[j] != value@,
        decreases words@.len() - i,
    {
        if same_text(words[i], value) {
            assert(words_of(words@)[i as int] == value@);
            return true;
        }
        i += 1;
    }
    false
}

/// Whether a person candidate is kept.
pub fn person_name_passes(value: &str) -> (keep: bool)
    ensures
        keep == is_person_name(value@),
{
    let lower = to_lowercase(value);
    let words = stopword_list();
    !contains_any_of(lower.as_str(), &words)
}

/// Whether an organization candidate is kept.
pub fn organization_name_passes(value: &str) -> (keep: bool)
    ensures
        keep == is_organization_name(value@),
{
    if value.unicode_len() > SHORT_ACRONYM_CHARS {
        true
    } else {
        let words = acronym_list();
        is_one_of(value, &words)
    }
}

/// Dates in `text`.
pub fn extract_dates(catalog: &PatternCatalog, text: &str) -> (entities: Vec<Entity>)
    ensures
        entity_views(entities@) == spec_extract(*catalog, Category::Date, text@),
        category_list(text@, entity_views(entities@), Category::Date),
{
    extract_with_patterns(text, &catalog.dates, Category::Date)
}

/// Person names in `text`: the scan, without the candidates whose lowercase
/// value contains a stopword.
pub fn extract_persons(catalog: &PatternCatalog, text: &str) -> (entities: Vec<Entity>)
    ensures
        entity_views(entities@) == spec_extract(*catalog, Category::Person, text@),
        category_list(text@, entity_views(entities@), Category::Person),
{
    let scanned = extract_with_patterns(text, &catalog.persons, Category::Person);
    let ghost all = entity_views(scanned@);
    let mut entities: Vec<Entity> = Vec::new();
    proof {
        reveal(Seq::filter);
        assert(all.take(0).filter(keeps_person()) =~= Seq::<EntityView>::empty());
    }
    for entity in it: scanned.into_iter()
        invariant
            it.seq() == scanned@,
            all == entity_views(scanned@),
            entity_views(entities@) == all.take(it.index() as int).filter(keeps_person()),
    {
        proof {
            assert(all.take(it.index() + 1) =~= all.take(it.index() as int).push(entity@));
            all.take(it.index() as int).lemma_filter_push(entity@, keeps_person());
        }
        if person_name_passes(entity.value.as_str()) {
            let ghost before = entity_views(entities@);
            entities.push(entity);
            assert(entity_views(entities@) =~= before.push(entity@));
        }
    }
    proof {
        assert(all.take(all.len() as int) =~= all);
        lemma_filter_keeps_category_list(text@, all, Category::Person, keeps_person());
    }
    entities
}

/// Organizations in `text`: the scan, without the candidates of three
/// characters or fewer that are no known acronym.
pub fn extract_organizations(catalog: &PatternCatalog, text: &str) -> (entities: Vec<Entity>)
    ensures
        entity_views(entities@) == spec_extract(*catalog, Category::Organization, text@),
        category_list(text@, entity_views(entities@), Category::Organization),
{
    let scanned = extract_with_patterns(text, &catalog.organizations, Category::Organization);
    let ghost all = entity_views(scanned@);
    let mut entities: Vec<Entity> = Vec::new();
    proof {
        reveal(Seq::filter);
        assert(all.take(0).filter(keeps_organization()) =~= Seq::<EntityView>::empty());
    }
    for entity in it: scanned.into_iter()
        invariant
            it.seq() == scanned@,
            all == entity_views(scanned@),
            entity_views(entities@) == all.take(it.index() as int).filter(keeps_organization()),
    {
        proof {
            assert(all.take(it.index() + 1) =~= all.take(it.index() as int).push(entity@));
            all.take(it.index() as int).lemma_filter_push(entity@, keeps_organization());
        }
        if organization_name_passes(entity.value.as_str()) {
            let ghost before = entity_views(entities@);
            entities.push(entity);
            assert(entity_views(entities@) =~= before.push(entity@));
        }
    }
    proof {
        assert(all.take(all.len() as int) =~= all);
        lemma_filter_keeps_category_list(text@, all, Category::Organization, keeps_organization());
    }
    entities
}

/// Amounts in `text`: the scan, each entity with its normalized value.
pub fn extract_amounts(catalog: &PatternCatalog, text: &str) -> (entities: Vec<Entity>)
    ensures
        entity_views(entities@) == spec_extract(*catalog, Category::Amount, text@),
        category_list(text@, entity_views(entities@), Category::Amount),
{
    let scanned = extract_with_patterns(text, &catalog.amounts, Category::Amount);
    let ghost all = entity_views(scanned@);
    let mut entities: Vec<Entity> = Vec::new();
    for entity in it: scanned.into_iter()
        invariant
            it.seq() == scanned@,
            all == entity_views(scanned@),
            entities@.len() == it.index(),
            forall|i: int|
                0 <= i < entities@.len() ==> (#[trigger] entities@[i])@ == with_amount(all[i]),
    {
        let amount = normalize_amount(entity.value.as_str());
        let mut entity = entity;
        entity.amount = Some(amount);
        entities.push(entity);
    }
    proof {
        assert(entity_views(entities@) =~= all.map_values(|e: EntityView| with_amount(e)));
    }
    entities
}

/// Locations in `text`.
pub fn extract_locations(catalog: &PatternCatalog, text: &str) -> (entities: Vec<Entity>)
    ensures
        entity_views(entities@) == spec_extract(*catalog, Category::Location, text@),
        category_list(text@, entity_views(entities@), Category::Location),
{
    extract_with_patterns(text, &catalog.locations, Category::Location)
}

/// E-mail addresses in `text`.
pub fn extract_emails(catalog: &PatternCatalog, text: &str) -> (entities: Vec<Entity>)
    ensures
        entity_views(entities@) == spec_extract(*catalog, Category::Email, text@),
        category_list(text@, entity_views(entities@), Category::Email),
{
    extract_with_patterns(text, &catalog.emails, Category::Email)
}

/// Phone numbers in `text`.
pub fn extract_phones(catalog: &PatternCatalog, text: &str) -> (entities: Vec<Entity>)
    ensures
        entity_views(entities@) == spec_extract(*catalog, Category::Phone, text@),
        category_list(text@, entity_views(entities@), Category::Phone),
{
    extract_with_patterns(text, &catalog.phones, Category::Phone)
}

/// Web addresses in `text`.
pub fn extract_urls(catalog: &PatternCatalog, text: &str) -> (entities: Vec<Entity>)
    ensures
        entity_views(entities@) == spec_extract(*catalog, Category::Url, text@),
        category_list(text@, entity_views(entities@), Category::Url),
{
    extract_with_patterns(text, &catalog.urls, Category::Url)
}

} // verus!
