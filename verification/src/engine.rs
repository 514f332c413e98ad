//! The orchestrator and the batch runner: every category extractor run over
//! one text, or over each of many, and the results assembled.
//!
//! The extractors share nothing but the catalog and the text, both read-only,
//! so they are run as a fork-join; the lists of a result depend on the
//! catalog and the text alone.

use crate::catalog::PatternCatalog;
use crate::categories::{
    extract_amounts, extract_dates, extract_emails, extract_locations, extract_organizations,
    extract_persons, extract_phones, extract_urls, spec_extract,
};
use crate::entity::{category_list, entity_views, Category, Entity, EntityView};
use crate::text::same_text;
use rayon::iter::{IntoParallelRefIterator, ParallelIterator};
use std::time::{Duration, Instant};
use vstd::prelude::*;

verus! {

/// `std::time::Instant`, a reading of the monotonic clock. Nothing of its
/// inside is known here.
#[verifier::external_type_specification]
#[verifier::external_body]
pub struct ExInstant(std::time::Instant);

/// The entity lists of the eight categories.
#[derive(Clone, Debug)]
pub struct CategoryLists {
    pub dates: Vec<Entity>,
    pub persons: Vec<Entity>,
    pub organizations: Vec<Entity>,
    pub amounts: Vec<Entity>,
    pub locations: Vec<Entity>,
    pub emails: Vec<Entity>,
    pub phones: Vec<Entity>,
    pub urls: Vec<Entity>,
}

impl CategoryLists {
    /// The list of `category`.
    pub open spec fn spec_list(&self, category: Category) -> Seq<EntityView> {
        entity_views(
            match category {
                Category::Date => self.dates@,
                Category::Person => self.persons@,
                Category::Organization => self.organizations@,
                Category::Amount => self.amounts@,
                Category::Location => self.locations@,
                Category::Email => self.emails@,
                Category::Phone => self.phones@,
                Category::Url => self.urls@,
            },
        )
    }

    /// The number of entities over all eight lists.
    pub open spec fn spec_total(&self) -> nat {
        self.dates@.len() + self.persons@.len() + self.organizations@.len() + self.amounts@.len()
            + self.locations@.len() + self.emails@.len() + self.phones@.len() + self.urls@.len()
    }

    /// The number of entities over all eight lists, held at `usize::MAX`
    /// where the sum is beyond it.
    pub fn total(&self) -> (total: usize)
        ensures
            total == saturated(self.spec_total()),
    {
        self.dates.len().saturating_add(self.persons.len()).saturating_add(
            self.organizations.len(),
        ).saturating_add(self.amounts.len()).saturating_add(self.locations.len()).saturating_add(
            self.emails.len(),
        ).saturating_add(self.phones.len()).saturating_add(self.urls.len())
    }
}

/// A count held at `usize::MAX` where it is beyond it.
pub open spec fn saturated(count: nat) -> usize {
    if count <= usize::MAX {
        count as usize
    } else {
        usize::MAX
    }
}

/// The result of extracting from one text.
#[derive(Clone, Debug)]
pub struct ExtractionResult {
    pub dates: Vec<Entity>,
    pub persons: Vec<Entity>,
    pub organizations: Vec<Entity>,
    pub amounts: Vec<Entity>,
    pub locations: Vec<Entity>,
    pub emails: Vec<Entity>,
    pub phones: Vec<Entity>,
    pub urls: Vec<Entity>,
    /// The number of entities over all eight lists.
    pub total_count: usize,
    /// The wall-clock time the extraction took, in milliseconds.
    pub processing_time_ms: u64,
}

impl ExtractionResult {
    /// The list of `category`.
    pub open spec fn spec_list(&self, category: Category) -> Seq<EntityView> {
        entity_views(
            match category {
                Category::Date => self.dates@,
                Category::Person => self.persons@,
                Category::Organization => self.organizations@,
                Category::Amount => self.amounts@,
                Category::Location => self.locations@,
                Category::Email => self.emails@,
                Category::Phone => self.phones@,
                Category::Url => self.urls@,
            },
        )
    }

    /// The number of entities over all eight lists.
    pub open spec fn spec_total(&self) -> nat {
        self.dates@.len() + self.persons@.len() + self.organizations@.len() + self.amounts@.len()
            + self.locations@.len() + self.emails@.len() + self.phones@.len() + self.urls@.len()
    }

    /// The list of `category`.
    pub fn list(&self, category: Category) -> (list: &Vec<Entity>)
        ensures
            entity_views(list@) == self.spec_list(category),
    {
        match category {
            Category::Date => &self.dates,
            Category::Person => &self.persons,
            Category::Organization => &self.organizations,
            Category::Amount => &self.amounts,
            Category::Location => &self.locations,
            Category::Email => &self.emails,
            Category::Phone => &self.phones,
            Category::Url => &self.urls,
        }
    }

    /// Assembles a result from the eight lists and the time taken.
    pub fn assemble(lists: CategoryLists, processing_time_ms: u64) -> (result: ExtractionResult)
        ensures
            forall|category: Category|
                #[trigger] result.spec_list(category) == lists.spec_list(category),
            result.total_count == saturated(result.spec_total()),
            result.processing_time_ms == processing_time_ms,
    {
        let total_count = lists.total();
        ExtractionResult {
            dates: lists.dates,
            persons: lists.persons,
            organizations: lists.organizations,
            amounts: lists.amounts,
            locations: lists.locations,
            emails: lists.emails,
            phones: lists.phones,
            urls: lists.urls,
            total_count,
            processing_time_ms,
        }
    }
}

/// Calls `Instant::now`. Nothing is known of a reading of the clock.
#[verifier::external_body]
fn clock_now() -> (now: Instant) {
    Instant::now()
}

/// Calls `Instant::elapsed`. Nothing is known of the time that has passed.
#[verifier::external_body]
fn clock_elapsed(since: &Instant) -> (elapsed: Duration) {
    since.elapsed()
}

/// Calls `Duration::as_millis`, the whole milliseconds of a duration.
#[verifier::external_body]
fn duration_millis(duration: &Duration) -> (millis: u128) {
    duration.as_millis()
}

/// The milliseconds since `since` by the clock, as [`low_millis`] cuts them.
fn elapsed_ms(since: &Instant) -> (millis: u64) {
    let elapsed = clock_elapsed(since);
    low_millis(duration_millis(&elapsed))
}

/// The number of values that 64 bits can take.
pub open spec fn two_to_64() -> int {
    0x1_0000_0000_0000_0000
}

/// A count of milliseconds cut to its low 64 bits: the count itself where it
/// fits, which it does for any time span under 584 million years.
pub fn low_millis(millis: u128) -> (cut: u64)
    ensures
        cut as int == millis as int % two_to_64(),
        millis <= u64::MAX ==> cut == millis,
{
    #[verifier::truncate]
    let cut: u64 = millis as u64;
    assert(millis as u64 == (millis % 0x1_0000_0000_0000_0000u128) as u64) by (bit_vector);
    cut
}

/// `lists` are what the extractors of all eight categories return for
/// `text` under `catalog`.
pub open spec fn extracted_from(catalog: PatternCatalog, text: Seq<char>, lists: CategoryLists) -> bool {
    forall|category: Category|
        #![trigger lists.spec_list(category)]
        lists.spec_list(category) == spec_extract(catalog, category, text) && category_list(
            text,
            lists.spec_list(category),
            category,
        )
}

/// Runs the eight extractors as a tree of `rayon::join` calls. `join` runs
/// both of its closures, on rayon's global pool, and hands their results
/// back as a pair, whichever finished first; so every list is what its
/// extractor returns for the catalog and the text.
#[verifier::external_body]
fn fork_join(catalog: &PatternCatalog, text: &str) -> (lists: CategoryLists)
    ensures
        extracted_from(*catalog, text@, lists),
{
    let ((dates, persons), ((organizations, amounts), ((locations, emails), (phones, urls)))) =
        rayon::join(
        || rayon::join(|| extract_dates(catalog, text), || extract_persons(catalog, text)),
        || rayon::join(
            || rayon::join(|| extract_organizations(catalog, text), || extract_amounts(catalog, text)),
            || rayon::join(
                || rayon::join(|| extract_locations(catalog, text), || extract_emails(catalog, text)),
                || rayon::join(|| extract_phones(catalog, text), || extract_urls(catalog, text)),
            ),
        ),
    );
    CategoryLists { dates, persons, organizations, amounts, locations, emails, phones, urls }
}

/// `result` is an extraction of every category from `text` under `catalog`:
/// each list is what its extractor returns, and the count is their total.
pub open spec fn extraction_of(catalog: PatternCatalog, text: Seq<char>, result: ExtractionResult) -> bool {
    &&& forall|category: Category|
        #![trigger result.spec_list(category)]
        result.spec_list(category) == spec_extract(catalog, category, text) && category_list(
            text,
            result.spec_list(category),
            category,
        )
    &&& result.total_count == saturated(result.spec_total())
}

/// Runs the eight extractors over `text` and takes the time: the eight
/// lists, and the milliseconds that it took to make them.
pub fn timed_lists(catalog: &PatternCatalog, text: &str) -> (timed: (CategoryLists, u64))
    ensures
        extracted_from(*catalog, text@, timed.0),
{
    let started = clock_now();
    let lists = fork_join(catalog, text);
    let millis = elapsed_ms(&started);
    (lists, millis)
}

/// A result assembled from the lists that the extractors return for a text
/// is an extraction from that text.
pub proof fn lemma_assembled_is_extraction(
    catalog: PatternCatalog,
    text: Seq<char>,
    lists: CategoryLists,
    result: ExtractionResult,
)
    requires
        extracted_from(catalog, text, lists),
        forall|category: Category|
            #[trigger] result.spec_list(category) == lists.spec_list(category),
        result.total_count == saturated(result.spec_total()),
    ensures
        extraction_of(catalog, text, result),
{
    assert forall|category: Category|
        #![trigger result.spec_list(category)]
        result.spec_list(category) == spec_extract(catalog, category, text) && category_list(
            text,
            result.spec_list(category),
            category,
        ) by {
        assert(result.spec_list(category) == lists.spec_list(category));
    }
}

/// Extracts the entities of all eight categories from `text`.
pub fn extract_all(catalog: &PatternCatalog, text: &str) -> (result: ExtractionResult)
    ensures
        extraction_of(*catalog, text@, result),
{
    let (lists, millis) = timed_lists(catalog, text);
    let ghost given = lists;
    let result = ExtractionResult::assemble(lists, millis);
    proof {
        lemma_assembled_is_extraction(*catalog, text@, given, result);
    }
    result
}

/// Where the sum of the lengths of the eight lists fits the count, the count
/// of an extraction is that sum.
pub proof fn lemma_total_is_the_sum(
    catalog: PatternCatalog,
    text: Seq<char>,
    result: ExtractionResult,
)
    requires
        extraction_of(catalog, text, result),
        result.spec_total() <= usize::MAX,
    ensures
        result.total_count == result.dates@.len() + result.persons@.len()
            + result.organizations@.len() + result.amounts@.len() + result.locations@.len()
            + result.emails@.len() + result.phones@.len() + result.urls@.len(),
{
}

/// Two extractions from the same text under the same catalog agree in every
/// list and in the count. (They may differ in the time they took.)
pub proof fn lemma_extraction_is_determined(
    catalog: PatternCatalog,
    text: Seq<char>,
    first: ExtractionResult,
    second: ExtractionResult,
)
    requires
        extraction_of(catalog, text, first),
        extraction_of(catalog, text, second),
    ensures
        forall|category: Category|
            #![trigger first.spec_list(category)]
            #![trigger second.spec_list(category)]
            first.spec_list(category) == second.spec_list(category),
        first.total_count == second.total_count,
{
    assert forall|category: Category|
        #![trigger first.spec_list(category)]
        #![trigger second.spec_list(category)]
        first.spec_list(category) == second.spec_list(category) by {
        assert(first.spec_list(category) == spec_extract(catalog, category, text));
        assert(second.spec_list(category) == spec_extract(catalog, category, text));
    }
    lemma_total_from_lists(first);
    lemma_total_from_lists(second);
}

/// The total of a result is the sum of the lengths of its eight lists.
pub proof fn lemma_total_from_lists(result: ExtractionResult)
    ensures
        result.spec_total() == result.spec_list(Category::Date).len() + result.spec_list(
            Category::Person,
        ).len() + result.spec_list(Category::Organization).len() + result.spec_list(
            Category::Amount,
        ).len() + result.spec_list(Category::Location).len() + result.spec_list(
            Category::Email,
        ).len() + result.spec_list(Category::Phone).len() + result.spec_list(Category::Url).len(),
{
}

/// The name by which a category is requested.
pub open spec fn request_name(category: Category) -> Seq<char> {
    match category {
        Category::Date => "dates"@,
        Category::Person => "persons"@,
        Category::Organization => "organizations"@,
        Category::Amount => "amounts"@,
        Category::Location => "locations"@,
        Category::Email => "emails"@,
        Category::Phone => "phones"@,
        Category::Url => "urls"@,
    }
}

/// The texts of a list of names.
pub open spec fn names_of(names: Seq<&str>) -> Seq<Seq<char>> {
    names.map_values(|n: &str| n@)
}

/// `category` is requested by `names`: under its name, or for organizations
/// also under "orgs". Names that stand for no category request nothing.
pub open spec fn is_requested(names: Seq<Seq<char>>, category: Category) -> bool {
    names.contains(request_name(category)) || (category == Category::Organization
        && names.contains("orgs"@))
}

/// A name that stands for no category requests nothing: with or without it,
/// the same categories are requested.
pub proof fn lemma_unknown_name_is_ignored(
    names: Seq<Seq<char>>,
    name: Seq<char>,
    category: Category,
)
    requires
        forall|known: Category| #[trigger] request_name(known) != name,
        name != "orgs"@,
    ensures
        is_requested(names.push(name), category) == is_requested(names, category),
{
    let more = names.push(name);
    assert(request_name(category) != name);
    assert forall|wanted: Seq<char>| wanted != name implies (more.contains(wanted)
        == names.contains(wanted)) by {
        if names.contains(wanted) {
            let i = choose|i: int| 0 <= i < names.len() && names[i] == wanted;
            assert(more[i] == wanted);
        }
        if more.contains(wanted) {
            let i = choose|i: int| 0 <= i < more.len() && more[i] == wanted;
            assert(names[i] == wanted);
        }
    }
}

/// Whether `name` is one of `names`.
pub fn names_contain(names: &[&str], name: &str) -> (found: bool)
    ensures
        found == names_of(names@).contains(name@),
{
    let mut i: usize = 0;
    while i < names.len()
        invariant
            i <= names@.len(),
            forall|j: int| 0 <= j < i ==> names_of(names@)[j] != name@,
        decreases names@.len() - i,
    {
        if same_text(names[i], name) {
            assert(names_of(names@)[i as int] == name@);
            return true;
        }
        i += 1;
    }
    false
}

/// Whether `category` is requested by `names`.
pub fn requested(names: &[&str], category: Category) -> (yes: bool)
    ensures
        yes == is_requested(names_of(names@), category),
{
    let name = match category {
        Category::Date => "dates",
        Category::Person => "persons",
        Category::Organization => "organizations",
        Category::Amount => "amounts",
        Category::Location => "locations",
        Category::Email => "emails",
        Category::Phone => "phones",
        Category::Url => "urls",
    };
    if names_contain(names, name) {
        true
    } else {
        match category {
            Category::Organization => names_contain(names, "orgs"),
            _ => false,
        }
    }
}

/// `result` is an extraction from `text` of the categories that `names`
/// request: the list of a requested category is what its extractor returns,
/// every other list is empty, and the count is the total of the lists.
pub open spec fn extraction_of_types(
    catalog: PatternCatalog,
    text: Seq<char>,
    names: Seq<Seq<char>>,
    result: ExtractionResult,
) -> bool {
    &&& forall|category: Category|
        #![trigger result.spec_list(category)]
        result.spec_list(category) == (if is_requested(names, category) {
            spec_extract(catalog, category, text)
        } else {
            Seq::empty()
        }) && category_list(text, result.spec_list(category), category)
    &&& result.total_count == saturated(result.spec_total())
}

/// Extracts from `text` the entities of the categories that `types` names.
pub fn extract_types(catalog: &PatternCatalog, text: &str, types: &[&str]) -> (result:
    ExtractionResult)
    ensures
        extraction_of_types(*catalog, text@, names_of(types@), result),
{
    let started = clock_now();
    let dates = if requested(types, Category::Date) {
        extract_dates(catalog, text)
    } else {
        Vec::new()
    };
    let persons = if requested(types, Category::Person) {
        extract_persons(catalog, text)
    } else {
        Vec::new()
    };
    let organizations = if requested(types, Category::Organization) {
        extract_organizations(catalog, text)
    } else {
        Vec::new()
    };
    let amounts = if requested(types, Category::Amount) {
        extract_amounts(catalog, text)
    } else {
        Vec::new()
    };
    let locations = if requested(types, Category::Location) {
        extract_locations(catalog, text)
    } else {
        Vec::new()
    };
    let emails = if requested(types, Category::Email) {
        extract_emails(catalog, text)
    } else {
        Vec::new()
    };
    let phones = if requested(types, Category::Phone) {
        extract_phones(catalog, text)
    } else {
        Vec::new()
    };
    let urls = if requested(types, Category::Url) {
        extract_urls(catalog, text)
    } else {
        Vec::new()
    };
    let lists = CategoryLists {
        dates,
        persons,
        organizations,
        amounts,
        locations,
        emails,
        phones,
        urls,
    };
    let result = ExtractionResult::assemble(lists, elapsed_ms(&started));
    proof {
        assert forall|category: Category|
            #![trigger result.spec_list(category)]
            result.spec_list(category) == (if is_requested(names_of(types@), category) {
                spec_extract(*catalog, category, text@)
            } else {
                Seq::empty()
            }) && category_list(text@, result.spec_list(category), category) by {
            assert(result.spec_list(category) == lists.spec_list(category));
            assert(entity_views(Seq::<Entity>::empty()) =~= Seq::<EntityView>::empty());
        }
    }
    result
}

/// The texts of a list of documents.
pub open spec fn document_texts(documents: Seq<&str>) -> Seq<Seq<char>> {
    documents.map_values(|d: &str| d@)
}

/// `results` hold, position by position, an extraction from each of
/// `documents`.
pub open spec fn batch_of(
    catalog: PatternCatalog,
    documents: Seq<Seq<char>>,
    results: Seq<ExtractionResult>,
) -> bool {
    &&& results.len() == documents.len()
    &&& forall|i: int|
        0 <= i < results.len() ==> extraction_of(catalog, documents[i], #[trigger] results[i])
}

/// Every result of a batch agrees, in every list and in the count, with an
/// extraction from the document at its position alone.
pub proof fn lemma_batch_agrees_with_single(
    catalog: PatternCatalog,
    documents: Seq<Seq<char>>,
    results: Seq<ExtractionResult>,
    i: int,
    single: ExtractionResult,
)
    requires
        batch_of(catalog, documents, results),
        0 <= i < documents.len(),
        extraction_of(catalog, documents[i], single),
    ensures
        forall|category: Category|
            #![trigger results[i].spec_list(category)]
            #![trigger single.spec_list(category)]
            results[i].spec_list(category) == single.spec_list(category),
        results[i].total_count == single.total_count,
{
    lemma_extraction_is_determined(catalog, documents[i], results[i], single);
}

/// Maps [`timed_lists`] over the documents with rayon's `par_iter` and
/// `map`, and collects into a `Vec` with `collect`, which holds the items in
/// the order of the input whatever the order in which the documents were
/// finished; so the lists at each position are those of the document at that
/// position.
#[verifier::external_body]
fn parallel_map(catalog: &PatternCatalog, documents: &[&str]) -> (timed: Vec<(CategoryLists, u64)>)
    ensures
        timed@.len() == documents@.len(),
        forall|i: int|
            0 <= i < timed@.len() ==> extracted_from(
                *catalog,
                document_texts(documents@)[i],
                (#[trigger] timed@[i]).0,
            ),
{
    documents.par_iter().map(|document| timed_lists(catalog, document)).collect()
}

/// Extracts from every document, one result per document in the order of the
/// input: the documents are worked on side by side, and each result is
/// assembled from the lists of the document at its position.
pub fn extract_batch(catalog: &PatternCatalog, documents: &[&str]) -> (results: Vec<
    ExtractionResult,
>)
    ensures
        batch_of(*catalog, document_texts(documents@), results@),
{
    let timed = parallel_map(catalog, documents);
    let ghost texts = document_texts(documents@);
    let ghost all = timed@;
    let mut results: Vec<ExtractionResult> = Vec::new();
    for item in it: timed.into_iter()
        invariant
            it.seq() == all,
            all.len() == texts.len(),
            forall|i: int|
                0 <= i < all.len() ==> extracted_from(*catalog, texts[i], (#[trigger] all[i]).0),
            results@.len() == it.index(),
            forall|i: int|
                0 <= i < results@.len() ==> extraction_of(
                    *catalog,
                    texts[i],
                    #[trigger] results@[i],
                ),
    {
        let ghost at = it.index() as int;
        let (lists, millis) = item;
        let ghost given = lists;
        let result = ExtractionResult::assemble(lists, millis);
        proof {
            assert(given == all[at].0);
            lemma_assembled_is_extraction(*catalog, texts[at], given, result);
        }
        results.push(result);
    }
    results
}

} // verus!
