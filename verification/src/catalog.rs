//! The pattern catalogs: the rules of every category, in declared order.
//!
//! A catalog is built once and then only read; every extraction call takes it
//! by shared reference.

use crate::entity::Category;
use crate::pattern::{regex_compiles, PatternError, Rule};
use vstd::prelude::*;

verus! {

/// ISO dates: 2024-01-15.
pub const DATE_ISO: &'static str = r"\b(\d{4})-(\d{2})-(\d{2})\b";

/// US dates: 01/15/2024 or 1/15/24.
pub const DATE_US: &'static str = r"\b(\d{1,2})/(\d{1,2})/(\d{2,4})\b";

/// European dates: 15-01-2024 or 15.01.2024.
pub const DATE_EU: &'static str = r"\b(\d{1,2})[-.](\d{1,2})[-.](\d{2,4})\b";

/// Written dates: January 15, 2024 or Jan 15 2024.
pub const DATE_WRITTEN: &'static str =
    r"\b(Jan(?:uary)?|Feb(?:ruary)?|Mar(?:ch)?|Apr(?:il)?|May|June?|July?|Aug(?:ust)?|Sep(?:t(?:ember)?)?|Oct(?:ober)?|Nov(?:ember)?|Dec(?:ember)?)\s+(\d{1,2})(?:st|nd|rd|th)?,?\s*(\d{4})\b";

/// Month and year: January 2024.
pub const DATE_MONTH_YEAR: &'static str =
    r"\b(Jan(?:uary)?|Feb(?:ruary)?|Mar(?:ch)?|Apr(?:il)?|May|June?|July?|Aug(?:ust)?|Sep(?:t(?:ember)?)?|Oct(?:ober)?|Nov(?:ember)?|Dec(?:ember)?)\s+(\d{4})\b";

/// Full names: John Smith, John A. Smith, John Smith Jr.
pub const PERSON_FULL_NAME: &'static str =
    r"\b([A-Z][a-z]+(?:\s+[A-Z]\.?)?\s+[A-Z][a-z]+(?:\s+(?:Jr|Sr|III|IV|II)\.?)?)\b";

/// Honorific and name: Mr. John Smith, Dr. Jane Doe.
pub const PERSON_HONORIFIC: &'static str =
    r"\b((?:Mr|Mrs|Ms|Miss|Dr|Prof|Rev|Hon|Sir|Dame)\.?\s+[A-Z][a-z]+(?:\s+[A-Z][a-z]+)+)\b";

/// Last name first: Smith, John.
pub const PERSON_LAST_FIRST: &'static str = r"\b([A-Z][a-z]+,\s+[A-Z][a-z]+(?:\s+[A-Z]\.)?)\b";

/// Company names that end in a known suffix.
pub const ORG_SUFFIX: &'static str =
    r"\b([A-Z][A-Za-z]*(?:\s+[A-Z][A-Za-z]*)*\s+(?:Inc|Corp|LLC|Ltd|LLP|Co|Company|Corporation|Group|Holdings|Partners|Associates|Foundation|Institute|University|Bank|Trust|Fund|Capital|Ventures|International|Worldwide|Global)\.?)\b";

/// Phrases such as "The X Foundation".
pub const ORG_THE_PHRASE: &'static str =
    r"\b(The\s+[A-Z][A-Za-z]*(?:\s+[A-Z][A-Za-z]*)*\s+(?:Organization|Foundation|Institute|Association|Society|Council|Committee|Commission|Agency|Bureau|Department|Ministry))\b";

/// Bare acronyms: FBI, CIA, NSA.
pub const ORG_ACRONYM: &'static str = r"\b([A-Z]{2,6})\b";

/// Amounts with a leading currency symbol or code: $1,234.56.
pub const AMOUNT_SYMBOL: &'static str =
    r"(\$|USD|EUR|€|£|GBP|¥|JPY)\s*(\d{1,3}(?:,\d{3})*(?:\.\d{2})?)";

/// Amounts with a trailing currency code or word: 1,234.56 USD.
pub const AMOUNT_CODE: &'static str =
    r"(\d{1,3}(?:,\d{3})*(?:\.\d{2})?)\s*(USD|EUR|GBP|JPY|dollars?|euros?|pounds?)";

/// Scaled amounts with a leading symbol: $5.5 million.
pub const AMOUNT_SCALED_SYMBOL: &'static str =
    r"(\$|USD|EUR|€|£)\s*(\d+(?:\.\d+)?)\s*(million|billion|thousand|M|B|K)";

/// Scaled amounts with a trailing currency word: 5 million dollars.
pub const AMOUNT_SCALED_WORD: &'static str =
    r"(\d+(?:\.\d+)?)\s*(million|billion|thousand)\s*(dollars?|USD|euros?|EUR|pounds?|GBP)";

/// City and region: Austin, TX.
pub const LOCATION_CITY_REGION: &'static str =
    r"\b([A-Z][a-z]+(?:\s+[A-Z][a-z]+)*),\s*([A-Z]{2}|[A-Z][a-z]+(?:\s+[A-Z][a-z]+)*)\b";

/// A fixed gazetteer of known places.
pub const LOCATION_KNOWN: &'static str =
    r"\b(New York|Los Angeles|London|Paris|Tokyo|Hong Kong|Singapore|Dubai|Miami|Washington|Virgin Islands|Little St\.? James|Palm Beach|Manhattan|Florida|California|Texas)\b";

/// Street addresses: 12 Main Street.
pub const LOCATION_STREET: &'static str =
    r"\b(\d+\s+[A-Z][a-z]+(?:\s+[A-Z][a-z]+)*\s+(?:Street|St|Avenue|Ave|Road|Rd|Boulevard|Blvd|Drive|Dr|Lane|Ln|Court|Ct|Way|Place|Pl)\.?)\b";

/// E-mail addresses.
pub const EMAIL: &'static str = r"\b([A-Za-z0-9._%+-]+@[A-Za-z0-9.-]+\.[A-Za-z]{2,})\b";

/// North American phone numbers.
pub const PHONE: &'static str =
    r"(?:\+?1[-.\s]?)?\(?([0-9]{3})\)?[-.\s]?([0-9]{3})[-.\s]?([0-9]{4})";

/// Web addresses.
pub const URL: &'static str =
    r"https?://[A-Za-z0-9][-A-Za-z0-9+&@#/%?=~_|!:,.;]*[-A-Za-z0-9+&@#/%=~_|]";

/// The highlighter's person rule.
pub const MARK_PERSON: &'static str = r"\b([A-Z][a-z]+(?:\s+[A-Z]\.?)?\s+[A-Z][a-z]+)\b";

/// The highlighter's organization rule.
pub const MARK_ORGANIZATION: &'static str =
    r"\b([A-Z][A-Za-z]*(?:\s+[A-Z][A-Za-z]*)*\s+(?:Inc|Corp|LLC|Ltd|Foundation|Institute|Bank|Trust)\.?)\b";

/// The highlighter's amount rule.
pub const MARK_AMOUNT: &'static str =
    r"(\$\d{1,3}(?:,\d{3})*(?:\.\d{2})?(?:\s*(?:million|billion|M|B))?)";

/// The highlighter's date rule.
pub const MARK_DATE: &'static str =
    r"\b(\d{4}-\d{2}-\d{2}|\d{1,2}/\d{1,2}/\d{2,4}|(?:Jan|Feb|Mar|Apr|May|Jun|Jul|Aug|Sep|Oct|Nov|Dec)[a-z]*\s+\d{1,2},?\s*\d{4})\b";

/// The highlighter's location rule.
pub const MARK_LOCATION: &'static str =
    r"\b(New York|Los Angeles|London|Paris|Miami|Washington|Virgin Islands|Palm Beach|Manhattan|Florida|California)\b";

/// The highlighter's e-mail rule.
pub const MARK_EMAIL: &'static str = r"\b([A-Za-z0-9._%+-]+@[A-Za-z0-9.-]+\.[A-Za-z]{2,})\b";

/// The pattern texts of a list of patterns.
pub open spec fn sources_of(patterns: Seq<&'static str>) -> Seq<Seq<char>> {
    patterns.map_values(|p: &'static str| p@)
}

/// The extraction patterns of `category`, in declared order.
pub open spec fn standard_sources(category: Category) -> Seq<Seq<char>> {
    match category {
        Category::Date => seq![
            DATE_ISO@,
            DATE_US@,
            DATE_EU@,
            DATE_WRITTEN@,
            DATE_MONTH_YEAR@,
        ],
        Category::Person => seq![PERSON_FULL_NAME@, PERSON_HONORIFIC@, PERSON_LAST_FIRST@],
        Category::Organization => seq![ORG_SUFFIX@, ORG_THE_PHRASE@, ORG_ACRONYM@],
        Category::Amount => seq![
            AMOUNT_SYMBOL@,
            AMOUNT_CODE@,
            AMOUNT_SCALED_SYMBOL@,
            AMOUNT_SCALED_WORD@,
        ],
        Category::Location => seq![LOCATION_CITY_REGION@, LOCATION_KNOWN@, LOCATION_STREET@],
        Category::Email => seq![EMAIL@],
        Category::Phone => seq![PHONE@],
        Category::Url => seq![URL@],
    }
}

/// Every pattern of the list compiles.
pub open spec fn all_compile(sources: Seq<Seq<char>>) -> bool {
    forall|k: int| 0 <= k < sources.len() ==> regex_compiles(#[trigger] sources[k])
}

/// The pattern at `at` is the first of the list that does not compile.
pub open spec fn first_rejected(sources: Seq<Seq<char>>, at: int) -> bool {
    &&& 0 <= at < sources.len()
    &&& !regex_compiles(sources[at])
    &&& forall|j: int| 0 <= j < at ==> regex_compiles(#[trigger] sources[j])
}

/// The place of a category in the order in which catalogs are built.
pub open spec fn build_rank(category: Category) -> int {
    match category {
        Category::Date => 0,
        Category::Person => 1,
        Category::Organization => 2,
        Category::Amount => 3,
        Category::Location => 4,
        Category::Email => 5,
        Category::Phone => 6,
        Category::Url => 7,
    }
}

/// Every standard extraction pattern compiles.
pub open spec fn standard_sources_compile() -> bool {
    forall|category: Category| all_compile(#[trigger] standard_sources(category))
}

/// `pattern` is the standard extraction pattern on which building a catalog
/// stops: the first of its category that does not compile, where all
/// patterns of the categories built before compile.
pub open spec fn stops_standard_build(pattern: Seq<char>) -> bool {
    exists|category: Category, at: int|
        {
            &&& #[trigger] first_rejected(standard_sources(category), at)
            &&& standard_sources(category)[at] == pattern
            &&& forall|earlier: Category|
                build_rank(earlier) < build_rank(category) ==> all_compile(
                    #[trigger] standard_sources(earlier),
                )
        }
}

/// The extraction patterns of `category`, in declared order.
pub fn standard_patterns(category: Category) -> (patterns: Vec<&'static str>)
    ensures
        sources_of(patterns@) == standard_sources(category),
{
    let patterns = match category {
        Category::Date => vec![DATE_ISO, DATE_US, DATE_EU, DATE_WRITTEN, DATE_MONTH_YEAR],
        Category::Person => vec![PERSON_FULL_NAME, PERSON_HONORIFIC, PERSON_LAST_FIRST],
        Category::Organization => vec![ORG_SUFFIX, ORG_THE_PHRASE, ORG_ACRONYM],
        Category::Amount => vec![
            AMOUNT_SYMBOL,
            AMOUNT_CODE,
            AMOUNT_SCALED_SYMBOL,
            AMOUNT_SCALED_WORD,
        ],
        Category::Location => vec![LOCATION_CITY_REGION, LOCATION_KNOWN, LOCATION_STREET],
        Category::Email => vec![EMAIL],
        Category::Phone => vec![PHONE],
        Category::Url => vec![URL],
    };
    assert(sources_of(patterns@) =~= standard_sources(category));
    patterns
}

/// The highlighter's patterns in the order in which it scans them: person,
/// organization, amount, date, location, e-mail.
pub open spec fn marker_sources() -> Seq<Seq<char>> {
    seq![
        MARK_PERSON@,
        MARK_ORGANIZATION@,
        MARK_AMOUNT@,
        MARK_DATE@,
        MARK_LOCATION@,
        MARK_EMAIL@,
    ]
}

/// `rules` are compiled from `sources`, one for one, each with the
/// designated group `group`.
pub open spec fn compiled_from(rules: Seq<Rule>, sources: Seq<Seq<char>>, group: usize) -> bool {
    &&& rules.len() == sources.len()
    &&& forall|i: int|
        0 <= i < rules.len() ==> (#[trigger] rules[i]).source() == sources[i]
            && rules[i].designated_group() == group
}

/// Compiles `patterns` in order, each with the designated group `group`. It
/// succeeds exactly when every pattern compiles; otherwise the error names
/// the first pattern that does not.
pub fn compile_rules(patterns: &Vec<&'static str>, group: usize) -> (result: Result<
    Vec<Rule>,
    PatternError,
>)
    ensures
        result is Ok <==> all_compile(sources_of(patterns@)),
        result matches Ok(rules) ==> compiled_from(rules@, sources_of(patterns@), group),
        result matches Err(e) ==> exists|at: int| #[trigger]
            first_rejected(sources_of(patterns@), at) && sources_of(patterns@)[at] == e.pattern@,
{
    let mut rules: Vec<Rule> = Vec::new();
    let mut i: usize = 0;
    while i < patterns.len()
        invariant
            i <= patterns@.len(),
            compiled_from(rules@, sources_of(patterns@).take(i as int), group),
            forall|j: int| 0 <= j < i ==> regex_compiles(#[trigger] sources_of(patterns@)[j]),
        decreases patterns@.len() - i,
    {
        match Rule::compile(patterns[i], group) {
            Ok(rule) => {
                rules.push(rule);
            },
            Err(e) => {
                assert(sources_of(patterns@)[i as int] == e.pattern@);
                assert(first_rejected(sources_of(patterns@), i as int));
                return Err(e);
            },
        }
        i += 1;
    }
    assert(sources_of(patterns@).take(i as int) =~= sources_of(patterns@));
    Ok(rules)
}

/// Where the patterns of the categories built before `category` compile and
/// one of its own does not, building stops on the first of these.
proof fn lemma_build_stops(category: Category, pattern: Seq<char>)
    requires
        exists|at: int| #[trigger]
            first_rejected(standard_sources(category), at) && standard_sources(category)[at]
                == pattern,
        forall|earlier: Category|
            build_rank(earlier) < build_rank(category) ==> all_compile(
                #[trigger] standard_sources(earlier),
            ),
    ensures
        stops_standard_build(pattern),
        !standard_sources_compile(),
{
    let at = choose|at: int| #[trigger]
        first_rejected(standard_sources(category), at) && standard_sources(category)[at]
            == pattern;
    assert(first_rejected(standard_sources(category), at));
    assert(!all_compile(standard_sources(category)));
}

/// The extraction rules of the eight categories.
#[derive(Debug)]
pub struct PatternCatalog {
    pub dates: Vec<Rule>,
    pub persons: Vec<Rule>,
    pub organizations: Vec<Rule>,
    pub amounts: Vec<Rule>,
    pub locations: Vec<Rule>,
    pub emails: Vec<Rule>,
    pub phones: Vec<Rule>,
    pub urls: Vec<Rule>,
}

impl PatternCatalog {
    /// The rules of `category`, in declared order.
    pub open spec fn spec_rules(&self, category: Category) -> Seq<Rule> {
        match category {
            Category::Date => self.dates@,
            Category::Person => self.persons@,
            Category::Organization => self.organizations@,
            Category::Amount => self.amounts@,
            Category::Location => self.locations@,
            Category::Email => self.emails@,
            Category::Phone => self.phones@,
            Category::Url => self.urls@,
        }
    }

    /// The catalog holds the standard patterns, each designating its whole
    /// match.
    pub open spec fn is_standard(&self) -> bool {
        forall|category: Category|
            compiled_from(#[trigger] self.spec_rules(category), standard_sources(category), 0)
    }

    /// The rules of `category`, in declared order.
    pub fn rules(&self, category: Category) -> (rules: &Vec<Rule>)
        ensures
            rules@ == self.spec_rules(category),
    {
        match category {
            Category::Date => &self.dates,
            Category::Person => &self.persons,
            Category::Organization => &self.organizations,
            Category::Amount => &self.amounts,
            Category::Location => &self.locations,
            Category::Email => &self.emails,
            Category::Phone => &self.phones,
            Category::Url => &self.urls,
        }
    }

    /// Compiles the standard patterns of `category`. It succeeds exactly
    /// when all of them compile; otherwise the error names the first that
    /// does not.
    fn compile_category(category: Category) -> (result: Result<Vec<Rule>, PatternError>)
        ensures
            result is Ok <==> all_compile(standard_sources(category)),
            result matches Ok(rules) ==> compiled_from(rules@, standard_sources(category), 0),
            result matches Err(e) ==> exists|at: int| #[trigger]
                first_rejected(standard_sources(category), at) && standard_sources(category)[at]
                    == e.pattern@,
    {
        let patterns = standard_patterns(category);
        compile_rules(&patterns, 0)
    }

    /// Builds the standard catalog, category by category. It succeeds
    /// exactly when every standard pattern compiles; otherwise the error
    /// names the first pattern, in the order of building, that does not.
    pub fn new() -> (result: Result<PatternCatalog, PatternError>)
        ensures
            result is Ok <==> standard_sources_compile(),
            result matches Ok(catalog) ==> catalog.is_standard(),
            result matches Err(e) ==> stops_standard_build(e.pattern@),
    {
        let dates = match Self::compile_category(Category::Date) {
            Ok(rules) => rules,
            Err(e) => {
                proof {
                    lemma_build_stops(Category::Date, e.pattern@);
                }
                return Err(e);
            },
        };
        let persons = match Self::compile_category(Category::Person) {
            Ok(rules) => rules,
            Err(e) => {
                proof {
                    lemma_build_stops(Category::Person, e.pattern@);
                }
                return Err(e);
            },
        };
        let organizations = match Self::compile_category(Category::Organization) {
            Ok(rules) => rules,
            Err(e) => {
                proof {
                    lemma_build_stops(Category::Organization, e.pattern@);
                }
                return Err(e);
            },
        };
        let amounts = match Self::compile_category(Category::Amount) {
            Ok(rules) => rules,
            Err(e) => {
                proof {
                    lemma_build_stops(Category::Amount, e.pattern@);
                }
                return Err(e);
            },
        };
        let locations = match Self::compile_category(Category::Location) {
            Ok(rules) => rules,
            Err(e) => {
                proof {
                    lemma_build_stops(Category::Location, e.pattern@);
                }
                return Err(e);
            },
        };
        let emails = match Self::compile_category(Category::Email) {
            Ok(rules) => rules,
            Err(e) => {
                proof {
                    lemma_build_stops(Category::Email, e.pattern@);
                }
                return Err(e);
            },
        };
        let phones = match Self::compile_category(Category::Phone) {
            Ok(rules) => rules,
            Err(e) => {
                proof {
                    lemma_build_stops(Category::Phone, e.pattern@);
                }
                return Err(e);
            },
        };
        let urls = match Self::compile_category(Category::Url) {
            Ok(rules) => rules,
            Err(e) => {
                proof {
                    lemma_build_stops(Category::Url, e.pattern@);
                }
                return Err(e);
            },
        };
        proof {
            assert forall|category: Category| all_compile(
                #[trigger] standard_sources(category),
            ) by {
                match category {
                    Category::Date => {},
                    Category::Person => {},
                    Category::Organization => {},
                    Category::Amount => {},
                    Category::Location => {},
                    Category::Email => {},
                    Category::Phone => {},
                    Category::Url => {},
                }
            }
        }
        Ok(
            PatternCatalog {
                dates,
                persons,
                organizations,
                amounts,
                locations,
                emails,
                phones,
                urls,
            },
        )
    }
}

/// The highlighter's rules: one per marked category, each designating its
/// first capture group.
#[derive(Debug)]
pub struct HighlightCatalog {
    pub person: Rule,
    pub organization: Rule,
    pub amount: Rule,
    pub date: Rule,
    pub location: Rule,
    pub email: Rule,
}

impl HighlightCatalog {
    /// The rules in the order in which the highlighter scans them.
    pub open spec fn spec_rules(&self) -> Seq<Rule> {
        seq![self.person, self.organization, self.amount, self.date, self.location, self.email]
    }

    /// The catalog holds the highlighter's standard patterns, each
    /// designating its first capture group.
    pub open spec fn is_standard(&self) -> bool {
        compiled_from(self.spec_rules(), marker_sources(), 1)
    }

    /// Compiles the highlighter's pattern at place `at` of
    /// [`marker_sources`], where those before it compile.
    fn compile_marker(pattern: &'static str, at: usize) -> (result: Result<Rule, PatternError>)
        requires
            at < marker_sources().len(),
            marker_sources()[at as int] == pattern@,
            forall|j: int| 0 <= j < at ==> regex_compiles(#[trigger] marker_sources()[j]),
        ensures
            result is Ok <==> regex_compiles(pattern@),
            result matches Ok(rule) ==> rule.source() == pattern@ && rule.designated_group() == 1,
            result matches Err(e) ==> first_rejected(marker_sources(), at as int)
                && marker_sources()[at as int] == e.pattern@,
    {
        Rule::compile(pattern, 1)
    }

    /// Builds the highlighter's standard catalog, pattern by pattern. It
    /// succeeds exactly when every one of its patterns compiles; otherwise
    /// the error names the first that does not.
    pub fn new() -> (result: Result<HighlightCatalog, PatternError>)
        ensures
            result is Ok <==> all_compile(marker_sources()),
            result matches Ok(catalog) ==> catalog.is_standard(),
            result matches Err(e) ==> exists|at: int| #[trigger]
                first_rejected(marker_sources(), at) && marker_sources()[at] == e.pattern@,
    {
        let person = match Self::compile_marker(MARK_PERSON, 0) {
            Ok(rule) => rule,
            Err(e) => { return Err(e); },
        };
        let organization = match Self::compile_marker(MARK_ORGANIZATION, 1) {
            Ok(rule) => rule,
            Err(e) => { return Err(e); },
        };
        let amount = match Self::compile_marker(MARK_AMOUNT, 2) {
            Ok(rule) => rule,
            Err(e) => { return Err(e); },
        };
        let date = match Self::compile_marker(MARK_DATE, 3) {
            Ok(rule) => rule,
            Err(e) => { return Err(e); },
        };
        let location = match Self::compile_marker(MARK_LOCATION, 4) {
            Ok(rule) => rule,
            Err(e) => { return Err(e); },
        };
        let email = match Self::compile_marker(MARK_EMAIL, 5) {
            Ok(rule) => rule,
            Err(e) => { return Err(e); },
        };
        Ok(HighlightCatalog { person, organization, amount, date, location, email })
    }
}

} // verus!
