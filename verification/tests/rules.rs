use l_extract::catalog::{
    compile_rules, standard_patterns, HighlightCatalog, PatternCatalog, DATE_ISO, EMAIL,
    MARK_AMOUNT, MARK_DATE, MARK_EMAIL, MARK_LOCATION, MARK_ORGANIZATION, MARK_PERSON,
};
use l_extract::entity::Category;
use l_extract::extract::{extract_with_patterns, Selection};
use l_extract::pattern::Rule;

#[test]
fn a_rule_reports_the_spans_of_its_designated_group() {
    let whole = Rule::compile(r"(\w+)@(\w+)", 0).ok().unwrap();
    let user = Rule::compile(r"(\w+)@(\w+)", 1).ok().unwrap();
    let host = Rule::compile(r"(\w+)@(\w+)", 2).ok().unwrap();
    let text = "to ann@home and bob@work";
    assert_eq!(whole.scan(text), vec![Some((3, 11)), Some((16, 24))]);
    assert_eq!(user.scan(text), vec![Some((3, 6)), Some((16, 19))]);
    assert_eq!(host.scan(text), vec![Some((7, 11)), Some((20, 24))]);
    assert!(whole.scan("nothing here").is_empty());
}

#[test]
fn a_group_that_took_no_part_is_reported_as_absent() {
    let rule = Rule::compile(r"(a)|b", 1).ok().unwrap();
    assert_eq!(rule.scan("ab"), vec![Some((0, 1)), None]);
    let found = extract_with_patterns("ab", &vec![rule], Category::Person);
    assert_eq!(found.len(), 1);
    assert_eq!(found[0].value, "a");
}

#[test]
fn empty_matches_yield_no_entity() {
    let rule = Rule::compile(r"x*", 0).ok().unwrap();
    assert_eq!(rule.scan("ax"), vec![Some((0, 0)), Some((1, 2))]);
    let found = extract_with_patterns("ax", &vec![rule], Category::Person);
    assert_eq!(found.len(), 1);
    assert_eq!((found[0].start, found[0].end), (1, 2));
}

#[test]
fn spans_are_byte_offsets_on_character_boundaries() {
    let rule = Rule::compile(r"\p{Greek}+", 0).ok().unwrap();
    let text = "Greek: αβγδ";
    assert_eq!(rule.scan(text), vec![Some((7, 15))]);
    let found = extract_with_patterns(text, &vec![rule], Category::Location);
    assert_eq!(found[0].value, "αβγδ");
    assert_eq!(found[0].context.as_deref(), Some(text));
}

#[test]
fn a_pattern_that_does_not_compile_is_named_in_the_error() {
    let error = Rule::compile(r"foo(bar", 0).err().unwrap();
    assert_eq!(error.pattern, r"foo(bar");
    assert!(!error.message.is_empty());
    assert!(error.message.contains("unclosed group"));
    let too_big = Rule::compile(r"\w{1000}", 0).err().unwrap();
    assert_eq!(too_big.pattern, r"\w{1000}");
}

#[test]
fn compiling_stops_at_the_first_bad_pattern() {
    let error = compile_rules(&vec![DATE_ISO, "(", EMAIL, ")"], 0).err().unwrap();
    assert_eq!(error.pattern, "(");
    let rules = compile_rules(&vec![DATE_ISO, EMAIL], 0).ok().unwrap();
    assert_eq!(rules.len(), 2);
    assert_eq!(rules[0].scan("on 2024-01-15"), vec![Some((3, 13))]);
    assert_eq!(rules[1].scan("on 2024-01-15"), vec![]);
}

#[test]
fn the_catalog_holds_the_declared_number_of_rules() {
    let catalog = PatternCatalog::new().ok().unwrap();
    assert_eq!(catalog.dates.len(), 5);
    assert_eq!(catalog.persons.len(), 3);
    assert_eq!(catalog.organizations.len(), 3);
    assert_eq!(catalog.amounts.len(), 4);
    assert_eq!(catalog.locations.len(), 3);
    assert_eq!(catalog.emails.len(), 1);
    assert_eq!(catalog.phones.len(), 1);
    assert_eq!(catalog.urls.len(), 1);
    assert_eq!(catalog.rules(Category::Amount).len(), 4);
    assert_eq!(standard_patterns(Category::Date).len(), 5);
    assert_eq!(standard_patterns(Category::Date)[0], DATE_ISO);
    assert_eq!(standard_patterns(Category::Email), vec![EMAIL]);
}

#[test]
fn the_highlighter_rules_designate_their_first_group() {
    let catalog = HighlightCatalog::new().ok().unwrap();
    assert_eq!(catalog.person.scan("Carl Jones"), vec![Some((0, 10))]);
    assert_eq!(catalog.amount.scan("about $5 million"), vec![Some((6, 16))]);
    assert_eq!(catalog.date.scan("on 1/2/2024"), vec![Some((3, 11))]);
    assert_eq!(catalog.location.scan("in Miami"), vec![Some((3, 8))]);
    assert_eq!(catalog.email.scan("a@b.io"), vec![Some((0, 6))]);
    assert_eq!(catalog.organization.scan("at Acme Corp"), vec![Some((3, 12))]);
}

#[test]
fn categories_have_fixed_tags_classes_and_confidence() {
    let all = [
        (Category::Date, "date", "entity-date", 85, true),
        (Category::Person, "person", "entity-person", 75, true),
        (Category::Organization, "organization", "entity-org", 80, true),
        (Category::Amount, "amount", "entity-amount", 90, true),
        (Category::Location, "location", "entity-location", 70, true),
        (Category::Email, "email", "entity-email", 95, false),
        (Category::Phone, "phone", "entity-phone", 80, false),
        (Category::Url, "url", "entity-url", 95, false),
    ];
    for (category, tag, class, confidence, context) in all {
        assert_eq!(category.tag(), tag);
        assert_eq!(category.style_class(), class);
        assert_eq!(category.confidence(), confidence);
        assert_eq!(category.has_context(), context);
    }
}

#[test]
fn the_outcome_of_a_compilation_becomes_a_rule_or_an_error() {
    let rule = Rule::from_compiled(regex::Regex::new(r"\d+"), r"\d+", 0).ok().unwrap();
    assert_eq!(rule.scan("a 12 b 345"), vec![Some((2, 4)), Some((7, 10))]);
    let error = Rule::from_compiled(regex::Regex::new(r"["), r"[", 0).err().unwrap();
    assert_eq!(error.pattern, "[");
    assert!(!error.message.is_empty());
}

#[test]
fn a_rule_knows_its_pattern_and_group() {
    let rule = Rule::compile(r"(\w+)@(\w+)", 2).ok().unwrap();
    assert_eq!(rule.pattern(), r"(\w+)@(\w+)");
    assert_eq!(rule.group(), 2);
}

#[test]
fn the_catalogs_hold_the_standard_patterns() {
    let catalog = PatternCatalog::new().ok().unwrap();
    let categories = [
        Category::Date,
        Category::Person,
        Category::Organization,
        Category::Amount,
        Category::Location,
        Category::Email,
        Category::Phone,
        Category::Url,
    ];
    for category in categories {
        let patterns = standard_patterns(category);
        let rules = catalog.rules(category);
        assert_eq!(rules.len(), patterns.len());
        for (rule, pattern) in rules.iter().zip(patterns.iter()) {
            assert_eq!(rule.pattern(), *pattern);
            assert_eq!(rule.group(), 0);
        }
    }
    let marks = HighlightCatalog::new().ok().unwrap();
    let marked = [
        (&marks.person, MARK_PERSON),
        (&marks.organization, MARK_ORGANIZATION),
        (&marks.amount, MARK_AMOUNT),
        (&marks.date, MARK_DATE),
        (&marks.location, MARK_LOCATION),
        (&marks.email, MARK_EMAIL),
    ];
    for (rule, pattern) in marked {
        assert_eq!(rule.pattern(), pattern);
        assert_eq!(rule.group(), 1);
    }
}

#[test]
fn a_scan_is_taken_into_a_selection() {
    let text = "ab AB cd";
    let mut selection = Selection::new();
    assert!(selection.entities.is_empty() && selection.spans.is_empty());
    let first = vec![Some((0, 2)), None, Some((3, 5)), Some((6, 6)), Some((6, 8))];
    selection.absorb_scan(text, Category::Person, &first);
    assert_eq!(selection.spans, vec![(0, 2), (6, 8)]);
    assert_eq!(selection.keys, vec!["ab", "cd"]);
    let values: Vec<&str> = selection.entities.iter().map(|e| e.value.as_str()).collect();
    assert_eq!(values, vec!["ab", "cd"]);
    // A second scan adds only what the first has not seen.
    let second = vec![Some((3, 5)), Some((2, 3)), Some((6, 8))];
    selection.absorb_scan(text, Category::Person, &second);
    assert_eq!(selection.spans, vec![(0, 2), (6, 8), (2, 3)]);
    assert_eq!(selection.entities[2].value, " ");
    assert_eq!(selection.entities[2].category, Category::Person);
    // An empty scan changes nothing.
    selection.absorb_scan(text, Category::Person, &Vec::new());
    assert_eq!(selection.spans.len(), 3);
}
