use l_extract::categories::{
    acronym_list, contains_any_of, is_one_of, organization_name_passes, person_name_passes,
    stopword_list,
};
use l_extract::engine::{names_contain, requested};
use l_extract::entity::Category;
use l_extract::context::{
    context_end, context_snippet, context_start, step_back, step_forward,
};
use l_extract::extract::entity_from_span;
use l_extract::text::{chars_of, contains, contains_chars, cut, same_text};

#[test]
fn cutting_by_byte_offsets() {
    let text = "née Müller, 2024";
    assert_eq!(cut(text, 0, 4), "née");
    assert_eq!(cut(text, 5, 12), "Müller");
    assert_eq!(cut(text, 4, 4), "");
    assert_eq!(cut(text, 0, text.len()), text);
    assert_eq!(cut(text, 14, 18), "2024");
}

#[test]
fn substring_search() {
    assert!(contains("theodore", "the"));
    assert!(contains("mayer", "may"));
    assert!(contains("abc", ""));
    assert!(contains("", ""));
    assert!(contains("abc", "abc"));
    assert!(contains("xxabc", "abc"));
    assert!(!contains("abc", "abcd"));
    assert!(!contains("ab", "ba"));
    assert!(!contains("", "a"));
    assert!(contains("5 million", "million"));
    assert!(!contains("5 Million", "million"));
    assert!(contains("crème brûlée", "me brû"));
    assert!(!contains("crème", "e\u{300}"));
    assert!(contains_chars(&vec!['a', 'é', 'b'], &vec!['é', 'b']));
    assert!(!contains_chars(&vec!['a', 'é', 'b'], &vec!['a', 'b']));
}

#[test]
fn comparing_texts() {
    assert!(same_text("orgs", "orgs"));
    assert!(same_text("", ""));
    assert!(!same_text("orgs", "org"));
    assert!(!same_text("org", "orgs"));
    assert!(!same_text("FBI", "fbi"));
    assert_eq!(chars_of("a€b"), vec!['a', '€', 'b']);
    assert!(chars_of("").is_empty());
}

#[test]
fn word_lists() {
    assert_eq!(stopword_list().len(), 27);
    assert_eq!(acronym_list().len(), 13);
    assert!(contains_any_of("bill thesis", &stopword_list()));
    assert!(!contains_any_of("bill clinton", &stopword_list()));
    assert!(is_one_of("FBI", &acronym_list()));
    assert!(!is_one_of("fbi", &acronym_list()));
    assert!(!is_one_of("FB", &acronym_list()));
}

#[test]
fn person_candidates() {
    assert!(person_name_passes("Bill Clinton"));
    assert!(person_name_passes("Jeffrey Epstein"));
    assert!(!person_name_passes("This Monday"));
    assert!(!person_name_passes("Theodore Brown"));
    assert!(!person_name_passes("Anna Mayer"));
    assert!(!person_name_passes("WILL Smith"));
}

#[test]
fn organization_candidates() {
    assert!(organization_name_passes("FBI"));
    assert!(organization_name_passes("CEO"));
    assert!(!organization_name_passes("XYZ"));
    assert!(!organization_name_passes("AB"));
    assert!(organization_name_passes("NASA"));
    assert!(organization_name_passes("Acme Corp"));
    // Three characters, six bytes: the limit counts characters.
    assert!(!organization_name_passes("ÄÖÜ"));
    assert!(organization_name_passes("ÄÖÜß"));
}

#[test]
fn requested_names() {
    assert!(names_contain(&["dates", "orgs"], "orgs"));
    assert!(!names_contain(&["dates", "orgs"], "org"));
    assert!(!names_contain(&[], "dates"));
    assert!(requested(&["dates"], Category::Date));
    assert!(!requested(&["date"], Category::Date));
    assert!(requested(&["orgs"], Category::Organization));
    assert!(requested(&["organizations"], Category::Organization));
    assert!(!requested(&["orgs"], Category::Person));
    assert!(requested(&["persons"], Category::Person));
    assert!(requested(&["amounts"], Category::Amount));
    assert!(requested(&["locations"], Category::Location));
    assert!(requested(&["emails"], Category::Email));
    assert!(requested(&["phones"], Category::Phone));
    assert!(requested(&["urls"], Category::Url));
}

#[test]
fn snippets_and_entities_from_spans() {
    let text = "Paid on 2024-01-20.";
    assert_eq!(context_snippet(text, 8, 18), text);
    let long = format!("{}X{}", "l".repeat(70), "r".repeat(70));
    assert_eq!(
        context_snippet(&long, 70, 71),
        format!("{}X{}", "l".repeat(50), "r".repeat(50))
    );
    let entity = entity_from_span(text, Category::Date, 8, 18);
    assert_eq!(entity.value, "2024-01-20");
    assert_eq!((entity.start, entity.end), (8, 18));
    assert_eq!(entity.confidence, 85);
    assert_eq!(entity.context.as_deref(), Some(text));
    assert!(entity.amount.is_none());
    let email = entity_from_span("a@b.io", Category::Email, 0, 6);
    assert!(email.context.is_none());
    assert_eq!(email.confidence, 95);
}

#[test]
fn stepping_over_characters() {
    let text = "a€é😀z";
    // bytes: a 0..1, € 1..4, é 4..6, 😀 6..10, z 10..11
    assert_eq!(step_forward(text, 0), 1);
    assert_eq!(step_forward(text, 1), 4);
    assert_eq!(step_forward(text, 4), 6);
    assert_eq!(step_forward(text, 6), 10);
    assert_eq!(step_forward(text, 10), 11);
    assert_eq!(step_back(text, 11), 10);
    assert_eq!(step_back(text, 10), 6);
    assert_eq!(step_back(text, 6), 4);
    assert_eq!(step_back(text, 4), 1);
    assert_eq!(step_back(text, 1), 0);
}

#[test]
fn the_ends_of_a_context() {
    let text = format!("{}|{}", "é".repeat(60), "€".repeat(60));
    let bar = 120;
    assert_eq!(&text[bar..bar + 1], "|");
    assert_eq!(context_start(&text, bar), bar - 100);
    assert_eq!(context_end(&text, bar + 1), bar + 1 + 150);
    assert_eq!(context_start("abc", 2), 0);
    assert_eq!(context_end("abc", 2), 3);
    assert_eq!(context_start("abc", 0), 0);
    assert_eq!(context_end("abc", 3), 3);
}
