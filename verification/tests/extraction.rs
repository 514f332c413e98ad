use l_extract::catalog::PatternCatalog;
use l_extract::categories::{
    extract_amounts, extract_dates, extract_emails, extract_locations, extract_organizations,
    extract_persons, extract_phones, extract_urls,
};
use l_extract::engine::{
    extract_all, extract_batch, extract_types, low_millis, timed_lists, CategoryLists,
    ExtractionResult,
};
use l_extract::entity::{Category, Entity, Scale};
use l_extract::extract::extract_with_patterns;

fn catalog() -> PatternCatalog {
    PatternCatalog::new().ok().unwrap()
}

fn values(entities: &[Entity]) -> Vec<&str> {
    entities.iter().map(|e| e.value.as_str()).collect()
}

#[test]
fn test_date_extraction() {
    let text = "Meeting scheduled for January 15, 2024 and 2024-01-20";
    let result = extract_dates(&catalog(), text);
    assert!(result.len() >= 2);
}

#[test]
fn test_person_extraction() {
    let text = "Jeffrey Epstein met with Bill Clinton at the estate.";
    let result = extract_persons(&catalog(), text);
    assert!(result.iter().any(|e| e.value.contains("Epstein")));
}

#[test]
fn test_amount_extraction() {
    let text = "The transaction was $5.5 million USD and another $100,000";
    let result = extract_amounts(&catalog(), text);
    assert!(result.len() >= 2);
}

#[test]
fn test_parallel_extraction() {
    let text = "On January 15, 2024, Jeffrey Epstein transferred $5 million to Clinton Foundation in New York. Contact: jeff@example.com";
    let result = extract_all(&catalog(), text);
    assert!(result.dates.len() > 0);
    assert!(result.persons.len() > 0);
    assert!(result.amounts.len() > 0);
    assert!(result.emails.len() > 0);
}

#[test]
fn scan_keeps_first_occurrence_of_each_value() {
    let catalog = catalog();
    let text = "Seen 2024-01-20, again 2024-01-20, then 2023-12-31.";
    let found = extract_with_patterns(text, &catalog.dates, Category::Date);
    assert_eq!(values(&found), vec!["2024-01-20", "2023-12-31"]);
    assert_eq!((found[0].start, found[0].end), (5, 15));
    assert_eq!(&text[found[1].start..found[1].end], "2023-12-31");
}

#[test]
fn dates_follow_rule_order_then_scan_order() {
    let text = "Meeting scheduled for January 15, 2024 and 2024-01-20";
    let found = extract_dates(&catalog(), text);
    assert_eq!(values(&found), vec!["2024-01-20", "January 15, 2024"]);
    assert_eq!(found[0].category, Category::Date);
    assert_eq!(found[0].confidence, 85);
    assert_eq!(found[1].start, 22);
    assert_eq!(found[1].end, 38);
}

#[test]
fn persons_contain_both_names() {
    let text = "Jeffrey Epstein met with Bill Clinton at the estate.";
    let found = extract_persons(&catalog(), text);
    assert_eq!(values(&found), vec!["Jeffrey Epstein", "Bill Clinton"]);
    assert_eq!(found[0].confidence, 75);
}

#[test]
fn person_filter_rejects_a_stopword_inside_a_word() {
    // "Theodore" holds "the", "Mayer" holds "may": both are dropped although
    // neither is the stopword as a word of its own.
    let found = extract_persons(&catalog(), "Theodore Brown wrote to Anna Mayer and Carl Jones.");
    assert_eq!(values(&found), vec!["Carl Jones"]);
}

#[test]
fn person_values_are_unique_in_lowercase() {
    let found = extract_persons(&catalog(), "Carl Jones, Carl Jones and Dr. Carl Jones");
    let lowered: Vec<String> = found.iter().map(|e| e.value.to_lowercase()).collect();
    for i in 0..lowered.len() {
        for j in (i + 1)..lowered.len() {
            assert_ne!(lowered[i], lowered[j]);
        }
    }
    assert_eq!(found[0].value, "Carl Jones");
    assert_eq!(found[0].start, 0);
}

#[test]
fn short_acronyms_need_to_be_known() {
    let found = extract_organizations(&catalog(), "The FBI and the XYZ met NASA at Acme Corp.");
    assert_eq!(values(&found), vec!["Acme Corp", "FBI", "NASA"]);
    assert_eq!(found[0].confidence, 80);
}

#[test]
fn amounts_are_normalized() {
    let text = "The transaction was $5.5 million USD and another $100,000";
    let found = extract_amounts(&catalog(), text);
    assert_eq!(values(&found), vec!["$5", "$100,000", "$5.5 million", "5.5 million USD"]);
    let scaled = found.iter().find(|e| e.value == "$5.5 million").unwrap();
    let amount = scaled.amount.as_ref().unwrap();
    assert_eq!(amount.numeric, "5.5");
    assert_eq!(amount.scale, Scale::Million);
    let number: f64 = amount.numeric.parse::<f64>().unwrap() * amount.scale.factor() as f64;
    assert_eq!(number, 5_500_000.0);
    let suffixed = found[3].amount.as_ref().unwrap();
    assert_eq!(suffixed.numeric, "5.5");
    assert_eq!(suffixed.scale, Scale::Million);
    let plain = found[1].amount.as_ref().unwrap();
    assert_eq!(plain.numeric, "100000");
    assert_eq!(plain.scale, Scale::Unit);
    assert_eq!(found[1].confidence, 90);
}

#[test]
fn context_is_clipped_to_the_text() {
    let text = "Paid on 2024-01-20.";
    let found = extract_dates(&catalog(), text);
    assert_eq!(found.len(), 1);
    assert_eq!(found[0].context.as_deref(), Some(text));
}

#[test]
fn context_holds_fifty_characters_on_each_side() {
    let left = "a".repeat(60);
    let right = "b".repeat(60);
    let text = format!("{} 2024-01-20 {}", left, right);
    let found = extract_dates(&catalog(), &text);
    assert_eq!(found.len(), 1);
    let expected = format!("{} 2024-01-20 {}", "a".repeat(49), "b".repeat(49));
    assert_eq!(found[0].context.as_deref(), Some(expected.as_str()));
}

#[test]
fn context_counts_characters_not_bytes() {
    let left = "é".repeat(60);
    let text = format!("{} 2024-01-20", left);
    let found = extract_dates(&catalog(), &text);
    assert_eq!(found.len(), 1);
    assert_eq!(found[0].start, 121);
    let expected = format!("{} 2024-01-20", "é".repeat(49));
    assert_eq!(found[0].context.as_deref(), Some(expected.as_str()));
}

#[test]
fn emails_phones_and_urls_carry_no_context() {
    let catalog = catalog();
    let text = "Mail jeff@example.com, call 555-123-4567, see https://example.com/a?b=1.";
    let emails = extract_emails(&catalog, text);
    let phones = extract_phones(&catalog, text);
    let urls = extract_urls(&catalog, text);
    assert_eq!(values(&emails), vec!["jeff@example.com"]);
    assert_eq!(values(&phones), vec!["555-123-4567"]);
    assert_eq!(values(&urls), vec!["https://example.com/a?b=1"]);
    assert!(emails[0].context.is_none());
    assert!(phones[0].context.is_none());
    assert!(urls[0].context.is_none());
    assert_eq!(emails[0].confidence, 95);
    assert_eq!(phones[0].confidence, 80);
    assert_eq!(urls[0].confidence, 95);
}

#[test]
fn repeated_emails_are_reported_once() {
    let found = extract_emails(&catalog(), "jeff@example.com wrote to JEFF@example.com");
    assert_eq!(values(&found), vec!["jeff@example.com"]);
}

#[test]
fn locations_are_found() {
    let found = extract_locations(&catalog(), "He flew from Miami to Palm Beach.");
    assert_eq!(values(&found), vec!["Miami", "Palm Beach"]);
    assert_eq!(found[0].confidence, 70);
}

#[test]
fn every_entity_lies_in_the_text() {
    let text = "On January 15, 2024, Jeffrey Epstein paid £1,234.56 and €5 million to Acme Corp in New York.";
    let result = extract_all(&catalog(), text);
    let lists = [
        &result.dates,
        &result.persons,
        &result.organizations,
        &result.amounts,
        &result.locations,
        &result.emails,
        &result.phones,
        &result.urls,
    ];
    let mut seen = 0;
    for list in lists {
        for e in list.iter() {
            assert!(e.start < e.end && e.end <= text.len());
            assert_eq!(&text[e.start..e.end], e.value);
            seen += 1;
        }
    }
    assert!(seen > 0);
    assert_eq!(result.total_count, seen);
}

#[test]
fn all_four_categories_and_the_total() {
    let text = "On 2024-01-15 Carl Jones sent $100 to carl@example.com";
    let result = extract_all(&catalog(), text);
    assert!(!result.dates.is_empty());
    assert!(!result.persons.is_empty());
    assert!(!result.amounts.is_empty());
    assert!(!result.emails.is_empty());
    let sum = result.dates.len() + result.persons.len() + result.organizations.len()
        + result.amounts.len() + result.locations.len() + result.emails.len()
        + result.phones.len() + result.urls.len();
    assert_eq!(result.total_count, sum);
}

#[test]
fn empty_text_yields_nothing() {
    let result = extract_all(&catalog(), "");
    assert_eq!(result.total_count, 0);
    assert!(result.dates.is_empty() && result.urls.is_empty());
}

fn same_lists(a: &[Entity], b: &[Entity]) -> bool {
    a.len() == b.len()
        && a.iter().zip(b.iter()).all(|(x, y)| {
            x.value == y.value
                && x.category == y.category
                && x.start == y.start
                && x.end == y.end
                && x.confidence == y.confidence
                && x.context == y.context
                && x.amount.as_ref().map(|m| (m.numeric.clone(), m.scale))
                    == y.amount.as_ref().map(|m| (m.numeric.clone(), m.scale))
        })
}

#[test]
fn extracting_twice_gives_the_same_lists() {
    let catalog = catalog();
    let text = "On January 15, 2024, Jeffrey Epstein transferred $5 million to Clinton Foundation in New York. Contact: jeff@example.com";
    let first = extract_all(&catalog, text);
    let second = extract_all(&catalog, text);
    assert!(same_lists(&first.dates, &second.dates));
    assert!(same_lists(&first.persons, &second.persons));
    assert!(same_lists(&first.organizations, &second.organizations));
    assert!(same_lists(&first.amounts, &second.amounts));
    assert!(same_lists(&first.locations, &second.locations));
    assert!(same_lists(&first.emails, &second.emails));
    assert_eq!(first.total_count, second.total_count);
    assert!(first.total_count > 0);
}

#[test]
fn only_requested_types_are_extracted() {
    let catalog = catalog();
    let text = "On 2024-01-15 Carl Jones of Acme Corp sent $100 to carl@example.com";
    let result = extract_types(&catalog, text, &["dates", "orgs", "unknown"]);
    assert_eq!(values(&result.dates), vec!["2024-01-15"]);
    assert_eq!(values(&result.organizations), vec!["Acme Corp"]);
    assert!(result.persons.is_empty());
    assert!(result.amounts.is_empty());
    assert!(result.emails.is_empty());
    assert_eq!(result.total_count, 2);
    let long_name = extract_types(&catalog, text, &["organizations"]);
    assert_eq!(values(&long_name.organizations), vec!["Acme Corp"]);
    assert_eq!(long_name.total_count, 1);
    let none = extract_types(&catalog, text, &[]);
    assert_eq!(none.total_count, 0);
}

#[test]
fn batch_results_follow_the_input_order() {
    let catalog = catalog();
    let documents = ["Paid on 2024-01-15.", "", "Write to jeff@example.com", "Carl Jones in Miami"];
    let results = extract_batch(&catalog, &documents);
    assert_eq!(results.len(), documents.len());
    for (document, result) in documents.iter().zip(results.iter()) {
        let alone = extract_all(&catalog, document);
        assert!(same_lists(&alone.dates, &result.dates));
        assert!(same_lists(&alone.persons, &result.persons));
        assert!(same_lists(&alone.emails, &result.emails));
        assert!(same_lists(&alone.locations, &result.locations));
        assert_eq!(alone.total_count, result.total_count);
    }
    assert_eq!(values(&results[0].dates), vec!["2024-01-15"]);
    assert_eq!(results[1].total_count, 0);
    assert_eq!(values(&results[2].emails), vec!["jeff@example.com"]);
    assert_eq!(values(&results[3].locations), vec!["Miami"]);
}

#[test]
fn a_value_may_stand_in_two_categories() {
    let text = "He gave to Clinton Foundation.";
    let result = extract_all(&catalog(), text);
    assert_eq!(values(&result.persons), vec!["Clinton Foundation"]);
    assert_eq!(values(&result.organizations), vec!["Clinton Foundation"]);
    assert_eq!(result.total_count, 2);
}

#[test]
fn the_result_gives_each_list_by_category() {
    let result = extract_all(&catalog(), "On 2024-01-15 in Miami");
    assert_eq!(values(result.list(Category::Date)), vec!["2024-01-15"]);
    assert_eq!(values(result.list(Category::Location)), vec!["Miami"]);
    assert!(result.list(Category::Url).is_empty());
}

#[test]
fn a_result_is_assembled_from_its_lists() {
    let catalog = catalog();
    let text = "On 2024-01-15 Carl Jones wrote to carl@example.com";
    let lists = CategoryLists {
        dates: extract_dates(&catalog, text),
        persons: extract_persons(&catalog, text),
        organizations: Vec::new(),
        amounts: Vec::new(),
        locations: Vec::new(),
        emails: extract_emails(&catalog, text),
        phones: Vec::new(),
        urls: Vec::new(),
    };
    assert_eq!(lists.total(), 3);
    let result = ExtractionResult::assemble(lists, 7);
    assert_eq!(result.total_count, 3);
    assert_eq!(result.processing_time_ms, 7);
    assert_eq!(values(&result.dates), vec!["2024-01-15"]);
    assert_eq!(values(&result.persons), vec!["Carl Jones"]);
    assert_eq!(values(&result.emails), vec!["carl@example.com"]);
}

#[test]
fn milliseconds_are_cut_to_their_low_64_bits() {
    assert_eq!(low_millis(0), 0);
    assert_eq!(low_millis(1_500), 1_500);
    assert_eq!(low_millis(u64::MAX as u128), u64::MAX);
    assert_eq!(low_millis(u64::MAX as u128 + 1), 0);
    assert_eq!(low_millis((1u128 << 64) + 7), 7);
    assert_eq!(low_millis(u128::MAX), u64::MAX);
}

#[test]
fn the_time_taken_is_a_small_number_of_milliseconds() {
    let result = extract_all(&catalog(), "On 2024-01-15 in Miami");
    assert!(result.processing_time_ms < 20_000);
}

#[test]
fn the_lists_of_a_text_come_with_the_time_taken() {
    let catalog = catalog();
    let text = "On 2024-01-15 Carl Jones wrote to carl@example.com";
    let (lists, millis) = timed_lists(&catalog, text);
    assert_eq!(values(&lists.dates), vec!["2024-01-15"]);
    assert_eq!(values(&lists.persons), vec!["Carl Jones"]);
    assert_eq!(values(&lists.emails), vec!["carl@example.com"]);
    assert_eq!(lists.total(), 3);
    assert!(millis < 20_000);
}

#[test]
fn an_empty_batch_gives_no_results() {
    let results = extract_batch(&catalog(), &[]);
    assert!(results.is_empty());
}
