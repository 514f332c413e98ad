use l_extract::catalog::{HighlightCatalog, PatternCatalog};
use l_extract::engine::extract_all;
use l_extract::highlight::{count_entities, highlight_entities};

fn name(i: usize) -> String {
    let letters = ["a", "b", "c", "d", "e", "f", "g", "h", "i", "j"];
    let mut s = String::from("Z");
    let mut n = i;
    for _ in 0..4 {
        s.push_str(letters[n % 10]);
        n /= 10;
    }
    s
}

fn document(lines: usize) -> String {
    let mut text = String::new();
    for i in 0..lines {
        text.push_str(&format!(
            "On 2024-01-{:02} Carl {} of Acme{} Corp paid ${},000 in Miami & wrote to c{}@example.com.\n",
            1 + i % 28,
            name(i),
            name(i),
            100 + i % 900,
            i
        ));
    }
    text
}

#[test]
fn a_long_document_is_extracted() {
    let catalog = PatternCatalog::new().ok().unwrap();
    let text = document(2000);
    let result = extract_all(&catalog, &text);
    assert_eq!(result.dates.len(), 28);
    assert_eq!(result.emails.len(), 2000);
    assert_eq!(result.locations.len(), 1);
    assert_eq!(result.amounts.len(), 900);
    assert!(result.persons.len() >= 2000);
    assert!(result.organizations.len() >= 2000);
    let sum = result.dates.len() + result.persons.len() + result.organizations.len()
        + result.amounts.len() + result.locations.len() + result.emails.len()
        + result.phones.len() + result.urls.len();
    assert_eq!(result.total_count, sum);
    for e in result.persons.iter().chain(result.emails.iter()) {
        assert_eq!(&text[e.start..e.end], e.value);
    }
}

#[test]
fn a_long_document_is_highlighted() {
    let catalog = HighlightCatalog::new().ok().unwrap();
    let text = document(2000);
    let result = highlight_entities(&catalog, &text);
    assert_eq!(result.count, result.entities.len());
    assert!(result.count >= 5 * 2000);
    for pair in result.entities.windows(2) {
        assert!(pair[0].end <= pair[1].start);
    }
    let counts = count_entities(&catalog, &text);
    assert_eq!(counts.emails, 2000);
    assert_eq!(counts.dates, 2000);
    assert_eq!(counts.locations, 2000);
    assert!(
        counts.persons + counts.organizations + counts.amounts + counts.dates
            + counts.locations + counts.emails >= result.count
    );
}
