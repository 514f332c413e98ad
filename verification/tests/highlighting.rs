use l_extract::catalog::HighlightCatalog;
use l_extract::entity::Category;
use l_extract::highlight::{
    accepted_entities, accepted_matches, count_entities, extract_entities, highlight_entities,
    highlight_matches,
};
use l_extract::markup::{escape_html, render_markup};
use l_extract::overlap::{resolve_overlaps, select_matches, sort_matches, RawMatch};

fn catalog() -> HighlightCatalog {
    HighlightCatalog::new().ok().unwrap()
}

fn span(start: usize, end: usize, category: Category) -> RawMatch {
    RawMatch { start, end, category }
}

fn strip_tags(html: &str) -> String {
    let mut out = String::new();
    let mut inside = false;
    for c in html.chars() {
        if inside {
            if c == '>' {
                inside = false;
            }
        } else if c == '<' {
            inside = true;
        } else {
            out.push(c);
        }
    }
    out
}

fn unescape(escaped: &str) -> String {
    escaped
        .replace("&lt;", "<")
        .replace("&gt;", ">")
        .replace("&quot;", "\"")
        .replace("&#x27;", "'")
        .replace("&amp;", "&")
}

#[test]
fn the_five_characters_are_escaped() {
    assert_eq!(escape_html("a & b"), "a &amp; b");
    assert_eq!(escape_html("<i>\"x\"</i>"), "&lt;i&gt;&quot;x&quot;&lt;/i&gt;");
    assert_eq!(escape_html("it's"), "it&#x27;s");
    assert_eq!(escape_html("&amp;"), "&amp;amp;");
    assert_eq!(escape_html("plain é text"), "plain é text");
    assert_eq!(escape_html(""), "");
}

#[test]
fn sorting_is_by_start_and_stable() {
    let raw = vec![
        span(10, 12, Category::Person),
        span(3, 9, Category::Organization),
        span(10, 20, Category::Amount),
        span(0, 2, Category::Date),
        span(3, 4, Category::Location),
    ];
    let sorted = sort_matches(raw);
    assert_eq!(
        sorted,
        vec![
            span(0, 2, Category::Date),
            span(3, 9, Category::Organization),
            span(3, 4, Category::Location),
            span(10, 12, Category::Person),
            span(10, 20, Category::Amount),
        ]
    );
}

#[test]
fn selection_is_greedy_by_start() {
    // The long first match shuts out two short ones that would both fit.
    let sorted = vec![
        span(0, 10, Category::Person),
        span(2, 4, Category::Date),
        span(5, 7, Category::Amount),
        span(10, 12, Category::Location),
    ];
    let accepted = select_matches(&sorted);
    assert_eq!(accepted, vec![span(0, 10, Category::Person), span(10, 12, Category::Location)]);
}

#[test]
fn overlaps_are_resolved_in_favour_of_the_earlier_start() {
    let raw = vec![
        span(4, 8, Category::Person),
        span(6, 9, Category::Organization),
        span(0, 5, Category::Amount),
        span(8, 9, Category::Date),
    ];
    let accepted = resolve_overlaps(raw);
    assert_eq!(accepted, vec![span(0, 5, Category::Amount), span(6, 9, Category::Organization)]);
    assert!(resolve_overlaps(Vec::new()).is_empty());
}

#[test]
fn markup_wraps_each_span_and_escapes_the_rest() {
    let text = "A <b> Bob Ray & co";
    let html = render_markup(text, &vec![span(6, 13, Category::Person)], true);
    assert_eq!(
        html,
        "A &lt;b&gt; <span class=\"entity entity-person\" data-type=\"person\" title=\"person\">Bob Ray</span> &amp; co"
    );
    assert_eq!(render_markup("a < b", &Vec::new(), true), "a &lt; b");
}

#[test]
fn highlighting_marks_non_overlapping_spans() {
    let text = "Jeffrey Epstein paid $5 million to Clinton Foundation in New York on 2024-01-15.";
    let result = highlight_entities(&catalog(), text);
    assert_eq!(result.count, result.entities.len());
    let found: Vec<(&str, Category)> =
        result.entities.iter().map(|e| (e.text.as_str(), e.category)).collect();
    assert_eq!(
        found,
        vec![
            ("Jeffrey Epstein", Category::Person),
            ("$5 million", Category::Amount),
            ("Clinton Foundation", Category::Person),
            ("New York", Category::Person),
            ("2024-01-15", Category::Date),
        ]
    );
    for pair in result.entities.windows(2) {
        assert!(pair[0].start <= pair[1].start);
        assert!(pair[0].end <= pair[1].start);
    }
    for e in result.entities.iter() {
        assert!(e.start < e.end && e.end <= text.len());
        assert_eq!(&text[e.start..e.end], e.text);
    }
    assert!(result.html.starts_with(
        "<span class=\"entity entity-person\" data-type=\"person\" title=\"person\">Jeffrey Epstein</span> paid "
    ));
    assert!(result.html.contains(
        "<span class=\"entity entity-amount\" data-type=\"amount\" title=\"amount\">$5 million</span>"
    ));
}

#[test]
fn markup_gives_back_the_text() {
    let texts = [
        "Jeffrey Epstein paid $5 million to Clinton Foundation in New York on 2024-01-15.",
        "Tom & Jerry <tom@example.com> said \"it's 1/2/2024\" at Acme Corp's café",
        "",
        "<<>>&&''\"\"",
    ];
    let catalog = catalog();
    for text in texts {
        let result = highlight_entities(&catalog, text);
        assert_eq!(unescape(&strip_tags(&result.html)), text);
    }
}

#[test]
fn text_without_entities_is_only_escaped() {
    let result = highlight_entities(&catalog(), "a < b & c");
    assert_eq!(result.html, "a &lt; b &amp; c");
    assert_eq!(result.count, 0);
    assert!(result.entities.is_empty());
}

#[test]
fn raw_entities_come_category_by_category() {
    let text = "Jeffrey Epstein paid $5 million to Clinton Foundation in New York, jeff@example.com";
    let found = extract_entities(&catalog(), text);
    let listed: Vec<(&str, Category)> =
        found.iter().map(|e| (e.text.as_str(), e.category)).collect();
    assert_eq!(
        listed,
        vec![
            ("Jeffrey Epstein", Category::Person),
            ("Clinton Foundation", Category::Person),
            ("New York", Category::Person),
            ("Clinton Foundation", Category::Organization),
            ("$5 million", Category::Amount),
            ("New York", Category::Location),
            ("jeff@example.com", Category::Email),
        ]
    );
    for e in found.iter() {
        assert_eq!(&text[e.start..e.end], e.text);
    }
}

#[test]
fn counts_are_raw_and_may_count_a_span_twice() {
    let text = "Jeffrey Epstein paid $5 million to Clinton Foundation in New York, jeff@example.com";
    let counts = count_entities(&catalog(), text);
    assert_eq!(counts.persons, 3);
    assert_eq!(counts.organizations, 1);
    assert_eq!(counts.amounts, 1);
    assert_eq!(counts.dates, 0);
    assert_eq!(counts.locations, 1);
    assert_eq!(counts.emails, 1);
    let none = count_entities(&catalog(), "");
    assert_eq!(none.persons + none.organizations + none.amounts, 0);
}

#[test]
fn one_rule_is_marked_without_a_title() {
    let catalog = catalog();
    let text = "From Miami to Paris & back";
    let (html, entities) = highlight_matches(&catalog.location, text, Category::Location);
    assert_eq!(
        html,
        "From <span class=\"entity entity-location\" data-type=\"location\">Miami</span> to <span class=\"entity entity-location\" data-type=\"location\">Paris</span> &amp; back"
    );
    let listed: Vec<(&str, usize, usize)> =
        entities.iter().map(|e| (e.text.as_str(), e.start, e.end)).collect();
    assert_eq!(listed, vec![("Miami", 5, 10), ("Paris", 14, 19)]);
    assert_eq!(unescape(&strip_tags(&html)), text);
}

#[test]
fn accepted_spans_without_markup() {
    let catalog = catalog();
    let text = "Jeffrey Epstein paid $5 million to Clinton Foundation in New York, jeff@example.com";
    let accepted = accepted_entities(&catalog, text);
    let listed: Vec<(&str, Category)> =
        accepted.iter().map(|e| (e.text.as_str(), e.category)).collect();
    assert_eq!(
        listed,
        vec![
            ("Jeffrey Epstein", Category::Person),
            ("$5 million", Category::Amount),
            ("Clinton Foundation", Category::Person),
            ("New York", Category::Person),
            ("jeff@example.com", Category::Email),
        ]
    );
    let marked = highlight_entities(&catalog, text);
    assert_eq!(marked.entities.len(), accepted.len());
    let matches = accepted_matches(&catalog, text);
    assert_eq!(matches.len(), accepted.len());
    assert_eq!((matches[1].start, matches[1].end), (21, 31));
}
