use l_extract::amount::{
    first_token, is_stripped_char, is_whitespace, normalize_amount, strip,
};
use l_extract::entity::Scale;

fn parts(value: &str) -> (String, Scale) {
    let amount = normalize_amount(value);
    (amount.numeric, amount.scale)
}

fn number(value: &str) -> f64 {
    let amount = normalize_amount(value);
    amount.numeric.parse::<f64>().ok().map(|n| n * amount.scale.factor() as f64).unwrap_or(0.0)
}

#[test]
fn separators_and_symbols_are_stripped() {
    assert_eq!(strip("$1,234,567.89"), "1234567.89");
    assert_eq!(strip("€5 million"), "5 million");
    assert_eq!(strip("£1,234.56"), "1234.56");
    assert_eq!(strip("¥100 USD"), "¥100 USD");
    assert_eq!(strip(""), "");
    assert_eq!(strip("$,€£"), "");
    assert!(is_stripped_char(',') && is_stripped_char('$'));
    assert!(is_stripped_char('€') && is_stripped_char('£'));
    assert!(!is_stripped_char('¥') && !is_stripped_char('.'));
}

#[test]
fn the_leading_token_ends_at_white_space() {
    assert_eq!(first_token("5.5 million USD"), "5.5");
    assert_eq!(first_token("  100\tUSD"), "100");
    assert_eq!(first_token("100"), "100");
    assert_eq!(first_token("5\u{a0}million"), "5");
    assert_eq!(first_token(" \n "), "");
    assert_eq!(first_token(""), "");
}

#[test]
fn white_space_is_what_the_standard_library_calls_white_space() {
    for code in 0..=0x10ffff_u32 {
        if let Some(c) = char::from_u32(code) {
            assert_eq!(is_whitespace(c), c.is_whitespace(), "U+{:04X}", code);
        }
    }
}

#[test]
fn scale_words_are_read_in_priority_order() {
    assert_eq!(parts("$5.5 million"), ("5.5".to_string(), Scale::Million));
    assert_eq!(parts("2 billion dollars"), ("2".to_string(), Scale::Billion));
    assert_eq!(parts("3 million billion"), ("3".to_string(), Scale::Million));
    assert_eq!(parts("3 billion million"), ("3".to_string(), Scale::Million));
    assert_eq!(parts("7 thousand dollars"), ("7".to_string(), Scale::Unit));
    assert_eq!(parts("$100,000"), ("100000".to_string(), Scale::Unit));
    assert_eq!(Scale::Unit.factor(), 1);
    assert_eq!(Scale::Million.factor(), 1_000_000);
    assert_eq!(Scale::Billion.factor(), 1_000_000_000);
}

#[test]
fn normalized_numbers() {
    assert_eq!(number("$5.5 million"), 5_500_000.0);
    assert_eq!(number("5.5 million USD"), 5_500_000.0);
    assert_eq!(number("€2 billion"), 2_000_000_000.0);
    assert_eq!(number("$100,000"), 100_000.0);
    assert_eq!(number("£1,234.56"), 1234.56);
    assert_eq!(number("1,234.56 USD"), 1234.56);
}

#[test]
fn text_that_is_no_number_normalizes_to_zero() {
    assert_eq!(parts("USD 100"), ("USD".to_string(), Scale::Unit));
    assert_eq!(number("USD 100"), 0.0);
    assert_eq!(number("EUR5"), 0.0);
    assert_eq!(number(""), 0.0);
    assert_eq!(number("$"), 0.0);
    assert_eq!(number("million"), 0.0);
}
