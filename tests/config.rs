use termibbl::config::{parse_dimension, parse_word_list};
use termibbl::text::decimal;

#[test]
fn dimensions_parse() {
    assert_eq!(parse_dimension("900x60"), Ok((900, 60)));
    assert_eq!(parse_dimension("axbx3x4"), Ok((3, 4)));
    assert_eq!(parse_dimension("+5x007"), Ok((5, 7)));
    assert_eq!(parse_dimension("99999999999999999999x1x2"), Ok((1, 2)));
    assert!(parse_dimension("12").is_err());
    assert!(parse_dimension("x").is_err());
    assert!(parse_dimension("").is_err());
}

#[test]
fn word_list_parse() {
    let words = parse_word_list("  apple \n\n pear\r\nbanana split\n");
    assert_eq!(words, vec!["apple".to_string(), "pear".to_string(), "banana split".to_string()]);
    assert!(parse_word_list("").is_empty());
    assert!(parse_word_list("\n \n\t\n").is_empty());
}

#[test]
fn decimal_ids() {
    assert_eq!(decimal(0), "0");
    assert_eq!(decimal(42), "42");
    assert_eq!(decimal(u64::MAX), "18446744073709551615");
}
