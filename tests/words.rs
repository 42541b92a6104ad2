use termibbl::skribbl::calculate_score_increase;
use termibbl::word::{is_very_close_to, levenshtein_distance, pick_next};

#[test]
fn levenshtein_ignores_case() {
    assert_eq!(levenshtein_distance("CaT", "cat"), 0);
    assert_eq!(levenshtein_distance("APPLE", "apple"), 0);
}

#[test]
fn levenshtein_is_symmetric() {
    assert_eq!(levenshtein_distance("kitten", "sitting"), 3);
    assert_eq!(levenshtein_distance("sitting", "kitten"), 3);
    assert_eq!(levenshtein_distance("aple", "apple"), levenshtein_distance("apple", "aple"));
}

#[test]
fn levenshtein_exact_values() {
    assert_eq!(levenshtein_distance("", ""), 0);
    assert_eq!(levenshtein_distance("", "abc"), 3);
    assert_eq!(levenshtein_distance("abc", ""), 3);
    assert_eq!(levenshtein_distance("aple", "apple"), 1);
    assert_eq!(levenshtein_distance("flaw", "lawn"), 2);
    assert_eq!(levenshtein_distance("banana", "bandana"), 1);
}

#[test]
fn close_guesses() {
    assert!(is_very_close_to("aple", "apple"));
    assert!(is_very_close_to("Apple", "apple"));
    assert!(!is_very_close_to("apl", "apple"));
}

#[test]
fn score_formula() {
    assert_eq!(calculate_score_increase(60, 120), 75);
    assert_eq!(calculate_score_increase(120, 120), 100);
    assert_eq!(calculate_score_increase(0, 120), 50);
    assert_eq!(calculate_score_increase(30, 120), 62);
    assert_eq!(calculate_score_increase(500, 120), 100);
    assert_eq!(calculate_score_increase(10, 0), 50);
}

#[test]
fn word_cycle_restarts() {
    let words = vec!["apple".to_string(), "pear".to_string()];
    let mut pos: usize = 0;
    assert_eq!(pick_next(&words, &mut pos), "apple");
    assert_eq!(pos, 1);
    assert_eq!(pick_next(&words, &mut pos), "pear");
    assert_eq!(pos, 0);
    assert_eq!(pick_next(&words, &mut pos), "apple");
}
