use googol::retry::{after_failed_attempt, next_backoff, MAX_BACKOFF_SECS, MIN_BACKOFF_SECS};
use googol::words::extract_words;
use std::collections::HashSet;

fn set(v: Vec<String>) -> HashSet<String> {
    v.into_iter().collect()
}

#[test]
fn words_are_lowercased_filtered_and_distinct() {
    let stop = vec!["the".to_string()];
    let words = extract_words("The  Rust\tbook, the RUST book!\n42 x-y", &stop);
    let expected: HashSet<String> = ["rust", "42"].iter().map(|s| s.to_string()).collect();
    assert_eq!(set(words.clone()), expected);
    assert_eq!(words.len(), 2);
}

#[test]
fn words_of_blank_text() {
    assert!(extract_words("", &vec![]).is_empty());
    assert!(extract_words(" \t\n\u{3000} ", &vec![]).is_empty());
}

#[test]
fn unicode_words_are_kept() {
    let words = extract_words("Ünïcode\u{00A0}caf\u{e9}", &vec![]);
    let expected: HashSet<String> = ["ünïcode", "café"].iter().map(|s| s.to_string()).collect();
    assert_eq!(set(words), expected);
}

#[test]
fn backoff_doubles_up_to_the_cap() {
    assert_eq!(next_backoff(0), MIN_BACKOFF_SECS);
    assert_eq!(next_backoff(1), 2);
    assert_eq!(next_backoff(16), 32);
    assert_eq!(next_backoff(32), MAX_BACKOFF_SECS);
    assert_eq!(next_backoff(60), 60);
    assert_eq!(next_backoff(u64::MAX), 60);
}

#[test]
fn connection_retries_stop_at_the_limit() {
    assert_eq!(after_failed_attempt(0, 1000, 3), Some((1, 2000)));
    assert_eq!(after_failed_attempt(1, 2000, 3), Some((2, 4000)));
    assert_eq!(after_failed_attempt(2, 4000, 3), None);
    assert_eq!(after_failed_attempt(0, 1000, 0), None);
    assert_eq!(after_failed_attempt(0, u64::MAX, 5), Some((1, u64::MAX)));
}
