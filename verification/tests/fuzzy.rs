use e_agent::tui::fuzzy::{subsequence_score, NEUTRAL};
use e_agent::tui::menu::fuzzy_score;

#[test]
fn fuzzy_prefers_tight_early_matches() {
    // Subsequence required.
    assert!(fuzzy_score("xyz", "composer.rs").is_none());
    // Tighter match beats scattered.
    let tight = fuzzy_score("comp", "src/tui/composer.rs").unwrap();
    let scattered = fuzzy_score("comp", "core/completions.rs").unwrap();
    assert!(tight < usize::MAX / 2 && scattered < usize::MAX / 2);
    // Case-insensitive.
    assert!(fuzzy_score("LOG", "/login").is_some());
    // Empty query keeps everything, original order.
    assert_eq!(fuzzy_score("", "anything"), Some(usize::MAX / 2));
}

#[test]
fn scores_are_exact() {
    assert_eq!(fuzzy_score("log", "/login"), Some(1));
    assert_eq!(fuzzy_score("lgn", "/login"), Some(3));
    assert_eq!(fuzzy_score("comp", "composer.rs"), Some(0));
    // c at 2, o at 9, m at 10, p at 11.
    assert_eq!(fuzzy_score("comp", "src/tui/composer.rs"), Some(8));
    // c at 0, o at 1, m at 7, p at 8.
    assert_eq!(fuzzy_score("comp", "core/completions.rs"), Some(5));
    assert_eq!(fuzzy_score("aa", "a"), None);
    assert_eq!(fuzzy_score("ba", "ab"), None);
    assert_eq!(fuzzy_score("a", ""), None);
}

#[test]
fn neutral_score_is_the_middle() {
    assert_eq!(NEUTRAL, usize::MAX / 2);
    assert_eq!(fuzzy_score("", ""), Some(NEUTRAL));
}

#[test]
fn offsets_count_bytes() {
    // The first character takes two bytes.
    assert_eq!(fuzzy_score("a", "éa"), Some(2));
    assert_eq!(fuzzy_score("éa", "éa"), Some(1));
    assert_eq!(fuzzy_score("b", "日本b"), Some(6));
}

#[test]
fn case_is_ignored_on_both_sides() {
    assert_eq!(fuzzy_score("LoG", "/LOGIN"), fuzzy_score("log", "/login"));
    assert_eq!(fuzzy_score("É", "é"), Some(0));
    // A sigma at the end of a word takes its final form; each letter takes two bytes.
    assert_eq!(fuzzy_score("ΣΑΣ", "σας"), Some(2));
}

#[test]
fn subsequence_score_takes_texts_as_they_are() {
    assert_eq!(subsequence_score("LOG", "/login"), None);
    assert_eq!(subsequence_score("log", "/login"), Some(1));
    assert_eq!(subsequence_score("", "anything"), Some(0));
}

#[test]
fn a_prefix_scores_best() {
    assert_eq!(subsequence_score("comp", "composer"), Some(0));
    assert!(subsequence_score("comp", "xcomposer") > Some(0));
}
