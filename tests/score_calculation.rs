use wordl::score::{same_word, PATTERN_COUNT};
use wordl::{Attempt, Score};

use Score::{Correct as C, Incorrect as I, Misplaced as M};

#[test]
fn test_score_color_for_same_words() {
    let answer = "hello";
    let guess = "hello";
    assert_eq!(Score::color(answer, guess), [C, C, C, C, C]);
}

#[test]
fn test_score_color_for_totally_different_letters() {
    let answer = "abcde";
    let guess = "fghij";
    assert_eq!(Score::color(answer, guess), [I, I, I, I, I]);
}

#[test]
fn test_score_color_with_some_different_words() {
    let answer = "helro";
    let guess = "world";
    assert_eq!(Score::color(answer, guess), [I, M, M, M, I]);
}

#[test]
fn test_score_color_with_some_correct_and_misplaced_words() {
    let answer = "azzaz";
    let guess = "aaabb";
    assert_eq!(Score::color(answer, guess), [C, M, I, I, I]);
}

#[test]
fn test_score_color_with_some_correct_and_misplaced_words_edge_case() {
    let answer = "baccc";
    let guess = "aaddd";
    assert_eq!(Score::color(answer, guess), [I, C, I, I, I]);
}

#[test]
fn test_score_color_with_some_correct_and_misplaced_words_edge_case_1() {
    let answer = "admin";
    let guess = "which";
    assert_eq!(Score::color(answer, guess), [I, I, M, I, I]);
}

#[test]
fn color_of_a_word_against_itself_is_all_correct() {
    for w in ["hello", "aaaaa", "crane", "zzyzx", "abcba"] {
        assert_eq!(Score::color(w, w), [C; 5]);
    }
}

#[test]
fn color_gives_min_of_counts_for_repeated_letters() {
    // Secret holds one 'e', guess holds three: only one mark that is not Incorrect.
    assert_eq!(Score::color("crane", "eerie"), [I, I, M, I, C]);
    // Secret holds two 'o', guess holds two, one in place.
    assert_eq!(Score::color("robot", "oxbow"), [M, I, C, C, I]);
    // Misplaced marks go to the leftmost occurrences of the guess.
    assert_eq!(Score::color("qqqqa", "aazzz"), [M, I, I, I, I]);
}

#[test]
fn permutations_lists_every_pattern_once() {
    let all = Score::permutations();
    assert_eq!(all.len(), PATTERN_COUNT);
    assert_eq!(all[0], [C, C, C, C, C]);
    assert_eq!(all[1], [C, C, C, C, M]);
    assert_eq!(all[3], [C, C, C, M, C]);
    assert_eq!(all[242], [I, I, I, I, I]);
    for i in 0..all.len() {
        for j in (i + 1)..all.len() {
            assert_ne!(all[i], all[j]);
        }
    }
}

#[test]
fn same_word_compares_characters() {
    assert!(same_word("hello", "hello"));
    assert!(!same_word("hello", "hells"));
    assert!(!same_word("hello", "hell"));
}

#[test]
fn attempt_holds_word_and_score() {
    let a = Attempt { word: "weary".to_string(), score: [C, I, M, I, I] };
    assert_eq!(a.word, "weary");
    assert_eq!(a.score[2], M);
}
