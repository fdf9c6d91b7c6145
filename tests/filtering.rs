use wordl::algorithms::{
    starter_word,
    BasicAlgorithm, HighestEntropyAlgorithm, NaiveAlgorithm, OptimizedEntropyAlgorithm, Step,
    Utils,
};
use wordl::candidates::{
    collect_unique, count_retained, frequency, heaviest, pattern_counts, retain_consistent,
    total_frequency,
};
use wordl::{Attempt, Score, SolveError, Solver, Wordle};

use Score::{Correct as C, Incorrect as I, Misplaced as M};

fn corpus() -> Vec<(String, u32)> {
    [
        ("weary", 50),
        ("wages", 40),
        ("water", 90),
        ("whale", 70),
        ("tares", 30),
        ("hello", 80),
        ("world", 60),
        ("crane", 20),
        ("waxed", 10),
    ]
    .iter()
    .map(|(w, f)| (w.to_string(), *f))
    .collect()
}

fn words(entries: &[(String, u32)]) -> Vec<&str> {
    entries.iter().map(|(w, _)| w.as_str()).collect()
}

#[test]
fn test_if_attempt_is_similar_to_word_ideal_case() {
    let attempt = Attempt { word: "hello".to_string(), score: [C; 5] };
    let word = "hello";
    let result = Utils::if_attempt_is_similar_to_word(&attempt, word);
    assert_eq!(result, true);
}

#[test]
fn test_if_attempt_is_similar_to_word_ideal_case_sample_1() {
    let attempt = Attempt { word: "weary".to_string(), score: [C, I, M, I, I] };
    let word = "wages";
    let result = Utils::if_attempt_is_similar_to_word(&attempt, word);
    assert_eq!(result, false);
}

#[test]
fn consistency_matches_the_scorer_on_repeated_letters() {
    // A pattern that the scorer never gives: the later 'a' marked Misplaced.
    let attempt = Attempt { word: "aazzz".to_string(), score: [I, M, I, I, I] };
    assert!(!Utils::if_attempt_is_similar_to_word(&attempt, "qqqqa"));
    let attempt = Attempt { word: "aazzz".to_string(), score: [M, I, I, I, I] };
    assert!(Utils::if_attempt_is_similar_to_word(&attempt, "qqqqa"));
}

#[test]
fn consistency_rejects_words_of_other_lengths() {
    let attempt = Attempt { word: "hello".to_string(), score: [C; 5] };
    assert!(!Utils::if_attempt_is_similar_to_word(&attempt, "hell"));
    let attempt = Attempt { word: "hellos".to_string(), score: [C; 5] };
    assert!(!Utils::if_attempt_is_similar_to_word(&attempt, "hello"));
}

#[test]
fn secret_survives_its_own_feedback() {
    for secret in ["weary", "wages", "hello", "azzaz", "baccc"] {
        for guess in ["weary", "aaabb", "world", "which", "crane"] {
            let attempt = Attempt { word: guess.to_string(), score: Score::color(secret, guess) };
            assert!(Utils::if_attempt_is_similar_to_word(&attempt, secret));
        }
    }
}

#[test]
fn filter_keeps_consistent_words_in_order() {
    let mut entries = corpus();
    let attempt = Attempt { word: "weary".to_string(), score: Score::color("water", "weary") };
    retain_consistent(&mut entries, &attempt, true);
    assert_eq!(words(&entries), vec!["water"]);
    assert_eq!(entries[0].1, 90);
}

#[test]
fn filter_is_idempotent_and_never_grows() {
    let attempt = Attempt { word: "weary".to_string(), score: [C, I, M, I, I] };
    let mut once = corpus();
    retain_consistent(&mut once, &attempt, true);
    assert!(once.len() <= corpus().len());
    let mut twice = once.clone();
    retain_consistent(&mut twice, &attempt, true);
    assert_eq!(once, twice);
}

#[test]
fn all_correct_feedback_keeps_guess_only_without_removal() {
    let attempt = Attempt { word: "hello".to_string(), score: [C; 5] };
    let mut kept = corpus();
    let n = HighestEntropyAlgorithm::fetch_length_for_updated_dictionary(&attempt, &mut kept);
    assert_eq!(n, 1);
    assert_eq!(words(&kept), vec!["hello"]);
    let mut removed = corpus();
    retain_consistent(&mut removed, &attempt, true);
    assert!(removed.is_empty());
    assert_eq!(count_retained(&corpus(), &attempt, false), 1);
}

#[test]
fn partition_counts_split_the_whole_set() {
    let entries = corpus();
    let counts = pattern_counts("weary", &entries);
    assert_eq!(counts.len(), 243);
    assert_eq!(counts.iter().sum::<usize>(), entries.len());
    assert_eq!(counts[0], 1);
    let patterns = Score::permutations();
    let k = patterns.iter().position(|p| *p == Score::color("wages", "weary")).unwrap();
    assert_eq!(counts[k], 2);
}

#[test]
fn collect_unique_keeps_first_position_and_last_weight() {
    let entries = vec![
        ("hello".to_string(), 1),
        ("world".to_string(), 2),
        ("hello".to_string(), 3),
    ];
    let unique = collect_unique(entries);
    assert_eq!(unique, vec![("hello".to_string(), 3), ("world".to_string(), 2)]);
}

#[test]
fn naive_plays_heaviest_remaining_word() {
    let mut naive = NaiveAlgorithm::new(corpus());
    assert_eq!(naive.possibility_grid, [[true; 26]; 5]);
    assert_eq!(naive.restriction, [false; 5]);
    assert_eq!(naive.solve(&[]), Ok("water".to_string()));
    let history = vec![Attempt { word: "water".to_string(), score: Score::color("wages", "water") }];
    let guess = naive.solve(&history).unwrap();
    assert_eq!(guess, "wages");
    assert!(naive.available_options.iter().all(|(w, _)| w != "water"));
    naive.update_possible_answers(None);
    assert_eq!(words(&naive.available_options), vec!["wages", "waxed"]);
}

#[test]
fn naive_breaks_ties_by_corpus_order() {
    let entries = vec![("crane".to_string(), 5), ("whale".to_string(), 9), ("tares".to_string(), 9)];
    let mut naive = NaiveAlgorithm::new(entries);
    assert_eq!(naive.suggest(&[]), Ok("whale".to_string()));
}

#[test]
fn naive_reports_contradictory_feedback() {
    let mut naive = NaiveAlgorithm::new(corpus());
    let history = vec![Attempt { word: "zzzzz".to_string(), score: [C; 5] }];
    assert_eq!(naive.solve(&history), Err(SolveError::NoCandidatesRemain));
}

#[test]
fn basic_plays_first_word() {
    let mut basic = BasicAlgorithm::new(corpus());
    assert_eq!(basic.solve(&[]), Ok("weary".to_string()));
    let mut empty = BasicAlgorithm::new(Vec::new());
    assert_eq!(empty.suggest(), Err(SolveError::NoCandidatesRemain));
}

#[test]
fn entropy_strategy_opens_then_narrows() {
    let mut algo = HighestEntropyAlgorithm::new(corpus());
    assert_eq!(algo.prepare(&[]), Ok(Step::Guess("tares".to_string())));
    assert_eq!(algo.available_options.len(), 9);
    let history = vec![Attempt { word: "crane".to_string(), score: [I, M, M, I, M] }];
    assert_eq!(algo.prepare(&history), Ok(Step::Rank));
    assert_eq!(words(&algo.available_options), vec!["water", "tares"]);
    let mut expected = corpus();
    retain_consistent(&mut expected, &history[0], true);
    assert_eq!(algo.available_options, expected);
    let counts = algo.partition_counts("water");
    assert_eq!(counts.iter().sum::<usize>(), algo.available_options.len());
    let history = vec![Attempt { word: "qqqqq".to_string(), score: [C; 5] }];
    assert_eq!(algo.prepare(&history), Err(SolveError::NoCandidatesRemain));
}

#[test]
fn hybrid_strategy_opens_with_a_starter() {
    let mut algo = OptimizedEntropyAlgorithm::new(corpus());
    assert_eq!(algo.prepare_with_opener(&[], 1), Ok(Step::Guess("crane".to_string())));
    match algo.prepare(&[]) {
        Ok(Step::Guess(w)) => assert!(["tared", "crane", "whale"].contains(&w.as_str())),
        other => panic!("unexpected {:?}", other),
    }
    assert_eq!(algo.frequency_share("hello"), (80, 450));
    assert_eq!(algo.frequency_share("zzzzz"), (0, 450));
    let history = vec![Attempt { word: "weary".to_string(), score: Score::color("water", "weary") }];
    assert_eq!(algo.prepare_with_opener(&history, 0), Ok(Step::Rank));
    assert_eq!(words(&algo.available_options), vec!["water"]);
}

#[test]
fn dictionary_drops_duplicates() {
    let wordle = Wordle::new(vec!["hello".to_string(), "world".to_string(), "hello".to_string()]);
    assert_eq!(wordle.len(), 2);
    assert!(wordle.contains("world"));
    assert!(!wordle.contains("weary"));
}

#[test]
fn expected_information_stays_within_bounds() {
    let entries = corpus();
    let n = entries.len() as f64;
    for (word, _) in &entries {
        let counts = pattern_counts(word, &entries);
        let mut bits = 0.0f64;
        for &c in &counts {
            if c > 0 {
                let p = c as f64 / n;
                bits -= p * p.log2();
            }
        }
        assert!(bits >= 0.0);
        assert!(bits <= n.log2() + 1e-9);
    }
}

#[test]
fn partitions_of_a_single_candidate() {
    let entries = vec![("hello".to_string(), 1)];
    let counts = pattern_counts("hello", &entries);
    assert_eq!(counts[0], 1);
    assert_eq!(counts.iter().sum::<usize>(), 1);
    let counts = pattern_counts("abcde", &vec![("abc".to_string(), 1)]);
    assert_eq!(counts.iter().sum::<usize>(), 0);
}

#[test]
fn weights_are_summed_and_looked_up() {
    let entries = corpus();
    assert_eq!(total_frequency(&entries), 450);
    assert_eq!(total_frequency(&Vec::new()), 0);
    assert_eq!(frequency(&entries, "whale"), 70);
    assert_eq!(frequency(&entries, "zzzzz"), 0);
    let big = vec![("aaaaa".to_string(), u32::MAX), ("bbbbb".to_string(), u32::MAX)];
    assert_eq!(total_frequency(&big), 2 * u32::MAX as u128);
}

#[test]
fn heaviest_picks_first_of_largest_weight() {
    assert_eq!(heaviest(&corpus()), Some(2));
    assert_eq!(heaviest(&Vec::new()), None);
    let tied = vec![("aaaaa".to_string(), 3), ("bbbbb".to_string(), 7), ("ccccc".to_string(), 7)];
    assert_eq!(heaviest(&tied), Some(1));
}

#[test]
fn random_openers_vary() {
    let mut seen = Vec::new();
    for _ in 0..60 {
        let mut algo = OptimizedEntropyAlgorithm::new(Vec::new());
        if let Ok(Step::Guess(w)) = algo.prepare(&[]) {
            if !seen.contains(&w) {
                seen.push(w);
            }
        }
    }
    assert!(seen.len() >= 2);
    assert!(seen.iter().all(|w| ["tared", "crane", "whale"].contains(&w.as_str())));
}

#[test]
fn every_starter_can_be_chosen() {
    assert_eq!(starter_word(0), "tared");
    assert_eq!(starter_word(1), "crane");
    assert_eq!(starter_word(2), "whale");
}

#[test]
fn secret_stays_in_the_candidate_set() {
    for (secret, _) in corpus() {
        for guess in ["weary", "crane", "hello", "aaaaa"] {
            if guess == secret {
                continue;
            }
            let mut entries = corpus();
            let attempt = Attempt { word: guess.to_string(), score: Score::color(&secret, guess) };
            retain_consistent(&mut entries, &attempt, true);
            assert!(entries.iter().any(|(w, _)| *w == secret));
            assert!(entries.iter().all(|(w, _)| w != guess));
        }
    }
}

#[test]
fn test_naive_algorithm_solve() {
    let mut naive_algorithm = NaiveAlgorithm::new(corpus());
    naive_algorithm.update_possible_answers(None);
    assert_eq!(naive_algorithm.possibility_grid, [[true; 26]; 5]);
    assert_eq!(naive_algorithm.restriction, [false; 5]);
    assert_eq!(naive_algorithm.available_options.len(), 9);

    let attempt = Attempt { word: "which".to_string(), score: [I, M, I, M, I] };

    naive_algorithm.update_possible_answers(Some(&attempt));
    assert_eq!(naive_algorithm.restriction, [false, false, false, false, false]);
}
