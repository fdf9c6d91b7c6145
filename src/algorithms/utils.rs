//! The test of a word against one attempt's feedback.
use crate::score::{consistent, same_pattern, Attempt, Score, WORD_LEN};
use vstd::prelude::*;

verus! {

/// Checks of candidate words.
pub struct Utils;

impl Utils {
    /// Could `word` be the secret, given `attempt`? True exactly when both words have the
    /// puzzle's length and scoring the attempt's guess against `word` gives the attempt's
    /// pattern.
    pub fn if_attempt_is_similar_to_word(attempt: &Attempt, word: &str) -> (r: bool)
        ensures
            r == consistent(attempt.word@, attempt.score@, word@),
    {
        if attempt.word.as_str().unicode_len() != WORD_LEN || word.unicode_len() != WORD_LEN {
            return false;
        }
        let c = Score::color(word, attempt.word.as_str());
        same_pattern(&c, &attempt.score)
    }
}

} // verus!
