//! The maximum-entropy strategy. The library narrows the candidates and counts, for a
//! word, how the candidates split by the feedback it would receive; turning those counts
//! into bits and ranking by them is floating-point work left to the caller.
use crate::algorithms::Step;
use crate::candidates::{
    collect_unique, has_word, partition_size, pattern_counts, retain_consistent, retained,
    unique_words, weight_of,
};
use crate::score::{pattern_at, PATTERN_COUNT};
use crate::{after_latest, Attempt, SolveError};
use vstd::prelude::*;

verus! {

/// The fixed opening word of the maximum-entropy strategy.
pub open spec fn entropy_opener() -> Seq<char> {
    seq!['t', 'a', 'r', 'e', 's']
}

/// The maximum-entropy strategy.
#[derive(Debug, Clone, PartialEq, Eq)]
pub struct HighestEntropyAlgorithm {
    /// The words still possible, with their corpus weights.
    pub available_options: Vec<(String, u32)>,
}

impl HighestEntropyAlgorithm {
    /// A strategy over the whole corpus: every word once, with the weight of its last
    /// entry.
    pub fn new(corpus: Vec<(String, u32)>) -> (r: Self)
        ensures
            unique_words(r.available_options@),
            forall|w: Seq<char>| has_word(r.available_options@, w) <==> has_word(corpus@, w),
            forall|p: int|
                0 <= p < r.available_options@.len() ==> (#[trigger] r.available_options@[p]).1
                    == weight_of(corpus@, r.available_options@[p].0@),
    {
        HighestEntropyAlgorithm { available_options: collect_unique(corpus) }
    }

    /// Keeps the options consistent with `attempt` (the guess itself stays when its
    /// pattern is all Correct) and returns how many are left.
    pub fn fetch_length_for_updated_dictionary(
        attempt: &Attempt,
        available_options: &mut Vec<(String, u32)>,
    ) -> (r: usize)
        ensures
            final(available_options)@ == retained(old(available_options)@, attempt.word@, attempt.score@, false),
            unique_words(old(available_options)@) ==> unique_words(final(available_options)@),
            r == final(available_options)@.len(),
    {
        retain_consistent(available_options, attempt, false);
        available_options.len()
    }

    /// For each pattern of `Score::permutations`, how many options would give `word`
    /// that pattern as feedback.
    pub fn partition_counts(&self, word: &str) -> (r: Vec<usize>)
        ensures
            r@.len() == PATTERN_COUNT,
            forall|k: int|
                0 <= k < PATTERN_COUNT ==> #[trigger] r@[k] == partition_size(
                    self.available_options@,
                    word@,
                    pattern_at(k),
                ),
    {
        pattern_counts(word, &self.available_options)
    }

    /// The first part of a turn. Without history it names the fixed opener. Otherwise it
    /// removes the latest guess, keeps the options consistent with its feedback, and asks
    /// for a ranking; it fails when no option is left.
    pub fn prepare(&mut self, history: &[Attempt]) -> (r: Result<Step, SolveError>)
        ensures
            final(self).available_options@ == after_latest(old(self).available_options@, history@),
            unique_words(old(self).available_options@) ==> unique_words(final(self).available_options@),
            history@.len() == 0 ==> (r matches Ok(Step::Guess(w)) && w@ == entropy_opener()),
            history@.len() > 0 ==> (r is Err <==> final(self).available_options@.len() == 0),
            history@.len() > 0 && final(self).available_options@.len() > 0 ==> r == Ok::<Step, SolveError>(Step::Rank),
            r matches Err(e) ==> e == SolveError::NoCandidatesRemain,
    {
        if history.len() == 0 {
            let w = "tares".to_owned();
            proof {
                reveal_strlit("tares");
                assert(w@ =~= entropy_opener());
            }
            return Ok(Step::Guess(w));
        }
        retain_consistent(&mut self.available_options, &history[history.len() - 1], true);
        if self.available_options.len() == 0 {
            Err(SolveError::NoCandidatesRemain)
        } else {
            Ok(Step::Rank)
        }
    }
}

} // verus!
