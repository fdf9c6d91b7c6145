//! The hybrid strategy: it ranks by expected information plus the word's share of the
//! candidates' total weight, and opens with a word drawn from a short list.
use crate::algorithms::Step;
use crate::candidates::{
    collect_unique, frequency, has_word, partition_size, pattern_counts, retain_consistent,
    total_frequency, unique_words, weight_of, weight_sum,
};
use crate::score::{pattern_at, PATTERN_COUNT};
use crate::{after_latest, Attempt, SolveError};
use rand::Rng;
use vstd::prelude::*;

verus! {

/// The number of opening words the hybrid strategy draws from.
pub const STARTER_COUNT: usize = 3;

/// The opening word numbered `choice`.
pub open spec fn starter(choice: int) -> Seq<char> {
    if choice == 0 {
        seq!['t', 'a', 'r', 'e', 'd']
    } else if choice == 1 {
        seq!['c', 'r', 'a', 'n', 'e']
    } else {
        seq!['w', 'h', 'a', 'l', 'e']
    }
}

/// Relies on rand::thread_rng and rand::Rng::gen_range: a value drawn from `0..n`
/// (gen_range panics on an empty range).
#[verifier::external_body]
fn random_index(n: usize) -> (r: usize)
    requires
        n > 0,
    ensures
        r < n,
{
    rand::thread_rng().gen_range(0..n)
}

/// The opening word numbered `choice`.
pub fn starter_word(choice: usize) -> (r: String)
    requires
        choice < STARTER_COUNT,
    ensures
        r@ == starter(choice as int),
{
    if choice == 0 {
        let w = "tared".to_owned();
        proof {
            reveal_strlit("tared");
            assert(w@ =~= starter(0));
        }
        w
    } else if choice == 1 {
        let w = "crane".to_owned();
        proof {
            reveal_strlit("crane");
            assert(w@ =~= starter(1));
        }
        w
    } else {
        let w = "whale".to_owned();
        proof {
            reveal_strlit("whale");
            assert(w@ =~= starter(2));
        }
        w
    }
}

/// The hybrid strategy.
#[derive(Debug, Clone, PartialEq, Eq)]
pub struct OptimizedEntropyAlgorithm {
    /// The words still possible, with their corpus weights.
    pub available_options: Vec<(String, u32)>,
}

impl OptimizedEntropyAlgorithm {
    /// A strategy over the whole corpus: every word once, with the weight of its last
    /// entry.
    pub fn new(corpus: Vec<(String, u32)>) -> (r: Self)
        ensures
            unique_words(r.available_options@),
            forall|w: Seq<char>| has_word(r.available_options@, w) <==> has_word(corpus@, w),
            forall|p: int|
                0 <= p < r.available_options@.len() ==> (#[trigger] r.available_options@[p]).1
                    == weight_of(corpus@, r.available_options@[p].0@),
    {
        OptimizedEntropyAlgorithm { available_options: collect_unique(corpus) }
    }

    /// For each pattern of `Score::permutations`, how many options would give `word`
    /// that pattern as feedback.
    pub fn partition_counts(&self, word: &str) -> (r: Vec<usize>)
        ensures
            r@.len() == PATTERN_COUNT,
            forall|k: int|
                0 <= k < PATTERN_COUNT ==> #[trigger] r@[k] == partition_size(
                    self.available_options@,
                    word@,
                    pattern_at(k),
                ),
    {
        pattern_counts(word, &self.available_options)
    }

    /// The weight of `word` among the options (zero where it is none of them) and the
    /// options' total weight: the frequency term of the hybrid score is their quotient.
    pub fn frequency_share(&self, word: &str) -> (r: (u32, u128))
        ensures
            r.0 == weight_of(self.available_options@, word@),
            r.1 == weight_sum(self.available_options@),
    {
        (frequency(&self.available_options, word), total_frequency(&self.available_options))
    }

    /// The first part of a turn, with the opener fixed by `choice`. Without history it
    /// names that opener. Otherwise it removes the latest guess, keeps the options
    /// consistent with its feedback, and asks for a ranking; it fails when no option is
    /// left.
    pub fn prepare_with_opener(&mut self, history: &[Attempt], choice: usize) -> (r: Result<
        Step,
        SolveError,
    >)
        requires
            choice < STARTER_COUNT,
        ensures
            final(self).available_options@ == after_latest(old(self).available_options@, history@),
            unique_words(old(self).available_options@) ==> unique_words(final(self).available_options@),
            history@.len() == 0 ==> (r matches Ok(Step::Guess(w)) && w@ == starter(choice as int)),
            history@.len() > 0 ==> (r is Err <==> final(self).available_options@.len() == 0),
            history@.len() > 0 && final(self).available_options@.len() > 0 ==> r == Ok::<
                Step,
                SolveError,
            >(Step::Rank),
            r matches Err(e) ==> e == SolveError::NoCandidatesRemain,
    {
        if history.len() == 0 {
            return Ok(Step::Guess(starter_word(choice)));
        }
        retain_consistent(&mut self.available_options, &history[history.len() - 1], true);
        if self.available_options.len() == 0 {
            Err(SolveError::NoCandidatesRemain)
        } else {
            Ok(Step::Rank)
        }
    }

    /// The first part of a turn, with the opener drawn at random from the starters.
    pub fn prepare(&mut self, history: &[Attempt]) -> (r: Result<Step, SolveError>)
        ensures
            final(self).available_options@ == after_latest(old(self).available_options@, history@),
            unique_words(old(self).available_options@) ==> unique_words(final(self).available_options@),
            history@.len() == 0 ==> (r matches Ok(Step::Guess(w)) && exists|c: int|
                0 <= c < STARTER_COUNT && w@ == starter(c)),
            history@.len() > 0 ==> (r is Err <==> final(self).available_options@.len() == 0),
            history@.len() > 0 && final(self).available_options@.len() > 0 ==> r == Ok::<
                Step,
                SolveError,
            >(Step::Rank),
            r matches Err(e) ==> e == SolveError::NoCandidatesRemain,
    {
        let choice = random_index(STARTER_COUNT);
        self.prepare_with_opener(history, choice)
    }
}

} // verus!
