//! The simplest strategy: it plays the first word of the corpus, whatever the history.
use crate::candidates::{collect_unique, has_word, unique_words, weight_of};
use crate::{Attempt, SolveError, Solver};
use vstd::prelude::*;

verus! {

/// A strategy that always names the first remaining word.
#[derive(Debug, Clone, PartialEq, Eq)]
pub struct BasicAlgorithm {
    remaining_words: Vec<(String, u32)>,
}

impl BasicAlgorithm {
    /// The words the strategy holds, with their weights.
    pub closed spec fn entries(&self) -> Seq<(String, u32)> {
        self.remaining_words@
    }

    /// A strategy over the whole corpus: every word once, with the weight of its last
    /// entry.
    pub fn new(corpus: Vec<(String, u32)>) -> (r: Self)
        ensures
            unique_words(r.entries()),
            forall|w: Seq<char>| has_word(r.entries(), w) <==> has_word(corpus@, w),
            forall|p: int|
                0 <= p < r.entries().len() ==> (#[trigger] r.entries()[p]).1 == weight_of(
                    corpus@,
                    r.entries()[p].0@,
                ),
    {
        BasicAlgorithm { remaining_words: collect_unique(corpus) }
    }

    /// The first word held; fails when none is held.
    pub fn suggest(&self) -> (r: Result<String, SolveError>)
        ensures
            r is Err <==> self.entries().len() == 0,
            r matches Err(e) ==> e == SolveError::NoCandidatesRemain,
            r matches Ok(w) ==> w@ == self.entries()[0].0@,
    {
        if self.remaining_words.len() == 0 {
            Err(SolveError::NoCandidatesRemain)
        } else {
            Ok(self.remaining_words[0].0.clone())
        }
    }
}

impl Solver for BasicAlgorithm {
    fn solve(&mut self, history: &[Attempt]) -> Result<String, SolveError> {
        self.suggest()
    }
}

} // verus!
