//! The maximum-frequency strategy: after each attempt it narrows the candidates and
//! plays the heaviest one left.
use crate::candidates::{
    applied, collect_unique, has_word, heaviest, is_heaviest_first, retain_consistent,
    unique_words, weight_of,
};
use crate::{after_latest, Attempt, SolveError, Solver};
use vstd::prelude::*;

verus! {

/// The maximum-frequency strategy.
#[derive(Debug, Clone, PartialEq, Eq)]
pub struct NaiveAlgorithm {
    /// The words still possible, with their corpus weights.
    pub available_options: Vec<(String, u32)>,
    /// For each position, the letters still allowed there.
    pub possibility_grid: [[bool; 26]; 5],
    /// For each position, whether its letter is settled.
    pub restriction: [bool; 5],
}

impl NaiveAlgorithm {
    /// A strategy over the whole corpus: every word once, with the weight of its last
    /// entry; every letter allowed everywhere and no position settled.
    pub fn new(corpus: Vec<(String, u32)>) -> (r: Self)
        ensures
            unique_words(r.available_options@),
            forall|w: Seq<char>| has_word(r.available_options@, w) <==> has_word(corpus@, w),
            forall|p: int|
                0 <= p < r.available_options@.len() ==> (#[trigger] r.available_options@[p]).1
                    == weight_of(corpus@, r.available_options@[p].0@),
            forall|p: int, c: int|
                0 <= p < 5 && 0 <= c < 26 ==> #[trigger] r.possibility_grid@[p]@[c],
            forall|p: int| 0 <= p < 5 ==> !#[trigger] r.restriction@[p],
    {
        NaiveAlgorithm {
            available_options: collect_unique(corpus),
            possibility_grid: [[true;26];5],
            restriction: [false;5],
        }
    }

    /// Narrows the candidates by the latest attempt: its guess goes, and only the words
    /// consistent with its feedback stay. Nothing changes without an attempt.
    pub fn update_possible_answers(&mut self, last_attempt: Option<&Attempt>)
        ensures
            final(self).available_options@ == match last_attempt {
                None => old(self).available_options@,
                Some(a) => applied(old(self).available_options@, a.word@, a.score@),
            },
            final(self).possibility_grid == old(self).possibility_grid,
            final(self).restriction == old(self).restriction,
            unique_words(old(self).available_options@) ==> unique_words(final(self).available_options@),
    {
        match last_attempt {
            None => {},
            Some(a) => retain_consistent(&mut self.available_options, a, true),
        }
    }

    /// Narrows the candidates by the latest attempt of `history`, then names the first
    /// candidate of greatest weight; fails when no candidate is left.
    pub fn suggest(&mut self, history: &[Attempt]) -> (r: Result<String, SolveError>)
        ensures
            final(self).available_options@ == after_latest(old(self).available_options@, history@),
            unique_words(old(self).available_options@) ==> unique_words(final(self).available_options@),
            r is Err <==> final(self).available_options@.len() == 0,
            r matches Err(e) ==> e == SolveError::NoCandidatesRemain,
            r matches Ok(w) ==> exists|k: int|
                is_heaviest_first(final(self).available_options@, k) && w@
                    == final(self).available_options@[k].0@,
    {
        if history.len() > 0 {
            self.update_possible_answers(Some(&history[history.len() - 1]));
        }
        match heaviest(&self.available_options) {
            None => Err(SolveError::NoCandidatesRemain),
            Some(k) => Ok(self.available_options[k].0.clone()),
        }
    }
}

impl Solver for NaiveAlgorithm {
    fn solve(&mut self, history: &[Attempt]) -> Result<String, SolveError> {
        self.suggest(history)
    }
}

} // verus!
