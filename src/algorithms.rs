//! The guess-selection strategies.
mod basic;
mod entropy;
mod naive;
mod optimized_entropy;
mod utils;





pub use basic::BasicAlgorithm;
pub use entropy::HighestEntropyAlgorithm;
pub use naive::NaiveAlgorithm;
pub use optimized_entropy::{starter_word, OptimizedEntropyAlgorithm};
pub use utils::Utils;

use vstd::prelude::*;

verus! {

/// What a ranking strategy does next on its turn.
#[derive(Debug, PartialEq, Eq)]
pub enum Step {
    /// Play this word without ranking.
    Guess(String),
    /// The candidate set is narrowed and not empty: rank it and play the best word.
    Rank,
}

} // verus!
