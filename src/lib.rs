//! Guess elimination and guess selection for a five-letter word puzzle.
pub mod algorithms;
pub mod candidates;
pub mod score;

pub use score::{Attempt, Score};

use vstd::prelude::*;

verus! {

/// Why a strategy could not name a guess.
#[derive(Debug, Clone, Copy, PartialEq, Eq, Structural)]
pub enum SolveError {
    /// No word is consistent with the feedback received so far.
    NoCandidatesRemain,
}

/// Why a game ended without the answer being found.
#[derive(Debug, Clone, Copy, PartialEq, Eq, Structural)]
pub enum GameError {
    /// The answer or a guess does not have the puzzle's length.
    InvalidInputLength,
    /// A guess is not in the dictionary.
    UnknownGuess,
    /// The strategy found no word consistent with the feedback.
    NoCandidatesRemain,
    /// The answer was not found within the allowed number of turns.
    TurnLimit,
}

/// What one guess does to a game.
#[derive(Debug, Clone, Copy, PartialEq, Eq)]
pub enum TurnOutcome {
    /// The guess is the answer; the game ends after this many turns.
    Won(usize),
    /// The guess is recorded with this pattern and the game goes on.
    Next([Score; 5]),
    /// The game ends with this error.
    Failed(GameError),
}

/// A strategy that names the next guess from the attempts made so far.
pub trait Solver {
    /// The next guess for a history that grows by one attempt between calls.
    fn solve(&mut self, history: &[Attempt]) -> Result<String, SolveError>;
}

/// The candidate set after the latest attempt of `history`, or the set itself for an
/// empty history.
pub open spec fn after_latest(entries: Seq<(String, u32)>, history: Seq<Attempt>) -> Seq<
    (String, u32),
> {
    if history.len() == 0 {
        entries
    } else {
        candidates::applied(entries, history.last().word@, history.last().score@)
    }
}

/// The words a game accepts as guesses.
pub struct Wordle {
    dictionary: Vec<String>,
}

impl Wordle {
    /// The accepted words in the order they were first given.
    pub closed spec fn word_seq(&self) -> Seq<Seq<char>> {
        self.dictionary@.map_values(|s: String| s@)
    }

    /// The accepted words.
    pub open spec fn words(&self) -> Set<Seq<char>> {
        self.word_seq().to_set()
    }

    /// No word stands twice in the dictionary.
    pub open spec fn well_formed(&self) -> bool {
        self.word_seq().no_duplicates()
    }

    /// A dictionary of the given words, duplicates dropped.
    pub fn new(words: Vec<String>) -> (r: Self)
        ensures
            r.well_formed(),
            forall|w: Seq<char>| r.words().contains(w) <==> exists|i: int| 0 <= i < words@.len() && #[trigger] words@[i]@ == w,
    {
        let mut r = Wordle { dictionary: Vec::new() };
        assert(r.word_seq() =~= Seq::<Seq<char>>::empty());
        let mut i: usize = 0;
        while i < words.len()
            invariant
                i <= words@.len(),
                r.well_formed(),
                forall|w: Seq<char>| r.words().contains(w) <==> exists|k: int| 0 <= k < i && #[trigger] words@[k]@ == w,
            decreases words@.len() - i,
        {
            let ghost before = r.word_seq();
            let ghost w_i = words@[i as int]@;
            if !r.contains(words[i].as_str()) {
                r.dictionary.push(words[i].clone());
                assert(r.word_seq() =~= before.push(w_i));
                assert(!before.contains(w_i));
                assert(r.word_seq()[before.len() as int] == w_i);
                assert(r.word_seq().contains(w_i));
            } else {
                assert(r.word_seq() == before);
            }
            assert forall|w: Seq<char>| r.words().contains(w) <==> exists|k: int| 0 <= k < i + 1 && #[trigger] words@[k]@ == w by {
                if exists|k: int| 0 <= k < i + 1 && #[trigger] words@[k]@ == w {
                    let k = choose|k: int| 0 <= k < i + 1 && #[trigger] words@[k]@ == w;
                    if k == i {
                        assert(r.words().contains(w_i));
                    } else {
                        assert(before.to_set().contains(w));
                        let j = choose|j: int| 0 <= j < before.len() && before[j] == w;
                        assert(r.word_seq()[j] == w);
                        assert(r.word_seq().contains(w));
                    }
                }
                if r.word_seq().contains(w) && w != w_i {
                    assert(before.contains(w));
                    assert(before.to_set().contains(w));
                }
            }
            i += 1;
        }
        r
    }

    /// Whether `word` is an accepted guess.
    pub fn contains(&self, word: &str) -> (r: bool)
        ensures
            r == self.words().contains(word@),
    {
        let mut i: usize = 0;
        while i < self.dictionary.len()
            invariant
                i <= self.dictionary@.len(),
                forall|k: int| 0 <= k < i ==> self.dictionary@[k]@ != word@,
            decreases self.dictionary@.len() - i,
        {
            if score::same_word(self.dictionary[i].as_str(), word) {
                assert(self.word_seq()[i as int] == word@);
                return true;
            }
            i += 1;
        }
        assert(!self.word_seq().contains(word@));
        false
    }

    /// Plays a game against `answer`: the solver names a guess and `judge_turn` decides
    /// what it does, until the solver names the answer. The solver is handed every
    /// earlier guess with its pattern against the answer. Returns the number of turns taken,
    /// counting the last one. Fails when the answer has the wrong length, when a wrong
    /// guess is not in the dictionary or has the wrong length, when the solver fails, or
    /// when `max_turns` guesses pass without the answer.
    pub fn game<S: Solver>(&self, answer: &str, mut solver: S, max_turns: usize) -> (r: Result<
        usize,
        GameError,
    >)
        ensures
            answer@.len() != score::WORD_LEN ==> r == Err::<usize, GameError>(
                GameError::InvalidInputLength,
            ),
            max_turns == 0 && answer@.len() == score::WORD_LEN ==> r == Err::<usize, GameError>(
                GameError::TurnLimit,
            ),
            r matches Ok(n) ==> 1 <= n <= max_turns,
    {
        if answer.unicode_len() != score::WORD_LEN {
            return Err(GameError::InvalidInputLength);
        }
        let mut history: Vec<Attempt> = Vec::new();
        let mut turn: usize = 0;
        while turn < max_turns
            invariant
                turn <= max_turns,
                answer@.len() == score::WORD_LEN,
                history@.len() == turn,
                forall|j: int|
                    0 <= j < history@.len() ==> (#[trigger] history@[j]).word@ != answer@
                        && history@[j].score@ == score::color_of(answer@, history@[j].word@),
            decreases max_turns - turn,
        {
            let guess = match solver.solve(history.as_slice()) {
                Ok(g) => g,
                Err(_) => {
                    return Err(GameError::NoCandidatesRemain);
                },
            };
            turn += 1;
            match self.judge_turn(answer, guess.as_str(), turn) {
                TurnOutcome::Won(n) => {
                    return Ok(n);
                },
                TurnOutcome::Failed(e) => {
                    return Err(e);
                },
                TurnOutcome::Next(score) => {
                    history.push(Attempt { word: guess, score });
                },
            }
        }
        Err(GameError::TurnLimit)
    }

    /// Judges the guess made on turn `turn`: the answer wins the game on this turn; a
    /// guess outside the dictionary, or of the wrong length, ends it with an error; any
    /// other guess gets its pattern against the answer and the game goes on.
    pub fn judge_turn(&self, answer: &str, guess: &str, turn: usize) -> (r: TurnOutcome)
        requires
            answer@.len() == score::WORD_LEN,
        ensures
            guess@ == answer@ ==> r == TurnOutcome::Won(turn),
            guess@ != answer@ && !self.words().contains(guess@) ==> r == TurnOutcome::Failed(
                GameError::UnknownGuess,
            ),
            guess@ != answer@ && self.words().contains(guess@) && guess@.len() != score::WORD_LEN
                ==> r == TurnOutcome::Failed(GameError::InvalidInputLength),
            guess@ != answer@ && self.words().contains(guess@) && guess@.len() == score::WORD_LEN
                ==> (r matches TurnOutcome::Next(p) && p@ == score::color_of(answer@, guess@)),
    {
        if score::same_word(guess, answer) {
            return TurnOutcome::Won(turn);
        }
        if !self.contains(guess) {
            return TurnOutcome::Failed(GameError::UnknownGuess);
        }
        if guess.unicode_len() != score::WORD_LEN {
            return TurnOutcome::Failed(GameError::InvalidInputLength);
        }
        TurnOutcome::Next(Score::color(answer, guess))
    }

    /// The number of accepted words.
    pub fn len(&self) -> (r: usize)
        ensures
            r == self.word_seq().len(),
            self.well_formed() ==> r == self.words().len(),
    {
        proof {
            if self.well_formed() {
                self.word_seq().unique_seq_to_set();
            }
        }
        self.dictionary.len()
    }
}

} // verus!
