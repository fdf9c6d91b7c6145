use wordl::algorithms::NaiveAlgorithm;
use wordl::{Attempt, GameError, Score, SolveError, Solver, TurnOutcome, Wordle};

struct AlwaysHello;

impl Solver for AlwaysHello {
    fn solve(&mut self, _history: &[Attempt]) -> Result<String, SolveError> {
        Ok("hello".to_string())
    }
}

struct WorldThenHello;

impl Solver for WorldThenHello {
    fn solve(&mut self, history: &[Attempt]) -> Result<String, SolveError> {
        if history.len() == 1 {
            return Ok("hello".to_string());
        } else {
            return Ok("world".to_string());
        }
    }
}

struct Fixed(&'static str);

impl Solver for Fixed {
    fn solve(&mut self, _history: &[Attempt]) -> Result<String, SolveError> {
        Ok(self.0.to_string())
    }
}

struct Stuck;

impl Solver for Stuck {
    fn solve(&mut self, _history: &[Attempt]) -> Result<String, SolveError> {
        Err(SolveError::NoCandidatesRemain)
    }
}

fn dictionary() -> Wordle {
    Wordle::new(vec!["hello".to_string(), "world".to_string(), "weary".to_string()])
}

#[test]
fn test_game_success_on_attempt_1() {
    let wordle = dictionary();
    let answer = "hello";
    let solver = AlwaysHello;
    assert_eq!(wordle.game(answer, solver, 6), Ok(1));
}

#[test]
fn test_game_success_on_attempt_2() {
    let wordle = dictionary();
    let answer = "hello";
    let solver = WorldThenHello;
    assert_eq!(wordle.game(answer, solver, 6), Ok(2));
}

#[test]
fn game_reports_each_failure() {
    let wordle = dictionary();
    assert_eq!(wordle.game("hell", AlwaysHello, 6), Err(GameError::InvalidInputLength));
    assert_eq!(wordle.game("hello", Fixed("zzzzz"), 6), Err(GameError::UnknownGuess));
    assert_eq!(wordle.game("hello", Fixed("weary"), 3), Err(GameError::TurnLimit));
    assert_eq!(wordle.game("hello", AlwaysHello, 0), Err(GameError::TurnLimit));
    assert_eq!(wordle.game("hello", Stuck, 6), Err(GameError::NoCandidatesRemain));
}

#[test]
fn game_with_naive_strategy_finds_the_answer() {
    let corpus: Vec<(String, u32)> = [("weary", 9), ("world", 5), ("hello", 1)]
        .iter()
        .map(|(w, f)| (w.to_string(), *f))
        .collect();
    let wordle = dictionary();
    let turns = wordle.game("hello", NaiveAlgorithm::new(corpus), 6).unwrap();
    assert_eq!(turns, 2);
    assert_eq!(Score::color("hello", "weary")[1], Score::Correct);
}

/// Names its guesses in turn and records each history it is handed.
struct Scripted {
    guesses: Vec<&'static str>,
    seen: Vec<Vec<(String, [Score; 5])>>,
}

impl Solver for &mut Scripted {
    fn solve(&mut self, history: &[Attempt]) -> Result<String, SolveError> {
        self.seen.push(history.iter().map(|a| (a.word.clone(), a.score)).collect());
        Ok(self.guesses[history.len()].to_string())
    }
}

#[test]
fn game_hands_the_solver_every_scored_guess() {
    let wordle = dictionary();
    let mut solver = Scripted { guesses: vec!["world", "weary", "hello"], seen: Vec::new() };
    assert_eq!(wordle.game("hello", &mut solver, 6), Ok(3));
    assert_eq!(solver.seen.len(), 3);
    assert!(solver.seen[0].is_empty());
    assert_eq!(solver.seen[1], vec![("world".to_string(), Score::color("hello", "world"))]);
    assert_eq!(
        solver.seen[2],
        vec![
            ("world".to_string(), Score::color("hello", "world")),
            ("weary".to_string(), Score::color("hello", "weary")),
        ]
    );
}

#[test]
fn judge_turn_decides_each_guess() {
    let wordle = Wordle::new(vec!["hello".to_string(), "world".to_string(), "hell".to_string()]);
    assert_eq!(wordle.judge_turn("hello", "hello", 4), TurnOutcome::Won(4));
    assert_eq!(wordle.judge_turn("hello", "zzzzz", 1), TurnOutcome::Failed(GameError::UnknownGuess));
    assert_eq!(wordle.judge_turn("hello", "hell", 1), TurnOutcome::Failed(GameError::InvalidInputLength));
    assert_eq!(
        wordle.judge_turn("hello", "world", 2),
        TurnOutcome::Next(Score::color("hello", "world"))
    );
}
