//! Feedback of one guess against a secret word.
use vstd::math::min;
use vstd::prelude::*;

verus! {

/// The number of letters in a word.
pub const WORD_LEN: usize = 5;

/// The classification of one letter of a guess.
#[derive(Debug, Clone, Copy, PartialEq, Eq, Structural)]
pub enum Score {
    /// The letter stands at this position of the secret.
    Correct,
    /// The letter occurs elsewhere in the secret.
    Misplaced,
    /// The letter is not (or no more often) in the secret.
    Incorrect,
}

/// The number of positions `k < n` where the secret holds `c` and the guess does not
/// match it there.
pub open spec fn unmatched_in_secret(secret: Seq<char>, guess: Seq<char>, c: char, n: int) -> nat
    decreases n,
{
    if n <= 0 {
        0
    } else {
        unmatched_in_secret(secret, guess, c, n - 1) + if secret[n - 1] == c && secret[n - 1]
            != guess[n - 1] {
            1nat
        } else {
            0nat
        }
    }
}

/// The number of positions `k < n` where the guess holds `c` and does not match the
/// secret there.
pub open spec fn unmatched_in_guess(secret: Seq<char>, guess: Seq<char>, c: char, n: int) -> nat
    decreases n,
{
    if n <= 0 {
        0
    } else {
        unmatched_in_guess(secret, guess, c, n - 1) + if guess[n - 1] == c && secret[n - 1]
            != guess[n - 1] {
            1nat
        } else {
            0nat
        }
    }
}

/// The score of position `i`: exact matches are Correct; the remaining occurrences of a
/// letter in the guess are Misplaced, from left to right, as long as the secret has
/// unmatched occurrences of that letter left for them; the rest are Incorrect.
pub open spec fn score_at(secret: Seq<char>, guess: Seq<char>, i: int) -> Score {
    if secret[i] == guess[i] {
        Score::Correct
    } else if unmatched_in_guess(secret, guess, guess[i], i) < unmatched_in_secret(
        secret,
        guess,
        guess[i],
        WORD_LEN as int,
    ) {
        Score::Misplaced
    } else {
        Score::Incorrect
    }
}

/// The feedback pattern that `guess` receives when `secret` is the answer.
pub open spec fn color_of(secret: Seq<char>, guess: Seq<char>) -> Seq<Score> {
    Seq::new(WORD_LEN as nat, |i: int| score_at(secret, guess, i))
}

/// The number of positions `k < n` where `w` holds `c`.
pub open spec fn occurrences(w: Seq<char>, c: char, n: int) -> nat
    decreases n,
{
    if n <= 0 {
        0
    } else {
        occurrences(w, c, n - 1) + if w[n - 1] == c {
            1nat
        } else {
            0nat
        }
    }
}

/// The number of positions `k < n` where both words hold `c`.
pub open spec fn exact_matches(secret: Seq<char>, guess: Seq<char>, c: char, n: int) -> nat
    decreases n,
{
    if n <= 0 {
        0
    } else {
        exact_matches(secret, guess, c, n - 1) + if secret[n - 1] == c && guess[n - 1] == c {
            1nat
        } else {
            0nat
        }
    }
}

/// The number of positions `k < n` where the guess holds `c` and is not scored Incorrect.
pub open spec fn marked(secret: Seq<char>, guess: Seq<char>, c: char, n: int) -> nat
    decreases n,
{
    if n <= 0 {
        0
    } else {
        marked(secret, guess, c, n - 1) + if guess[n - 1] == c && score_at(secret, guess, n - 1)
            != Score::Incorrect {
            1nat
        } else {
            0nat
        }
    }
}

proof fn lemma_counts_split(secret: Seq<char>, guess: Seq<char>, c: char, n: int)
    requires
        is_word(secret),
        is_word(guess),
        0 <= n <= WORD_LEN,
    ensures
        occurrences(secret, c, n) == exact_matches(secret, guess, c, n) + unmatched_in_secret(
            secret,
            guess,
            c,
            n,
        ),
        occurrences(guess, c, n) == exact_matches(secret, guess, c, n) + unmatched_in_guess(
            secret,
            guess,
            c,
            n,
        ),
        marked(secret, guess, c, n) == exact_matches(secret, guess, c, n) + min(
            unmatched_in_guess(secret, guess, c, n) as int,
            unmatched_in_secret(secret, guess, c, WORD_LEN as int) as int,
        ),
    decreases n,
{
    if n > 0 {
        lemma_counts_split(secret, guess, c, n - 1);
    }
}

/// A letter that occurs `k` times in the secret and `m` times in the guess receives
/// exactly `min(k, m)` marks that are not Incorrect.
pub proof fn lemma_marks_per_letter(secret: Seq<char>, guess: Seq<char>, c: char)
    requires
        is_word(secret),
        is_word(guess),
    ensures
        marked(secret, guess, c, WORD_LEN as int) == min(
            occurrences(secret, c, WORD_LEN as int) as int,
            occurrences(guess, c, WORD_LEN as int) as int,
        ),
{
    lemma_counts_split(secret, guess, c, WORD_LEN as int);
}

/// A pattern in which every position is Correct.
pub open spec fn all_correct() -> Seq<Score> {
    Seq::new(WORD_LEN as nat, |i: int| Score::Correct)
}

/// A word of the puzzle's length.
pub open spec fn is_word(w: Seq<char>) -> bool {
    w.len() == WORD_LEN
}

/// Could `candidate` be the secret, given that `guess` was scored `pattern`?
pub open spec fn consistent(guess: Seq<char>, pattern: Seq<Score>, candidate: Seq<char>) -> bool {
    is_word(guess) && is_word(candidate) && color_of(candidate, guess) == pattern
}

/// One guess and the feedback it received.
#[derive(Debug)]
pub struct Attempt {
    /// The word that was guessed.
    pub word: String,
    /// The score of each letter of the guess.
    pub score: [Score; 5],
}

/// The characters of a word, read one by one.
fn chars_of(s: &str) -> (r: Vec<char>)
    requires
        s@.len() == WORD_LEN,
    ensures
        r@ == s@,
{
    let mut r: Vec<char> = Vec::new();
    let mut i: usize = 0;
    while i < WORD_LEN
        invariant
            s@.len() == WORD_LEN,
            i <= WORD_LEN,
            r@ == s@.subrange(0, i as int),
        decreases WORD_LEN - i,
    {
        r.push(s.get_char(i));
        i += 1;
    }
    assert(r@ =~= s@);
    r
}

/// Counts the positions below `n` where the secret holds `c` unmatched.
fn count_unmatched_in_secret(secret: &Vec<char>, guess: &Vec<char>, c: char, n: usize) -> (r:
    usize)
    requires
        secret@.len() == WORD_LEN,
        guess@.len() == WORD_LEN,
        n <= WORD_LEN,
    ensures
        r == unmatched_in_secret(secret@, guess@, c, n as int),
{
    let mut r: usize = 0;
    let mut k: usize = 0;
    while k < n
        invariant
            secret@.len() == WORD_LEN,
            guess@.len() == WORD_LEN,
            n <= WORD_LEN,
            k <= n,
            r == unmatched_in_secret(secret@, guess@, c, k as int),
            r <= k,
        decreases n - k,
    {
        if secret[k] == c && secret[k] != guess[k] {
            r += 1;
        }
        k += 1;
    }
    r
}

/// Counts the positions below `n` where the guess holds `c` unmatched.
fn count_unmatched_in_guess(secret: &Vec<char>, guess: &Vec<char>, c: char, n: usize) -> (r:
    usize)
    requires
        secret@.len() == WORD_LEN,
        guess@.len() == WORD_LEN,
        n <= WORD_LEN,
    ensures
        r == unmatched_in_guess(secret@, guess@, c, n as int),
{
    let mut r: usize = 0;
    let mut k: usize = 0;
    while k < n
        invariant
            secret@.len() == WORD_LEN,
            guess@.len() == WORD_LEN,
            n <= WORD_LEN,
            k <= n,
            r == unmatched_in_guess(secret@, guess@, c, k as int),
            r <= k,
        decreases n - k,
    {
        if guess[k] == c && secret[k] != guess[k] {
            r += 1;
        }
        k += 1;
    }
    r
}

/// The number of distinct feedback patterns.
pub const PATTERN_COUNT: usize = 243;

/// The score that a base-three digit stands for.
pub open spec fn score_of_digit(d: int) -> Score {
    if d == 0 {
        Score::Correct
    } else if d == 1 {
        Score::Misplaced
    } else {
        Score::Incorrect
    }
}

/// The place value of position `p` when a pattern is read as a base-three number whose
/// first position is the most significant.
pub open spec fn place_value(p: int) -> int {
    if p == 0 {
        81
    } else if p == 1 {
        27
    } else if p == 2 {
        9
    } else if p == 3 {
        3
    } else {
        1
    }
}

/// The pattern numbered `k`: its positions are the base-three digits of `k`.
pub open spec fn pattern_at(k: int) -> Seq<Score> {
    Seq::new(WORD_LEN as nat, |p: int| score_of_digit((k / place_value(p)) % 3))
}

/// The base-three digit that a score stands for.
pub open spec fn digit_of(s: Score) -> int {
    match s {
        Score::Correct => 0,
        Score::Misplaced => 1,
        Score::Incorrect => 2,
    }
}

/// The number of a pattern: its positions read as base-three digits.
pub open spec fn index_of(p: Seq<Score>) -> int {
    digit_of(p[0]) * 81 + digit_of(p[1]) * 27 + digit_of(p[2]) * 9 + digit_of(p[3]) * 3
        + digit_of(p[4])
}

proof fn lemma_digit_at(x: int, high: int, d: int, low: int, pv: int)
    requires
        pv > 0,
        0 <= d < 3,
        0 <= low < pv,
        high >= 0,
        x == high * (3 * pv) + d * pv + low,
    ensures
        (x / pv) % 3 == d,
{
    assert(x == (high * 3 + d) * pv + low) by (nonlinear_arith)
        requires
            x == high * (3 * pv) + d * pv + low,
    ;
    vstd::arithmetic::div_mod::lemma_fundamental_div_mod_converse(x, pv, high * 3 + d, low);
    vstd::arithmetic::div_mod::lemma_fundamental_div_mod_converse(high * 3 + d, 3, high, d);
}

/// Every pattern is the pattern of its own number, and that number is one of the 243.
pub proof fn lemma_pattern_index(p: Seq<Score>)
    requires
        p.len() == WORD_LEN,
    ensures
        0 <= index_of(p) < PATTERN_COUNT,
        pattern_at(index_of(p)) == p,
{
    let (d0, d1, d2, d3, d4) = (
        digit_of(p[0]),
        digit_of(p[1]),
        digit_of(p[2]),
        digit_of(p[3]),
        digit_of(p[4]),
    );
    let x = index_of(p);
    lemma_digit_at(x, 0, d0, d1 * 27 + d2 * 9 + d3 * 3 + d4, 81);
    lemma_digit_at(x, d0, d1, d2 * 9 + d3 * 3 + d4, 27);
    lemma_digit_at(x, d0 * 3 + d1, d2, d3 * 3 + d4, 9);
    lemma_digit_at(x, d0 * 9 + d1 * 3 + d2, d3, d4, 3);
    lemma_digit_at(x, d0 * 27 + d1 * 9 + d2 * 3 + d3, d4, 0, 1);
    assert(pattern_at(x) =~= p);
}

/// Distinct numbers below 243 name distinct patterns.
pub proof fn lemma_pattern_at_injective(j: int, k: int)
    requires
        0 <= j < PATTERN_COUNT,
        0 <= k < PATTERN_COUNT,
        pattern_at(j) == pattern_at(k),
    ensures
        j == k,
{
    lemma_index_of_pattern_at(j);
    lemma_index_of_pattern_at(k);
}

proof fn lemma_index_of_pattern_at(k: int)
    requires
        0 <= k < PATTERN_COUNT,
    ensures
        index_of(pattern_at(k)) == k,
{
    let p = pattern_at(k);
    assert(digit_of(score_of_digit((k / 81) % 3)) == (k / 81) % 3);
    assert(digit_of(score_of_digit((k / 27) % 3)) == (k / 27) % 3);
    assert(digit_of(score_of_digit((k / 9) % 3)) == (k / 9) % 3);
    assert(digit_of(score_of_digit((k / 3) % 3)) == (k / 3) % 3);
    assert(digit_of(score_of_digit((k / 1) % 3)) == (k / 1) % 3);
    let kk = k as u32;
    assert(((kk / 81) % 3) * 81 + ((kk / 27) % 3) * 27 + ((kk / 9) % 3) * 9 + ((kk / 3) % 3) * 3
        + kk % 3 == kk) by (bit_vector)
        requires
            kk < 243,
    ;
}

/// The score that the digit `d` stands for.
fn score_of(d: usize) -> (r: Score)
    ensures
        r == score_of_digit(d as int),
{
    if d == 0 {
        Score::Correct
    } else if d == 1 {
        Score::Misplaced
    } else {
        Score::Incorrect
    }
}

impl Score {
    /// Every feedback pattern, in the order of a product that varies the last position
    /// fastest, with Correct before Misplaced before Incorrect.
    pub fn permutations() -> (r: Vec<[Score; 5]>)
        ensures
            r@.len() == PATTERN_COUNT,
            forall|k: int| 0 <= k < PATTERN_COUNT ==> (#[trigger] r@[k])@ == pattern_at(k),
    {
        let mut r: Vec<[Score; 5]> = Vec::new();
        let mut k: usize = 0;
        while k < PATTERN_COUNT
            invariant
                k <= PATTERN_COUNT,
                r@.len() == k,
                forall|j: int| 0 <= j < k ==> (#[trigger] r@[j])@ == pattern_at(j),
            decreases PATTERN_COUNT - k,
        {
            let p = [
                score_of((k / 81) % 3),
                score_of((k / 27) % 3),
                score_of((k / 9) % 3),
                score_of((k / 3) % 3),
                score_of(k % 3),
            ];
            assert(p@ =~= pattern_at(k as int));
            r.push(p);
            k += 1;
        }
        r
    }

    /// Scores `guess` against the secret `answer`: Correct where the letters match,
    /// Misplaced for a letter that the secret still holds unclaimed elsewhere, and
    /// Incorrect otherwise. A letter that occurs `k` times in the secret and `m` times
    /// in the guess gets `min(k, m)` marks that are not Incorrect.
    pub fn color(answer: &str, guess: &str) -> (r: [Score; 5])
        requires
            answer@.len() == WORD_LEN,
            guess@.len() == WORD_LEN,
        ensures
            r@ == color_of(answer@, guess@),
    {
        let a = chars_of(answer);
        let g = chars_of(guess);
        let mut r = [Score::Incorrect, Score::Incorrect, Score::Incorrect, Score::Incorrect, Score::Incorrect];
        assert(forall|j: int| 0 <= j < 5 ==> r@[j] == Score::Incorrect);
        // First pass: exact matches.
        let mut i: usize = 0;
        while i < WORD_LEN
            invariant
                a@ == answer@,
                g@ == guess@,
                a@.len() == WORD_LEN,
                g@.len() == WORD_LEN,
                i <= WORD_LEN,
                r@.len() == WORD_LEN,
                forall|j: int|
                    0 <= j < i ==> (r@[j] == Score::Correct <==> a@[j] == g@[j]),
                forall|j: int| i <= j < WORD_LEN ==> r@[j] == Score::Incorrect,
                forall|j: int|
                    0 <= j < WORD_LEN ==> (r@[j] == Score::Correct || r@[j] == Score::Incorrect),
            decreases WORD_LEN - i,
        {
            if a[i] == g[i] {
                r[i] = Score::Correct;
            }
            i += 1;
        }
        // Second pass: the other letters claim what the secret has left of them.
        let mut i: usize = 0;
        while i < WORD_LEN
            invariant
                a@ == answer@,
                g@ == guess@,
                a@.len() == WORD_LEN,
                g@.len() == WORD_LEN,
                i <= WORD_LEN,
                r@.len() == WORD_LEN,
                forall|j: int| 0 <= j < i ==> r@[j] == score_at(a@, g@, j),
                forall|j: int|
                    i <= j < WORD_LEN ==> (r@[j] == Score::Correct <==> a@[j] == g@[j]),
                forall|j: int|
                    i <= j < WORD_LEN ==> (r@[j] == Score::Correct || r@[j] == Score::Incorrect),
            decreases WORD_LEN - i,
        {
            if a[i] != g[i] {
                let claimed = count_unmatched_in_guess(&a, &g, g[i], i);
                let budget = count_unmatched_in_secret(&a, &g, g[i], WORD_LEN);
                if claimed < budget {
                    r[i] = Score::Misplaced;
                }
            }
            i += 1;
        }
        assert(r@ =~= color_of(answer@, guess@));
        r
    }
}

/// Whether two strings hold the same characters.
pub fn same_word(a: &str, b: &str) -> (r: bool)
    ensures
        r == (a@ == b@),
{
    let n = a.unicode_len();
    if n != b.unicode_len() {
        return false;
    }
    let mut i: usize = 0;
    while i < n
        invariant
            n == a@.len(),
            n == b@.len(),
            i <= n,
            forall|j: int| 0 <= j < i ==> a@[j] == b@[j],
        decreases n - i,
    {
        if a.get_char(i) != b.get_char(i) {
            return false;
        }
        i += 1;
    }
    assert(a@ =~= b@);
    true
}

/// Whether two patterns agree at every position.
pub fn same_pattern(a: &[Score; 5], b: &[Score; 5]) -> (r: bool)
    ensures
        r == (a@ == b@),
{
    let mut i: usize = 0;
    while i < WORD_LEN
        invariant
            i <= WORD_LEN,
            a@.len() == WORD_LEN,
            b@.len() == WORD_LEN,
            forall|j: int| 0 <= j < i ==> a@[j] == b@[j],
        decreases WORD_LEN - i,
    {
        if a[i] != b[i] {
            return false;
        }
        i += 1;
    }
    assert(a@ =~= b@);
    true
}

/// A word scored against itself is Correct at every position.
pub proof fn lemma_color_self(w: Seq<char>)
    requires
        is_word(w),
    ensures
        color_of(w, w) == all_correct(),
{
    assert(color_of(w, w) =~= all_correct());
}

/// The secret is always consistent with the feedback that any guess receives against it.
pub proof fn lemma_secret_survives(secret: Seq<char>, guess: Seq<char>)
    requires
        is_word(secret),
        is_word(guess),
    ensures
        consistent(guess, color_of(secret, guess), secret),
{
}

} // verus!
