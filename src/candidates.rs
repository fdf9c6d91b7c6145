//! The set of words still possible, each with its corpus weight, and the filter that
//! narrows it by one attempt's feedback.
use crate::algorithms::Utils;
use crate::score::{
    color_of, consistent, index_of, is_word, lemma_pattern_at_injective, lemma_pattern_index,
    pattern_at, same_word, Attempt, Score, PATTERN_COUNT,
};
use vstd::prelude::*;

verus! {

/// Whether a filter by (`guess`, `pattern`) keeps `word`; with `drop_guess` the guessed
/// word itself goes as well.
pub open spec fn keeps(guess: Seq<char>, pattern: Seq<Score>, drop_guess: bool, word: Seq<char>) -> bool {
    (!drop_guess || word != guess) && consistent(guess, pattern, word)
}

/// The entries that a filter keeps, in their order.
pub open spec fn retained<W>(
    entries: Seq<(String, W)>,
    guess: Seq<char>,
    pattern: Seq<Score>,
    drop_guess: bool,
) -> Seq<(String, W)>
    decreases entries.len(),
{
    if entries.len() == 0 {
        entries
    } else {
        let rest = retained(entries.drop_last(), guess, pattern, drop_guess);
        if keeps(guess, pattern, drop_guess, entries.last().0@) {
            rest.push(entries.last())
        } else {
            rest
        }
    }
}

/// The candidate set after an attempt: the guess is removed and only the words
/// consistent with its feedback stay.
pub open spec fn applied<W>(entries: Seq<(String, W)>, guess: Seq<char>, pattern: Seq<Score>) -> Seq<
    (String, W),
> {
    retained(entries, guess, pattern, true)
}

/// The number of entries whose word would give `pattern` as the feedback to `guess`.
pub open spec fn partition_size<W>(entries: Seq<(String, W)>, guess: Seq<char>, pattern: Seq<Score>) -> nat {
    retained(entries, guess, pattern, false).len()
}

/// Filtering never adds entries, and every entry it keeps passes the filter.
pub proof fn lemma_retained_sound<W>(
    entries: Seq<(String, W)>,
    guess: Seq<char>,
    pattern: Seq<Score>,
    drop_guess: bool,
)
    ensures
        retained(entries, guess, pattern, drop_guess).len() <= entries.len(),
        forall|k: int|
            0 <= k < retained(entries, guess, pattern, drop_guess).len() ==> keeps(
                guess,
                pattern,
                drop_guess,
                #[trigger] retained(entries, guess, pattern, drop_guess)[k].0@,
            ),
    decreases entries.len(),
{
    if entries.len() > 0 {
        lemma_retained_sound(entries.drop_last(), guess, pattern, drop_guess);
    }
}

/// Filtering an already filtered set by the same predicate changes nothing.
proof fn lemma_retained_idempotent<W>(
    entries: Seq<(String, W)>,
    guess: Seq<char>,
    pattern: Seq<Score>,
    drop_guess: bool,
)
    ensures
        retained(retained(entries, guess, pattern, drop_guess), guess, pattern, drop_guess)
            == retained(entries, guess, pattern, drop_guess),
    decreases entries.len(),
{
    if entries.len() > 0 {
        let rest = retained(entries.drop_last(), guess, pattern, drop_guess);
        lemma_retained_idempotent(entries.drop_last(), guess, pattern, drop_guess);
        if keeps(guess, pattern, drop_guess, entries.last().0@) {
            assert(rest.push(entries.last()).drop_last() =~= rest);
        }
    }
}

/// Every entry that a filter keeps is an entry of the set it filtered.
proof fn lemma_retained_from<W>(
    entries: Seq<(String, W)>,
    guess: Seq<char>,
    pattern: Seq<Score>,
    drop_guess: bool,
)
    ensures
        forall|k: int|
            0 <= k < retained(entries, guess, pattern, drop_guess).len() ==> exists|i: int|
                0 <= i < entries.len() && entries[i] == #[trigger] retained(
                    entries,
                    guess,
                    pattern,
                    drop_guess,
                )[k],
    decreases entries.len(),
{
    if entries.len() > 0 {
        let prev = entries.drop_last();
        let rest = retained(prev, guess, pattern, drop_guess);
        lemma_retained_from(prev, guess, pattern, drop_guess);
        let r = retained(entries, guess, pattern, drop_guess);
        assert forall|k: int| 0 <= k < r.len() implies exists|i: int|
            0 <= i < entries.len() && entries[i] == #[trigger] r[k] by {
            if k < rest.len() {
                assert(r[k] == rest[k]);
                let i = choose|i: int| 0 <= i < prev.len() && prev[i] == #[trigger] rest[k];
                assert(entries[i] == prev[i]);
            } else {
                assert(r[k] == entries[entries.len() - 1]);
            }
        }
    }
}

/// Filtering a set whose words are unique leaves a set whose words are unique.
pub proof fn lemma_retained_unique<W>(
    entries: Seq<(String, W)>,
    guess: Seq<char>,
    pattern: Seq<Score>,
    drop_guess: bool,
)
    requires
        unique_words(entries),
    ensures
        unique_words(retained(entries, guess, pattern, drop_guess)),
    decreases entries.len(),
{
    if entries.len() > 0 {
        let prev = entries.drop_last();
        let rest = retained(prev, guess, pattern, drop_guess);
        lemma_retained_unique(prev, guess, pattern, drop_guess);
        lemma_retained_from(prev, guess, pattern, drop_guess);
        let r = retained(entries, guess, pattern, drop_guess);
        if keeps(guess, pattern, drop_guess, entries.last().0@) {
            assert forall|a: int, b: int| 0 <= a < b < r.len() implies r[a].0@ != r[b].0@ by {
                if b == rest.len() {
                    assert(r[a] == rest[a]);
                    let i = choose|i: int| 0 <= i < prev.len() && prev[i] == #[trigger] rest[a];
                    assert(entries[i] == prev[i]);
                } else {
                    assert(r[a] == rest[a] && r[b] == rest[b]);
                }
            }
        }
    }
}

/// Applying the same attempt twice gives what applying it once gives.
pub proof fn lemma_apply_idempotent(entries: Seq<(String, u32)>, guess: Seq<char>, pattern: Seq<Score>)
    ensures
        applied(applied(entries, guess, pattern), guess, pattern) == applied(entries, guess, pattern),
{
    lemma_retained_idempotent(entries, guess, pattern, true);
}

/// Applying an attempt never makes the candidate set larger.
pub proof fn lemma_apply_shrinks(entries: Seq<(String, u32)>, guess: Seq<char>, pattern: Seq<Score>)
    ensures
        applied(entries, guess, pattern).len() <= entries.len(),
{
    lemma_retained_sound(entries, guess, pattern, true);
}

/// A secret among the candidates is still among them after an attempt with any other
/// guess is applied with the feedback that guess receives against the secret.
pub proof fn lemma_secret_stays<W>(entries: Seq<(String, W)>, secret: Seq<char>, guess: Seq<char>)
    requires
        is_word(secret),
        is_word(guess),
        secret != guess,
        has_word(entries, secret),
    ensures
        has_word(applied(entries, guess, color_of(secret, guess)), secret),
    decreases entries.len(),
{
    let pattern = color_of(secret, guess);
    let rest = applied(entries.drop_last(), guess, pattern);
    let i = choose|i: int| 0 <= i < entries.len() && #[trigger] entries[i].0@ == secret;
    if i == entries.len() - 1 {
        assert(keeps(guess, pattern, true, secret));
        assert(applied(entries, guess, pattern) == rest.push(entries.last()));
        assert(rest.push(entries.last())[rest.len() as int].0@ == secret);
    } else {
        assert(entries.drop_last()[i].0@ == secret);
        lemma_secret_stays(entries.drop_last(), secret, guess);
        let j = choose|j: int| 0 <= j < rest.len() && #[trigger] rest[j].0@ == secret;
        if keeps(guess, pattern, true, entries.last().0@) {
            assert(rest.push(entries.last())[j].0@ == secret);
        }
    }
}

/// Keeps, in order, the entries whose word passes the filter by `attempt`.
pub fn retain_consistent<W: Copy>(entries: &mut Vec<(String, W)>, attempt: &Attempt, drop_guess: bool)
    ensures
        final(entries)@ == retained(old(entries)@, attempt.word@, attempt.score@, drop_guess),
        unique_words(old(entries)@) ==> unique_words(final(entries)@),
{
    proof {
        if unique_words(entries@) {
            lemma_retained_unique(entries@, attempt.word@, attempt.score@, drop_guess);
        }
    }
    let mut kept: Vec<(String, W)> = Vec::new();
    let mut i: usize = 0;
    while i < entries.len()
        invariant
            i <= entries@.len(),
            kept@ == retained(entries@.subrange(0, i as int), attempt.word@, attempt.score@, drop_guess),
        decreases entries@.len() - i,
    {
        let ghost prefix = entries@.subrange(0, i as int);
        assert(entries@.subrange(0, i + 1).drop_last() =~= prefix);
        let pass = Utils::if_attempt_is_similar_to_word(attempt, entries[i].0.as_str()) && (!drop_guess || entries[i].0
            != attempt.word);
        if pass {
            kept.push((entries[i].0.clone(), entries[i].1));
        }
        i += 1;
    }
    assert(entries@.subrange(0, entries@.len() as int) =~= entries@);
    *entries = kept;
}

/// Counts the entries whose word passes the filter by `attempt`, changing nothing.
pub fn count_retained<W: Copy>(entries: &Vec<(String, W)>, attempt: &Attempt, drop_guess: bool) -> (r: usize)
    ensures
        r == retained(entries@, attempt.word@, attempt.score@, drop_guess).len(),
{
    let mut n: usize = 0;
    let mut i: usize = 0;
    while i < entries.len()
        invariant
            i <= entries@.len(),
            n == retained(entries@.subrange(0, i as int), attempt.word@, attempt.score@, drop_guess).len(),
            n <= i,
        decreases entries@.len() - i,
    {
        let ghost prefix = entries@.subrange(0, i as int);
        assert(entries@.subrange(0, i + 1).drop_last() =~= prefix);
        let pass = Utils::if_attempt_is_similar_to_word(attempt, entries[i].0.as_str()) && (!drop_guess
            || entries[i].0 != attempt.word);
        if pass {
            n += 1;
        }
        i += 1;
    }
    assert(entries@.subrange(0, entries@.len() as int) =~= entries@);
    n
}

/// For each feedback pattern, in the order of `Score::permutations`, the number of
/// entries whose word would give that pattern as the feedback to `word`.
pub fn pattern_counts(word: &str, entries: &Vec<(String, u32)>) -> (r: Vec<usize>)
    ensures
        r@.len() == PATTERN_COUNT,
        forall|k: int|
            0 <= k < PATTERN_COUNT ==> #[trigger] r@[k] == partition_size(entries@, word@, pattern_at(k)),
{
    let patterns = Score::permutations();
    let mut r: Vec<usize> = Vec::new();
    let mut k: usize = 0;
    while k < PATTERN_COUNT
        invariant
            k <= PATTERN_COUNT,
            patterns@.len() == PATTERN_COUNT,
            forall|j: int| 0 <= j < PATTERN_COUNT ==> (#[trigger] patterns@[j])@ == pattern_at(j),
            r@.len() == k,
            forall|j: int|
                0 <= j < k ==> #[trigger] r@[j] == partition_size(entries@, word@, pattern_at(j)),
        decreases PATTERN_COUNT - k,
    {
        let attempt = Attempt { word: word.to_owned(), score: patterns[k] };
        let n = count_retained(entries, &attempt, false);
        r.push(n);
        k += 1;
    }
    r
}

/// The sum of the weights of the entries.
pub open spec fn weight_sum(entries: Seq<(String, u32)>) -> int
    decreases entries.len(),
{
    if entries.len() == 0 {
        0
    } else {
        weight_sum(entries.drop_last()) + entries.last().1
    }
}

/// The weight of the last entry for `word`, or zero where there is none.
pub open spec fn weight_of(entries: Seq<(String, u32)>, word: Seq<char>) -> u32
    decreases entries.len(),
{
    if entries.len() == 0 {
        0
    } else if entries.last().0@ == word {
        entries.last().1
    } else {
        weight_of(entries.drop_last(), word)
    }
}

proof fn lemma_weight_sum_bound(entries: Seq<(String, u32)>)
    ensures
        0 <= weight_sum(entries) <= entries.len() * 0xffff_ffff,
    decreases entries.len(),
{
    if entries.len() > 0 {
        lemma_weight_sum_bound(entries.drop_last());
        assert(weight_sum(entries.drop_last()) <= (entries.len() - 1) * 0xffff_ffff) by (nonlinear_arith)
            requires weight_sum(entries.drop_last()) <= entries.drop_last().len() * 0xffff_ffff,
                entries.drop_last().len() == entries.len() - 1;
        assert((entries.len() - 1) * 0xffff_ffff + 0xffff_ffff == entries.len() * 0xffff_ffff) by (nonlinear_arith);
    }
}

/// The total weight of the entries.
pub fn total_frequency(entries: &Vec<(String, u32)>) -> (r: u128)
    ensures
        r == weight_sum(entries@),
{
    let mut r: u128 = 0;
    let mut i: usize = 0;
    while i < entries.len()
        invariant
            i <= entries@.len(),
            r == weight_sum(entries@.subrange(0, i as int)),
        decreases entries@.len() - i,
    {
        let ghost prefix = entries@.subrange(0, i as int);
        assert(entries@.subrange(0, i + 1).drop_last() =~= prefix);
        proof {
            lemma_weight_sum_bound(prefix);
            assert(prefix.len() * 0xffff_ffff <= 0xffff_ffff_ffff_ffff * 0xffff_ffff) by (nonlinear_arith)
                requires prefix.len() <= 0xffff_ffff_ffff_ffff;
        }
        r = r + entries[i].1 as u128;
        i += 1;
    }
    assert(entries@.subrange(0, entries@.len() as int) =~= entries@);
    r
}

/// The weight of `word` in the entries, zero where it has none.
pub fn frequency(entries: &Vec<(String, u32)>, word: &str) -> (r: u32)
    ensures
        r == weight_of(entries@, word@),
{
    let mut i: usize = entries.len();
    assert(entries@.subrange(0, entries@.len() as int) =~= entries@);
    while i > 0
        invariant
            i <= entries@.len(),
            weight_of(entries@, word@) == weight_of(entries@.subrange(0, i as int), word@),
        decreases i,
    {
        let ghost prefix = entries@.subrange(0, i as int);
        assert(prefix.drop_last() =~= entries@.subrange(0, i - 1));
        if same_word(entries[i - 1].0.as_str(), word) {
            return entries[i - 1].1;
        }
        i -= 1;
    }
    0
}

/// The first entry of greatest weight: no entry weighs more, and every entry before it
/// weighs less.
pub open spec fn is_heaviest_first(entries: Seq<(String, u32)>, k: int) -> bool {
    &&& 0 <= k < entries.len()
    &&& forall|j: int| 0 <= j < entries.len() ==> entries[j].1 <= entries[k].1
    &&& forall|j: int| 0 <= j < k ==> entries[j].1 < entries[k].1
}

/// The position of the first entry of greatest weight, or `None` for no entries.
pub fn heaviest(entries: &Vec<(String, u32)>) -> (r: Option<usize>)
    ensures
        r is None <==> entries@.len() == 0,
        r matches Some(k) ==> is_heaviest_first(entries@, k as int),
{
    if entries.len() == 0 {
        return None;
    }
    let mut best: usize = 0;
    let mut i: usize = 1;
    while i < entries.len()
        invariant
            1 <= i <= entries@.len(),
            best < i,
            forall|j: int| 0 <= j < i ==> entries@[j].1 <= entries@[best as int].1,
            forall|j: int| 0 <= j < best ==> entries@[j].1 < entries@[best as int].1,
        decreases entries@.len() - i,
    {
        if entries[i].1 > entries[best].1 {
            best = i;
        }
        i += 1;
    }
    Some(best)
}

/// No word stands in two entries.
pub open spec fn unique_words<W>(entries: Seq<(String, W)>) -> bool {
    forall|i: int, j: int| 0 <= i < j < entries.len() ==> entries[i].0@ != entries[j].0@
}

/// Some entry holds `word`.
pub open spec fn has_word<W>(entries: Seq<(String, W)>, word: Seq<char>) -> bool {
    exists|i: int| 0 <= i < entries.len() && #[trigger] entries[i].0@ == word
}

/// Gathers the entries into a map from word to weight: one entry per distinct word, with
/// the weight of its last occurrence.
pub fn collect_unique(entries: Vec<(String, u32)>) -> (r: Vec<(String, u32)>)
    ensures
        unique_words(r@),
        forall|w: Seq<char>| has_word(r@, w) <==> has_word(entries@, w),
        forall|p: int| 0 <= p < r@.len() ==> (#[trigger] r@[p]).1 == weight_of(entries@, r@[p].0@),
{
    let mut r: Vec<(String, u32)> = Vec::new();
    let mut i: usize = 0;
    while i < entries.len()
        invariant
            i <= entries@.len(),
            unique_words(r@),
            forall|w: Seq<char>| has_word(r@, w) <==> has_word(entries@.subrange(0, i as int), w),
            forall|p: int|
                0 <= p < r@.len() ==> (#[trigger] r@[p]).1 == weight_of(
                    entries@.subrange(0, i as int),
                    r@[p].0@,
                ),
        decreases entries@.len() - i,
    {
        let ghost prefix = entries@.subrange(0, i as int);
        let ghost next = entries@.subrange(0, i + 1);
        assert(next.drop_last() =~= prefix);
        assert(entries@.subrange(0, i + 1) == next);
        assert(next.last() == entries@[i as int]);
        let mut p: usize = 0;
        let mut found = false;
        while p < r.len() && !found
            invariant
                i < entries@.len(),
                p <= r@.len(),
                !found ==> forall|q: int| 0 <= q < p ==> r@[q].0@ != entries@[i as int].0@,
                found ==> p < r@.len() && r@[p as int].0@ == entries@[i as int].0@,
            decreases r@.len() - p + if found { 0int } else { 1int },
        {
            if r[p].0 == entries[i].0 {
                found = true;
            } else {
                p += 1;
            }
        }
        proof {
            assert forall|w: Seq<char>| has_word(prefix, w) implies has_word(next, w) by {
                let k = choose|k: int| 0 <= k < prefix.len() && #[trigger] prefix[k].0@ == w;
                assert(next[k] == prefix[k]);
            }
            assert forall|w: Seq<char>| #[trigger] has_word(next, w) && w != entries@[i as int].0@
                implies has_word(prefix, w) by {
                let k = choose|k: int| 0 <= k < next.len() && #[trigger] next[k].0@ == w;
                assert(prefix[k] == next[k]);
            }
            assert(next[i as int] == entries@[i as int]);
            assert(has_word(next, entries@[i as int].0@));
        }
        let ghost r0 = r@;
        let ghost e = entries@[i as int];
        if found {
            let word = r[p].0.clone();
            r.set(p, (word, entries[i].1));
            assert(forall|q: int| 0 <= q < r@.len() ==> #[trigger] r@[q].0@ == r0[q].0@);
        } else {
            r.push((entries[i].0.clone(), entries[i].1));
        }
        proof {
            assert(r@.len() >= r0.len());
            if !found {
                assert(forall|q: int| 0 <= q < r0.len() ==> r0[q].0@ != e.0@);
                assert(r@[r0.len() as int].0@ == e.0@);
            }
            assert(unique_words(r@));
            assert(forall|q: int| 0 <= q < r0.len() ==> #[trigger] r@[q].0@ == r0[q].0@);
            assert forall|w: Seq<char>| has_word(r@, w) <==> has_word(next, w) by {
                if has_word(r@, w) {
                    let k = choose|k: int| 0 <= k < r@.len() && #[trigger] r@[k].0@ == w;
                    if w != e.0@ {
                        assert(r0[k].0@ == w);
                        assert(has_word(r0, w));
                        assert(has_word(prefix, w));
                    }
                }
                if has_word(next, w) {
                    if w == e.0@ {
                        if found {
                            assert(r@[p as int].0@ == w);
                        } else {
                            assert(r@[r@.len() - 1].0@ == w);
                        }
                    } else {
                        assert(has_word(prefix, w));
                        assert(has_word(r0, w));
                        let k = choose|k: int| 0 <= k < r0.len() && #[trigger] r0[k].0@ == w;
                        assert(r@[k].0@ == w);
                    }
                }
            }
            assert forall|q: int| 0 <= q < r@.len() implies (#[trigger] r@[q]).1 == weight_of(
                next,
                r@[q].0@,
            ) by {
                assert(next.len() > 0 && next.last() == e);
                if r@[q].0@ != e.0@ {
                    assert(r@[q] == r0[q]);
                    assert(weight_of(next, r@[q].0@) == weight_of(prefix, r@[q].0@));
                } else {
                    if found {
                        assert(q == p);
                    } else {
                        if q < r0.len() {
                            assert(r@[q] == r0[q]);
                        }
                    }
                    assert(weight_of(next, r@[q].0@) == e.1);
                }
            }
        }
        i += 1;
    }
    assert(entries@.subrange(0, entries@.len() as int) =~= entries@);
    r
}

/// The number of entries whose word has the puzzle's length.
pub open spec fn word_count<W>(entries: Seq<(String, W)>) -> nat
    decreases entries.len(),
{
    if entries.len() == 0 {
        0
    } else {
        word_count(entries.drop_last()) + if is_word(entries.last().0@) {
            1nat
        } else {
            0nat
        }
    }
}

/// The sum of the partition sizes of the patterns numbered below `m`.
pub open spec fn partition_total<W>(entries: Seq<(String, W)>, guess: Seq<char>, m: int) -> nat
    decreases m,
{
    if m <= 0 {
        0
    } else {
        partition_total(entries, guess, m - 1) + partition_size(entries, guess, pattern_at(m - 1))
    }
}

/// How many of the patterns numbered below `m` let `word` stay after `guess`.
spec fn hits(guess: Seq<char>, word: Seq<char>, m: int) -> nat
    decreases m,
{
    if m <= 0 {
        0
    } else {
        hits(guess, word, m - 1) + if consistent(guess, pattern_at(m - 1), word) {
            1nat
        } else {
            0nat
        }
    }
}

proof fn lemma_total_step<W>(entries: Seq<(String, W)>, guess: Seq<char>, m: int)
    requires
        entries.len() > 0,
    ensures
        partition_total(entries, guess, m) == partition_total(entries.drop_last(), guess, m) + hits(
            guess,
            entries.last().0@,
            m,
        ),
    decreases m,
{
    if m > 0 {
        lemma_total_step(entries, guess, m - 1);
    }
}

proof fn lemma_hits(guess: Seq<char>, word: Seq<char>, m: int)
    requires
        0 <= m <= PATTERN_COUNT,
    ensures
        hits(guess, word, m) == if is_word(guess) && is_word(word) && index_of(color_of(word, guess)) < m {
            1nat
        } else {
            0nat
        },
    decreases m,
{
    if m > 0 {
        lemma_hits(guess, word, m - 1);
        let c = color_of(word, guess);
        lemma_pattern_index(c);
        if consistent(guess, pattern_at(m - 1), word) {
            lemma_pattern_at_injective(index_of(c), m - 1);
        }
    }
}

/// For a guess of the puzzle's length, the partitions by feedback pattern cover the
/// candidates: their sizes add up to the number of entries that are words.
pub proof fn lemma_partitions_cover<W>(entries: Seq<(String, W)>, guess: Seq<char>)
    requires
        is_word(guess),
    ensures
        partition_total(entries, guess, PATTERN_COUNT as int) == word_count(entries),
    decreases entries.len(),
{
    if entries.len() == 0 {
        lemma_total_empty(entries, guess, PATTERN_COUNT as int);
    } else {
        lemma_partitions_cover(entries.drop_last(), guess);
        lemma_total_step(entries, guess, PATTERN_COUNT as int);
        let w = entries.last().0@;
        lemma_hits(guess, w, PATTERN_COUNT as int);
        if is_word(w) {
            lemma_pattern_index(color_of(w, guess));
        }
    }
}

proof fn lemma_total_empty<W>(entries: Seq<(String, W)>, guess: Seq<char>, m: int)
    requires
        entries.len() == 0,
    ensures
        partition_total(entries, guess, m) == 0,
    decreases m,
{
    if m > 0 {
        lemma_total_empty(entries, guess, m - 1);
    }
}

} // verus!
