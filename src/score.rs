use vstd::prelude::*;
use rayon::iter::{IndexedParallelIterator, IntoParallelRefIterator, ParallelIterator};
use crate::constraints::{Constraints, ConstraintsView};
use crate::feedback::{Word, is_word};
use crate::pool::{PATTERN_COUNT, bucket, contains_word, feedback_distribution};
use crate::seen::{SeenLetterBitFlags, seen_count};

verus! {

broadcast use vstd::seq_lib::group_seq_properties;

/// The number of distinct byte values.
pub const BYTE_VALUES: usize = 256;

/// The test of holding letter `c` at position `p`.
pub open spec fn letter_at(p: int, c: int) -> spec_fn(Word) -> bool {
    |w: Word| w@[p] == c
}

/// How many words of `words` hold letter `c` at position `p`.
pub open spec fn letter_count(words: Seq<Word>, p: int, c: int) -> nat {
    words.filter(letter_at(p, c)).len()
}

/// Whether `counts` has one row of 256 entries per position.
pub open spec fn counts_shaped(counts: Seq<Vec<usize>>) -> bool {
    counts.len() == 5 && forall|p: int| 0 <= p < 5 ==> (#[trigger] counts[p])@.len() == BYTE_VALUES
}

/// The sum over the positions of `w` of the count of its letter there.
pub open spec fn likelihood_of(counts: Seq<Vec<usize>>, w: Seq<u8>) -> int {
    counts[0]@[w[0] as int] + counts[1]@[w[1] as int] + counts[2]@[w[2] as int] + counts[3]@[w[3] as int]
        + counts[4]@[w[4] as int]
}

/// How many of the positions below `n` satisfy `pred`.
pub open spec fn count_positions(n: int, pred: spec_fn(int) -> bool) -> nat
    decreases n,
{
    if n <= 0 {
        0
    } else {
        count_positions(n - 1, pred) + if pred(n - 1) {
            1nat
        } else {
            0nat
        }
    }
}

/// Positions of `w` that hold the letter known there.
pub open spec fn known_hit(c: ConstraintsView, w: Seq<u8>) -> spec_fn(int) -> bool {
    |i: int| c.known[i] == Some(w[i])
}

/// Positions of `w` whose letter is known to be in the answer.
pub open spec fn included_hit(c: ConstraintsView, w: Seq<u8>) -> spec_fn(int) -> bool {
    |i: int| exists|k: int| 0 <= k < 5 && #[trigger] c.included[k].contains(w[i])
}

/// Positions of `w` whose letter is known to be absent.
pub open spec fn excluded_hit(c: ConstraintsView, w: Seq<u8>) -> spec_fn(int) -> bool {
    |i: int| c.excluded.contains(w[i])
}

/// Per position, for each byte value, how many words hold it there.
pub fn letter_frequency(words: &Vec<Word>) -> (r: Vec<Vec<usize>>)
    ensures
        counts_shaped(r@),
        forall|p: int, c: int|
            0 <= p < 5 && 0 <= c < BYTE_VALUES ==> #[trigger] r@[p]@[c] == letter_count(words@, p, c),
{
    let mut counts: Vec<Vec<usize>> = Vec::new();
    let mut p: usize = 0;
    while p < 5
        invariant
            0 <= p <= 5,
            counts@.len() == p,
            forall|q: int| 0 <= q < p ==> (#[trigger] counts@[q])@.len() == BYTE_VALUES,
            forall|q: int, c: int| 0 <= q < p && 0 <= c < BYTE_VALUES ==> #[trigger] counts@[q]@[c] == 0,
        decreases 5 - p,
    {
        let mut row: Vec<usize> = Vec::new();
        let mut c: usize = 0;
        while c < BYTE_VALUES
            invariant
                0 <= c <= BYTE_VALUES,
                row@.len() == c,
                forall|m: int| 0 <= m < c ==> row@[m] == 0,
            decreases BYTE_VALUES - c,
        {
            row.push(0);
            c += 1;
        }
        counts.push(row);
        p += 1;
    }
    let mut j: usize = 0;
    while j < words.len()
        invariant
            0 <= j <= words.len(),
            counts_shaped(counts@),
            forall|q: int, c: int|
                0 <= q < 5 && 0 <= c < BYTE_VALUES ==> #[trigger] counts@[q]@[c] == letter_count(
                    words@.take(j as int),
                    q,
                    c,
                ),
        decreases words.len() - j,
    {
        let w = words[j];
        proof {
            assert(words@.take(j + 1) =~= words@.take(j as int).push(w));
            assert forall|q: int, c: int| 0 <= q < 5 && 0 <= c < BYTE_VALUES implies letter_count(
                words@.take(j + 1),
                q,
                c,
            ) == letter_count(words@.take(j as int), q, c) + if w@[q] == c {
                1int
            } else {
                0
            } && letter_count(words@.take(j as int), q, c) <= j by {
                words@.take(j as int).lemma_filter_push(w, letter_at(q, c));
            }
        }
        let mut p: usize = 0;
        while p < 5
            invariant
                0 <= p <= 5,
                0 <= j < words.len(),
                w == words@[j as int],
                counts_shaped(counts@),
                forall|q: int, c: int|
                    0 <= q < 5 && 0 <= c < BYTE_VALUES ==> letter_count(words@.take(j + 1), q, c)
                        == letter_count(words@.take(j as int), q, c) + if w@[q] == c {
                        1int
                    } else {
                        0
                    },
                forall|q: int, c: int|
                    0 <= q < 5 && 0 <= c < BYTE_VALUES ==> letter_count(words@.take(j as int), q, c) <= j,
                forall|q: int, c: int|
                    0 <= q < 5 && 0 <= c < BYTE_VALUES ==> #[trigger] counts@[q]@[c] == letter_count(
                        words@.take(j as int),
                        q,
                        c,
                    ) + if q < p && w@[q] == c {
                        1int
                    } else {
                        0
                    },
            decreases 5 - p,
        {
            let c = w[p] as usize;
            let ghost before = counts@;
            let v = counts[p][c];
            counts[p][c] = v + 1;
            proof {
                assert forall|q: int| 0 <= q < 5 && q != p implies counts@[q] == before[q] by {}
                assert forall|q: int, d: int| 0 <= q < 5 && 0 <= d < BYTE_VALUES implies #[trigger] counts@[q]@[d]
                    == before[q]@[d] + if q == p && d == c {
                    1int
                } else {
                    0
                } by {}
            }
            p += 1;
        }
        j += 1;
    }
    assert(words@.take(words@.len() as int) =~= words@);
    counts
}

/// The sum over the positions of `word` of how many words hold its letter
/// there.
pub fn word_likelihood_score(word: &Word, counts: &Vec<Vec<usize>>) -> (r: u128)
    requires
        counts_shaped(counts@),
    ensures
        r == likelihood_of(counts@, word@),
{
    let mut total: u128 = 0;
    let mut p: usize = 0;
    while p < 5
        invariant
            counts_shaped(counts@),
            0 <= p <= 5,
            total == if p == 0 {
                0
            } else if p == 1 {
                counts@[0]@[word@[0] as int] as int
            } else if p == 2 {
                counts@[0]@[word@[0] as int] + counts@[1]@[word@[1] as int]
            } else if p == 3 {
                counts@[0]@[word@[0] as int] + counts@[1]@[word@[1] as int] + counts@[2]@[word@[2] as int]
            } else if p == 4 {
                counts@[0]@[word@[0] as int] + counts@[1]@[word@[1] as int] + counts@[2]@[word@[2] as int]
                    + counts@[3]@[word@[3] as int]
            } else {
                likelihood_of(counts@, word@)
            },
            total <= p * 0x1_0000_0000_0000_0000,
        decreases 5 - p,
    {
        let n = counts[p][word[p] as usize];
        assert(n < 0x1_0000_0000_0000_0000) by {
            assert(n <= usize::MAX);
        }
        total = total + n as u128;
        p += 1;
    }
    total
}

/// What the constraints say of one word: how many of its positions hold the
/// letter known there, hold a letter known to be in the answer, and hold a
/// letter known to be absent.
#[derive(Debug, Clone, Copy, PartialEq, Eq, Structural)]
pub struct WordPrior {
    pub known_hits: usize,
    pub included_hits: usize,
    pub excluded_hits: usize,
}

/// Counts the positions of `word` that the constraints favour or disfavour.
pub fn word_prior(word: &Word, constraints: &Constraints) -> (r: WordPrior)
    requires
        constraints.wf(),
    ensures
        r.known_hits == count_positions(5, known_hit(constraints@, word@)),
        r.included_hits == count_positions(5, included_hit(constraints@, word@)),
        r.excluded_hits == count_positions(5, excluded_hit(constraints@, word@)),
        r.known_hits <= 5 && r.included_hits <= 5 && r.excluded_hits <= 5,
{
    let mut known_hits: usize = 0;
    let mut included_hits: usize = 0;
    let mut excluded_hits: usize = 0;
    let mut i: usize = 0;
    while i < 5
        invariant
            constraints.wf(),
            0 <= i <= 5,
            known_hits == count_positions(i as int, known_hit(constraints@, word@)),
            included_hits == count_positions(i as int, included_hit(constraints@, word@)),
            excluded_hits == count_positions(i as int, excluded_hit(constraints@, word@)),
            known_hits <= i && included_hits <= i && excluded_hits <= i,
        decreases 5 - i,
    {
        let c = word[i];
        if constraints.known_at(i) == Some(c) {
            known_hits += 1;
        }
        if constraints.is_included(c) {
            included_hits += 1;
        }
        if constraints.is_excluded(c) {
            excluded_hits += 1;
        }
        i += 1;
    }
    WordPrior { known_hits, included_hits, excluded_hits }
}

/// The integer inputs of the score of one guess against the pool.
#[derive(Debug, Clone)]
pub struct GuessFeatures {
    /// How many candidates fall into each feedback pattern.
    pub buckets: Vec<usize>,
    /// Whether the guess is itself a candidate.
    pub in_pool: bool,
    /// The letter-count sum of the guess over the pool.
    pub likelihood: u128,
    /// How many positions of the guess hold a letter already played.
    pub seen_letters: usize,
}

impl GuessFeatures {
    /// Whether these are the features of `guess` against `pool`, given the
    /// letter counts `counts` and the letters already played `seen`.
    pub open spec fn describes(
        self,
        guess: Seq<u8>,
        pool: Seq<Word>,
        counts: Seq<Vec<usize>>,
        seen: Set<u8>,
    ) -> bool {
        &&& self.buckets@.len() == PATTERN_COUNT
        &&& forall|k: int| 0 <= k < PATTERN_COUNT ==> #[trigger] self.buckets@[k] == bucket(pool, guess, k)
        &&& self.in_pool == exists|i: int| 0 <= i < pool.len() && (#[trigger] pool[i])@ == guess
        &&& self.likelihood == likelihood_of(counts, guess)
        &&& self.seen_letters == seen_count(seen, guess)
    }
}

/// The features of `guess` against `pool`.
pub fn guess_features(
    guess: &Word,
    pool: &Vec<Word>,
    counts: &Vec<Vec<usize>>,
    seen: &SeenLetterBitFlags,
) -> (r: GuessFeatures)
    requires
        is_word(guess@),
        counts_shaped(counts@),
    ensures
        r.describes(guess@, pool@, counts@, seen@),
{
    GuessFeatures {
        buckets: feedback_distribution(guess, pool),
        in_pool: contains_word(pool, guess),
        likelihood: word_likelihood_score(guess, counts),
        seen_letters: seen.get_word(guess),
    }
}

/// Relies on rayon's `par_iter().map(..).collect_into_vec(..)` over a slice:
/// an indexed parallel map, whose output holds the image of each input at the
/// input's own position.
#[verifier::external_body]
fn par_guess_features(
    vocabulary: &Vec<Word>,
    pool: &Vec<Word>,
    counts: &Vec<Vec<usize>>,
    seen: &SeenLetterBitFlags,
) -> (r: Vec<GuessFeatures>)
    requires
        forall|i: int| 0 <= i < vocabulary@.len() ==> is_word(#[trigger] vocabulary@[i]@),
        counts_shaped(counts@),
    ensures
        r@.len() == vocabulary@.len(),
        forall|i: int|
            0 <= i < vocabulary@.len() ==> (#[trigger] r@[i]).describes(vocabulary@[i]@, pool@, counts@, seen@),
{
    let mut out = Vec::new();
    vocabulary.par_iter().map(|g| guess_features(g, pool, counts, seen)).collect_into_vec(&mut out);
    out
}

/// The features of every word of `vocabulary` against `pool`, computed in
/// parallel and listed in vocabulary order.
pub fn all_guess_features(
    vocabulary: &Vec<Word>,
    pool: &Vec<Word>,
    counts: &Vec<Vec<usize>>,
    seen: &SeenLetterBitFlags,
) -> (r: Vec<GuessFeatures>)
    requires
        forall|i: int| 0 <= i < vocabulary@.len() ==> is_word(#[trigger] vocabulary@[i]@),
        counts_shaped(counts@),
    ensures
        r@.len() == vocabulary@.len(),
        forall|i: int|
            0 <= i < vocabulary@.len() ==> (#[trigger] r@[i]).describes(vocabulary@[i]@, pool@, counts@, seen@),
{
    par_guess_features(vocabulary, pool, counts, seen)
}

} // verus!
