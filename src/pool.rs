use vstd::prelude::*;
use crate::constraints::{Constraints, ConstraintsView};
use crate::feedback::{Word, Feedback, WordleAnswerColor, feedback_of, simulate_guess};

verus! {

broadcast use vstd::seq_lib::group_seq_properties;

/// The number of distinct feedback patterns.
pub const PATTERN_COUNT: usize = 243;

/// The base-3 digit of one tag.
pub open spec fn color_digit(c: WordleAnswerColor) -> int {
    match c {
        WordleAnswerColor::Green => 0,
        WordleAnswerColor::Yellow => 1,
        WordleAnswerColor::Gray => 2,
    }
}

/// The number of a feedback pattern: its tags read as base-3 digits, the
/// first position least significant.
pub open spec fn pattern_index(fb: Seq<WordleAnswerColor>) -> int {
    color_digit(fb[0]) + 3 * (color_digit(fb[1]) + 3 * (color_digit(fb[2]) + 3 * (color_digit(fb[3])
        + 3 * color_digit(fb[4]))))
}

/// The candidates of `pool` that `c` admits, in order.
pub open spec fn filtered(pool: Seq<Word>, c: ConstraintsView) -> Seq<Word> {
    pool.filter(admits(c))
}

/// The test that `c` puts to a candidate.
pub open spec fn admits(c: ConstraintsView) -> spec_fn(Word) -> bool {
    |w: Word| c.matches(w@)
}

/// The test of falling into the pattern numbered `k` when `guess` is played.
pub open spec fn in_bucket(guess: Seq<u8>, k: int) -> spec_fn(Word) -> bool {
    |w: Word| pattern_index(feedback_of(w@, guess)) == k
}

/// How many candidates of `pool` give `guess` the pattern numbered `k`.
pub open spec fn bucket(pool: Seq<Word>, guess: Seq<u8>, k: int) -> nat {
    pool.filter(in_bucket(guess, k)).len()
}

fn color_digit_of(c: WordleAnswerColor) -> (r: usize)
    ensures
        r == color_digit(c),
{
    match c {
        WordleAnswerColor::Green => 0,
        WordleAnswerColor::Yellow => 1,
        WordleAnswerColor::Gray => 2,
    }
}

/// The number of a feedback pattern, below 243.
pub fn feedback_index(fb: &Feedback) -> (r: usize)
    ensures
        r == pattern_index(fb@),
        r < PATTERN_COUNT,
{
    color_digit_of(fb[0]) + 3 * (color_digit_of(fb[1]) + 3 * (color_digit_of(fb[2]) + 3 * (
    color_digit_of(fb[3]) + 3 * color_digit_of(fb[4]))))
}

/// Patterns with the same number are the same pattern.
pub proof fn lemma_pattern_index_injective(a: Seq<WordleAnswerColor>, b: Seq<WordleAnswerColor>)
    requires
        a.len() == 5,
        b.len() == 5,
        pattern_index(a) == pattern_index(b),
    ensures
        a == b,
{
    let (a0, a1, a2, a3, a4) = (
        color_digit(a[0]),
        color_digit(a[1]),
        color_digit(a[2]),
        color_digit(a[3]),
        color_digit(a[4]),
    );
    let (b0, b1, b2, b3, b4) = (
        color_digit(b[0]),
        color_digit(b[1]),
        color_digit(b[2]),
        color_digit(b[3]),
        color_digit(b[4]),
    );
    assert(a0 == b0 && a1 == b1 && a2 == b2 && a3 == b3 && a4 == b4) by (nonlinear_arith)
        requires
            0 <= a0 < 3 && 0 <= a1 < 3 && 0 <= a2 < 3 && 0 <= a3 < 3 && 0 <= a4 < 3,
            0 <= b0 < 3 && 0 <= b1 < 3 && 0 <= b2 < 3 && 0 <= b3 < 3 && 0 <= b4 < 3,
            a0 + 3 * (a1 + 3 * (a2 + 3 * (a3 + 3 * a4))) == b0 + 3 * (b1 + 3 * (b2 + 3 * (b3 + 3
                * b4))),
    ;
    assert forall|i: int| 0 <= i < 5 implies a[i] == b[i] by {
        assert(color_digit(a[i]) == color_digit(b[i]));
    }
    assert(a =~= b);
}

/// The candidates of `words` that `constraints` admits, in their order.
pub fn filter_pool(words: &Vec<Word>, constraints: &Constraints) -> (r: Vec<Word>)
    requires
        constraints.wf(),
    ensures
        r@ == filtered(words@, constraints@),
        r@.len() <= words@.len(),
{
    let ghost pred = admits(constraints@);
    let mut out: Vec<Word> = Vec::new();
    let mut j: usize = 0;
    while j < words.len()
        invariant
            constraints.wf(),
            pred == admits(constraints@),
            0 <= j <= words.len(),
            out@ == words@.take(j as int).filter(pred),
        decreases words.len() - j,
    {
        proof {
            assert(words@.take(j + 1) =~= words@.take(j as int).push(words@[j as int]));
            words@.take(j as int).lemma_filter_push(words@[j as int], pred);
        }
        let keep = constraints.matches(&words[j]);
        if keep {
            out.push(words[j]);
        }
        j += 1;
    }
    assert(words@.take(words@.len() as int) =~= words@);
    out
}

/// Whether `w` is one of `words`.
pub fn contains_word(words: &Vec<Word>, w: &Word) -> (r: bool)
    ensures
        r == exists|i: int| 0 <= i < words@.len() && (#[trigger] words@[i])@ == w@,
{
    let mut i: usize = 0;
    while i < words.len()
        invariant
            0 <= i <= words.len(),
            forall|k: int| 0 <= k < i ==> (#[trigger] words@[k])@ != w@,
        decreases words.len() - i,
    {
        if crate::feedback::same_word(&words[i], w) {
            return true;
        }
        i += 1;
    }
    false
}

/// Filtering never adds candidates: the pool shrinks or keeps its size.
pub proof fn lemma_filter_never_grows(pool: Seq<Word>, c: ConstraintsView)
    ensures
        filtered(pool, c).len() <= pool.len(),
{
}

/// How many candidates of `words` give `guess` each feedback pattern, indexed
/// by pattern number.
pub fn feedback_distribution(guess: &Word, words: &Vec<Word>) -> (r: Vec<usize>)
    ensures
        r@.len() == PATTERN_COUNT,
        forall|k: int| 0 <= k < PATTERN_COUNT ==> r@[k] == bucket(words@, guess@, k),
{
    let mut counts: Vec<usize> = Vec::new();
    let mut k: usize = 0;
    while k < PATTERN_COUNT
        invariant
            0 <= k <= PATTERN_COUNT,
            counts@.len() == k,
            forall|m: int| 0 <= m < k ==> counts@[m] == 0,
        decreases PATTERN_COUNT - k,
    {
        counts.push(0);
        k += 1;
    }
    let mut j: usize = 0;
    while j < words.len()
        invariant
            0 <= j <= words.len(),
            counts@.len() == PATTERN_COUNT,
            forall|m: int| 0 <= m < PATTERN_COUNT ==> counts@[m] == bucket(words@.take(j as int), guess@, m),
        decreases words.len() - j,
    {
        let code = feedback_index(&simulate_guess(&words[j], guess));
        proof {
            assert(words@.take(j + 1) =~= words@.take(j as int).push(words@[j as int]));
            assert(bucket(words@.take(j as int), guess@, code as int) <= j);
            assert forall|m: int| 0 <= m < PATTERN_COUNT implies bucket(words@.take(j + 1), guess@, m)
                == bucket(words@.take(j as int), guess@, m) + if m == code { 1int } else { 0 } by {
                words@.take(j as int).lemma_filter_push(words@[j as int], in_bucket(guess@, m));
            }
        }
        counts[code] = counts[code] + 1;
        j += 1;
    }
    assert(words@.take(words@.len() as int) =~= words@);
    counts
}

/// Against a single candidate all of the pool falls into one pattern.
pub proof fn lemma_single_candidate_one_bucket(pool: Seq<Word>, guess: Seq<u8>, k: int)
    requires
        pool.len() == 1,
    ensures
        bucket(pool, guess, k) == if k == pattern_index(feedback_of(pool[0]@, guess)) {
            1nat
        } else {
            0nat
        },
{
    assert(pool =~= Seq::<Word>::empty().push(pool[0]));
    Seq::<Word>::empty().lemma_filter_push(pool[0], in_bucket(guess, k));
}

/// Whether the candidates of `pool` give `guess` pairwise distinct feedback.
pub open spec fn distinct_feedback(pool: Seq<Word>, guess: Seq<u8>) -> bool {
    forall|i: int, j: int|
        0 <= i < j < pool.len() ==> feedback_of(pool[i]@, guess) != feedback_of(pool[j]@, guess)
}

/// Where every candidate gives a feedback pattern of its own, each pattern
/// holds at most one candidate, and the pattern of each candidate holds
/// exactly it.
pub proof fn lemma_distinct_feedback_buckets(pool: Seq<Word>, guess: Seq<u8>)
    requires
        distinct_feedback(pool, guess),
    ensures
        forall|k: int| #[trigger] bucket(pool, guess, k) <= 1,
        forall|i: int|
            0 <= i < pool.len() ==> bucket(pool, guess, pattern_index(feedback_of(#[trigger] pool[i]@, guess)))
                == 1,
{
    assert forall|k: int| #[trigger] bucket(pool, guess, k) <= 1 by {
        lemma_distinct_bucket_at_most_one(pool, guess, k);
    }
    assert forall|i: int| 0 <= i < pool.len() implies bucket(
        pool,
        guess,
        pattern_index(feedback_of(#[trigger] pool[i]@, guess)),
    ) == 1 by {
        let k = pattern_index(feedback_of(pool[i]@, guess));
        let pred = in_bucket(guess, k);
        pool.lemma_filter_contains(pred, i);
        lemma_distinct_bucket_at_most_one(pool, guess, k);
    }
}

proof fn lemma_distinct_bucket_at_most_one(pool: Seq<Word>, guess: Seq<u8>, k: int)
    requires
        distinct_feedback(pool, guess),
    ensures
        bucket(pool, guess, k) <= 1,
    decreases pool.len(),
{
    let pred = in_bucket(guess, k);
    if pool.len() > 0 {
        let rest = pool.drop_last();
        let last = pool.last();
        assert(pool =~= rest.push(last));
        rest.lemma_filter_push(last, pred);
        lemma_distinct_bucket_at_most_one(rest, guess, k);
        if pred(last) {
            assert forall|i: int| 0 <= i < rest.len() implies !pred(#[trigger] rest[i]) by {
                if pred(rest[i]) {
                    lemma_pattern_index_injective(feedback_of(rest[i]@, guess), feedback_of(last@, guess));
                    assert(pool[i] == rest[i]);
                }
            }
            rest.lemma_all_neg_filter_empty(pred);
        }
    }
}

} // verus!
