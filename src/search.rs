use vstd::prelude::*;
use crate::feedback::Word;

verus! {

/// Whether `i` is the first position of a largest score.
pub open spec fn is_first_max(scores: Seq<u64>, i: int) -> bool {
    &&& 0 <= i < scores.len()
    &&& forall|j: int| 0 <= j < scores.len() ==> scores[j] <= scores[i]
    &&& forall|j: int| 0 <= j < i ==> scores[j] < scores[i]
}

/// The position of the first largest score; ties go to the earlier entry, so
/// the choice depends only on the order of the scores.
pub fn best_guess_index(scores: &Vec<u64>) -> (r: usize)
    requires
        scores@.len() > 0,
    ensures
        is_first_max(scores@, r as int),
{
    let mut best: usize = 0;
    let mut j: usize = 1;
    while j < scores.len()
        invariant
            0 < j <= scores@.len(),
            0 <= best < j,
            forall|k: int| 0 <= k < j ==> scores@[k] <= scores@[best as int],
            forall|k: int| 0 <= k < best ==> scores@[k] < scores@[best as int],
        decreases scores.len() - j,
    {
        if scores[j] > scores[best] {
            best = j;
        }
        j += 1;
    }
    best
}

/// The word of `vocabulary` whose score, at the same position of `scores`,
/// is the first largest.
pub fn best_guess(vocabulary: &Vec<Word>, scores: &Vec<u64>) -> (r: Word)
    requires
        vocabulary@.len() > 0,
        scores@.len() == vocabulary@.len(),
    ensures
        exists|i: int| is_first_max(scores@, i) && r == vocabulary@[i],
        vocabulary@.len() == 1 ==> r == vocabulary@[0],
{
    let i = best_guess_index(scores);
    vocabulary[i]
}

/// There is exactly one first largest score.
pub proof fn lemma_first_max_unique(scores: Seq<u64>, i: int, j: int)
    requires
        is_first_max(scores, i),
        is_first_max(scores, j),
    ensures
        i == j,
{
    if i < j {
        assert(scores[i] < scores[j]);
    } else if j < i {
        assert(scores[j] < scores[i]);
    }
}

/// Over a single word, the best guess is that word, whatever the scores.
pub proof fn lemma_singleton_vocabulary(vocabulary: Seq<Word>, scores: Seq<u64>, r: Word)
    requires
        vocabulary.len() == 1,
        scores.len() == 1,
        exists|i: int| is_first_max(scores, i) && r == vocabulary[i],
    ensures
        r == vocabulary[0],
{
}

} // verus!
