use vstd::prelude::*;

verus! {

/// A five-letter word, as lowercase ASCII bytes.
pub type Word = [u8; 5];

/// Whether `c` is a lowercase ASCII letter.
pub open spec fn is_letter(c: u8) -> bool {
    97 <= c <= 122
}

/// Whether `w` is a word: five lowercase letters.
pub open spec fn is_word(w: Seq<u8>) -> bool {
    w.len() == 5 && forall|i: int| 0 <= i < 5 ==> is_letter(#[trigger] w[i])
}

/// Whether every byte of `w` is a lowercase letter.
pub fn is_lowercase_word(w: &Word) -> (r: bool)
    ensures
        r == is_word(w@),
{
    let mut i: usize = 0;
    while i < 5
        invariant
            0 <= i <= 5,
            forall|j: int| 0 <= j < i ==> is_letter(#[trigger] w@[j]),
        decreases 5 - i,
    {
        if w[i] < 97 || w[i] > 122 {
            return false;
        }
        i += 1;
    }
    true
}

/// The tag given to one letter of a guess.
#[derive(Debug, Clone, Copy, PartialEq, Eq, Hash, Structural)]
pub enum WordleAnswerColor {
    /// The letter stands at this position in the answer.
    Green,
    /// The letter occurs in the answer, but not at this position.
    Yellow,
    /// The letter does not occur in the answer.
    Gray,
}

/// The tags of a whole guess, one per position.
pub type Feedback = [WordleAnswerColor; 5];

/// The tag of position `i` of `guess` against `answer`: green on an exact
/// match, yellow when the letter occurs anywhere else in the answer (letter
/// counts are not consumed), gray otherwise.
pub open spec fn color_at(answer: Seq<u8>, guess: Seq<u8>, i: int) -> WordleAnswerColor {
    if guess[i] == answer[i] {
        WordleAnswerColor::Green
    } else if answer.contains(guess[i]) {
        WordleAnswerColor::Yellow
    } else {
        WordleAnswerColor::Gray
    }
}

/// The feedback that `guess` receives when `answer` is hidden.
pub open spec fn feedback_of(answer: Seq<u8>, guess: Seq<u8>) -> Seq<WordleAnswerColor> {
    Seq::new(5, |i: int| color_at(answer, guess, i))
}

/// Every position is green.
pub open spec fn all_green(fb: Seq<WordleAnswerColor>) -> bool {
    forall|i: int| 0 <= i < 5 ==> fb[i] == WordleAnswerColor::Green
}

/// Whether letter `c` occurs in `w`.
pub fn word_contains(w: &Word, c: u8) -> (r: bool)
    ensures
        r == w@.contains(c),
{
    let mut i: usize = 0;
    while i < 5
        invariant
            0 <= i <= 5,
            forall|j: int| 0 <= j < i ==> w@[j] != c,
        decreases 5 - i,
    {
        if w[i] == c {
            assert(w@[i as int] == c);
            return true;
        }
        i += 1;
    }
    false
}

/// Classifies `guess` against the hidden word `correct`.
pub fn simulate_guess(correct: &Word, guess: &Word) -> (r: Feedback)
    ensures
        r@ == feedback_of(correct@, guess@),
{
    let mut output = [WordleAnswerColor::Gray;5];
    let mut i: usize = 0;
    while i < 5
        invariant
            0 <= i <= 5,
            forall|j: int| 0 <= j < i ==> output@[j] == color_at(correct@, guess@, j),
        decreases 5 - i,
    {
        if guess[i] == correct[i] {
            output[i] = WordleAnswerColor::Green;
        } else if word_contains(correct, guess[i]) {
            output[i] = WordleAnswerColor::Yellow;
        } else {
            output[i] = WordleAnswerColor::Gray;
        }
        i += 1;
    }
    assert(output@ =~= feedback_of(correct@, guess@));
    output
}

/// Whether every tag of `fb` is green.
pub fn is_all_green(fb: &Feedback) -> (r: bool)
    ensures
        r == all_green(fb@),
{
    let mut i: usize = 0;
    while i < 5
        invariant
            0 <= i <= 5,
            forall|j: int| 0 <= j < i ==> fb@[j] == WordleAnswerColor::Green,
        decreases 5 - i,
    {
        if fb[i] != WordleAnswerColor::Green {
            return false;
        }
        i += 1;
    }
    true
}

/// Whether two words are equal letter by letter.
pub fn same_word(a: &Word, b: &Word) -> (r: bool)
    ensures
        r == (a@ == b@),
{
    let mut i: usize = 0;
    while i < 5
        invariant
            0 <= i <= 5,
            forall|j: int| 0 <= j < i ==> a@[j] == b@[j],
        decreases 5 - i,
    {
        if a[i] != b[i] {
            return false;
        }
        i += 1;
    }
    assert(a@ =~= b@);
    true
}

/// A word classified against itself is green at every position.
pub proof fn lemma_self_feedback_all_green(w: Seq<u8>)
    requires
        w.len() == 5,
    ensures
        all_green(feedback_of(w, w)),
{
}

/// The feedback is all green exactly when the guess is the answer.
pub proof fn lemma_all_green_iff_equal(answer: Seq<u8>, guess: Seq<u8>)
    requires
        answer.len() == 5,
        guess.len() == 5,
    ensures
        all_green(feedback_of(answer, guess)) <==> answer == guess,
{
    if all_green(feedback_of(answer, guess)) {
        assert forall|i: int| 0 <= i < 5 implies answer[i] == guess[i] by {
            assert(feedback_of(answer, guess)[i] == WordleAnswerColor::Green);
        }
        assert(answer =~= guess);
    }
}

} // verus!
