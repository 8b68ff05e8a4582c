use vstd::prelude::*;
use crate::feedback::{Word, Feedback, WordleAnswerColor};
use crate::pool::contains_word;

verus! {

/// Why an entered guess and result were refused.
#[derive(Debug, Clone, Copy, PartialEq, Eq, Structural)]
pub enum EntryError {
    /// The guess or the result is not five characters long.
    WrongLength,
    /// The result holds a character other than `g`, `y` or `x`.
    BadResultLetter,
    /// The guess is not in the guess vocabulary.
    UnknownWord,
}

/// The tag that a result character stands for: `g` green, `y` yellow,
/// `x` gray.
pub open spec fn color_of_letter(b: u8) -> Option<WordleAnswerColor> {
    if b == 103 {
        Some(WordleAnswerColor::Green)
    } else if b == 121 {
        Some(WordleAnswerColor::Yellow)
    } else if b == 120 {
        Some(WordleAnswerColor::Gray)
    } else {
        None
    }
}

/// Whether every character of `result` is a tag letter.
pub open spec fn all_tags(result: Seq<u8>) -> bool {
    forall|i: int| 0 <= i < result.len() ==> (#[trigger] color_of_letter(result[i])) is Some
}

/// The tags that `result` spells.
pub open spec fn tags_of(result: Seq<u8>) -> Seq<WordleAnswerColor> {
    Seq::new(5, |i: int| color_of_letter(result[i])->Some_0)
}

/// The outcome of reading a guess and its result.
pub open spec fn entry_outcome(guess: Seq<u8>, result: Seq<u8>, vocabulary: Seq<Word>) -> Result<
    (Seq<u8>, Seq<WordleAnswerColor>),
    EntryError,
> {
    if guess.len() != 5 || result.len() != 5 {
        Err(EntryError::WrongLength)
    } else if !all_tags(result) {
        Err(EntryError::BadResultLetter)
    } else if !(exists|i: int| 0 <= i < vocabulary.len() && (#[trigger] vocabulary[i])@ == guess) {
        Err(EntryError::UnknownWord)
    } else {
        Ok((guess, tags_of(result)))
    }
}

fn letter_color(b: u8) -> (r: Option<WordleAnswerColor>)
    ensures
        r == color_of_letter(b),
{
    if b == 103 {
        Some(WordleAnswerColor::Green)
    } else if b == 121 {
        Some(WordleAnswerColor::Yellow)
    } else if b == 120 {
        Some(WordleAnswerColor::Gray)
    } else {
        None
    }
}

/// Reads a result such as `ggyyx`.
pub fn parse_feedback(result: &[u8]) -> (r: Option<Feedback>)
    ensures
        r is Some <==> result@.len() == 5 && all_tags(result@),
        r is Some ==> r->Some_0@ == tags_of(result@),
{
    if result.len() != 5 {
        return None;
    }
    let mut out = [WordleAnswerColor::Gray;5];
    let mut i: usize = 0;
    while i < 5
        invariant
            result@.len() == 5,
            0 <= i <= 5,
            forall|j: int| 0 <= j < i ==> (#[trigger] color_of_letter(result@[j])) is Some,
            forall|j: int| 0 <= j < i ==> out@[j] == color_of_letter(result@[j])->Some_0,
        decreases 5 - i,
    {
        match letter_color(result[i]) {
            Some(c) => {
                out[i] = c;
            },
            None => {
                return None;
            },
        }
        i += 1;
    }
    assert(out@ =~= tags_of(result@));
    Some(out)
}

/// Reads a five-letter guess.
pub fn parse_word(token: &[u8]) -> (r: Option<Word>)
    ensures
        r is Some <==> token@.len() == 5,
        r is Some ==> r->Some_0@ == token@,
{
    if token.len() != 5 {
        return None;
    }
    let w: Word = [token[0], token[1], token[2], token[3], token[4]];
    assert(w@ =~= token@);
    Some(w)
}

/// Reads a guess and its result as entered, checking the lengths first, then
/// the result's characters, then that the guess is in `vocabulary`.
pub fn parse_entry(guess: &[u8], result: &[u8], vocabulary: &Vec<Word>) -> (r: Result<(Word, Feedback), EntryError>)
    ensures
        match r {
            Ok((w, fb)) => entry_outcome(guess@, result@, vocabulary@) == Ok::<_, EntryError>((w@, fb@)),
            Err(e) => entry_outcome(guess@, result@, vocabulary@) == Err::<(Seq<u8>, Seq<WordleAnswerColor>), _>(e),
        },
{
    if guess.len() != 5 || result.len() != 5 {
        return Err(EntryError::WrongLength);
    }
    let fb = match parse_feedback(result) {
        Some(fb) => fb,
        None => {
            return Err(EntryError::BadResultLetter);
        },
    };
    let w = match parse_word(guess) {
        Some(w) => w,
        None => {
            return Err(EntryError::WrongLength);
        },
    };
    if !contains_word(vocabulary, &w) {
        return Err(EntryError::UnknownWord);
    }
    Ok((w, fb))
}

} // verus!
