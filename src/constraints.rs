use vstd::prelude::*;
use crate::feedback::{Word, Feedback, WordleAnswerColor, feedback_of, word_contains};

verus! {

/// What the feedback of one episode has established about the answer.
pub struct ConstraintsView {
    /// Per position, the letter known to stand there.
    pub known: Seq<Option<u8>>,
    /// Per position, letters in the answer that are known not to stand there.
    pub included: Seq<Set<u8>>,
    /// Letters known to be absent from the answer.
    pub excluded: Set<u8>,
    /// Letters ever tagged green or yellow: known to be in the answer.
    pub tagged_letters: Set<u8>,
}

impl ConstraintsView {
    pub open spec fn wf(self) -> bool {
        self.known.len() == 5 && self.included.len() == 5
    }

    /// Whether `w` shares some letter with `s`.
    pub open spec fn hits(s: Set<u8>, w: Seq<u8>) -> bool {
        exists|d: u8| s.contains(d) && w.contains(d)
    }

    /// Whether position `i` of `w` agrees with what is known there: it holds
    /// the known letter, if one is known, and none of the letters ruled out
    /// at that position.
    pub open spec fn position_ok(self, w: Seq<u8>, i: int) -> bool {
        &&& (self.known[i] is Some ==> w[i] == self.known[i]->Some_0)
        &&& !self.included[i].contains(w[i])
    }

    /// Whether `w` is consistent with everything recorded: each non-empty
    /// per-position set has a letter somewhere in `w`, no excluded letter occurs
    /// in `w`, and each position holds its known letter and none of the letters
    /// ruled out there.
    pub open spec fn matches(self, w: Seq<u8>) -> bool {
        &&& forall|i: int, c: u8|
            0 <= i < 5 && #[trigger] self.included[i].contains(c) ==> Self::hits(self.included[i], w)
        &&& forall|c: u8| #[trigger] self.excluded.contains(c) ==> !w.contains(c)
        &&& forall|i: int| 0 <= i < 5 ==> #[trigger] self.position_ok(w, i)
    }

    /// Whether `guess` received green or yellow for letter `c` at one of its
    /// first `n` positions.
    pub open spec fn tagged_in(guess: Seq<u8>, fb: Seq<WordleAnswerColor>, n: int, c: u8) -> bool {
        exists|j: int| 0 <= j < n && fb[j] != WordleAnswerColor::Gray && #[trigger] guess[j] == c
    }

    /// Whether `guess` received green or yellow for letter `c` anywhere.
    pub open spec fn tagged(guess: Seq<u8>, fb: Seq<WordleAnswerColor>, c: u8) -> bool {
        Self::tagged_in(guess, fb, 5, c)
    }

    /// Whether `guess` received gray for letter `c` at one of its first `n`
    /// positions.
    pub open spec fn gray_in(guess: Seq<u8>, fb: Seq<WordleAnswerColor>, n: int, c: u8) -> bool {
        exists|i: int| 0 <= i < n && fb[i] == WordleAnswerColor::Gray && #[trigger] guess[i] == c
    }

    /// Whether the first `n` positions of the feedback of `guess` rule letter
    /// `c` out of the answer: it is gray at one of them, green or yellow
    /// nowhere in the guess, and was never tagged green or yellow before.
    pub open spec fn newly_excluded(self, guess: Seq<u8>, fb: Seq<WordleAnswerColor>, n: int, c: u8) -> bool {
        &&& Self::gray_in(guess, fb, n, c)
        &&& !Self::tagged(guess, fb, c)
        &&& !self.tagged_letters.contains(c)
    }

    /// The knowledge after folding the feedback `fb` of `guess` in.
    pub open spec fn update(self, guess: Seq<u8>, fb: Seq<WordleAnswerColor>) -> ConstraintsView {
        ConstraintsView {
            known: Seq::new(
                5,
                |i: int|
                    if fb[i] == WordleAnswerColor::Green {
                        Some(guess[i])
                    } else {
                        self.known[i]
                    },
            ),
            included: Seq::new(
                5,
                |i: int|
                    if fb[i] == WordleAnswerColor::Yellow {
                        self.included[i].insert(guess[i])
                    } else {
                        self.included[i]
                    },
            ),
            excluded: self.excluded.union(Set::new(|c: u8| self.newly_excluded(guess, fb, 5, c))),
            tagged_letters: self.tagged_letters.union(Set::new(|c: u8| Self::tagged(guess, fb, c))),
        }
    }

    /// The knowledge before any feedback.
    pub open spec fn empty() -> ConstraintsView {
        ConstraintsView {
            known: Seq::new(5, |i: int| None),
            included: Seq::new(5, |i: int| Set::empty()),
            excluded: Set::empty(),
            tagged_letters: Set::empty(),
        }
    }
}

/// Accumulated constraints, held as letter lists.
#[derive(Debug)]
pub struct Constraints {
    known_letters: [Option<u8>; 5],
    included_letters: Vec<Vec<u8>>,
    excluded_letters: Vec<u8>,
    tagged_letters: Vec<u8>,
}

impl View for Constraints {
    type V = ConstraintsView;

    closed spec fn view(&self) -> ConstraintsView {
        ConstraintsView {
            known: self.known_letters@,
            included: Seq::new(5, |i: int| Set::new(|c: u8| self.included_letters@[i]@.contains(c))),
            excluded: Set::new(|c: u8| self.excluded_letters@.contains(c)),
            tagged_letters: Set::new(|c: u8| self.tagged_letters@.contains(c)),
        }
    }
}

/// Whether `c` is in `v`.
fn list_contains(v: &Vec<u8>, c: u8) -> (r: bool)
    ensures
        r == v@.contains(c),
{
    let mut i: usize = 0;
    while i < v.len()
        invariant
            0 <= i <= v.len(),
            forall|j: int| 0 <= j < i ==> v@[j] != c,
        decreases v.len() - i,
    {
        if v[i] == c {
            assert(v@[i as int] == c);
            return true;
        }
        i += 1;
    }
    false
}

proof fn lemma_push_contains(s: Seq<u8>, x: u8, c: u8)
    ensures
        s.push(x).contains(c) <==> (s.contains(c) || c == x),
{
    if s.contains(c) {
        let k = choose|k: int| 0 <= k < s.len() && s[k] == c;
        assert(s.push(x)[k] == c);
    }
    if c == x {
        assert(s.push(x)[s.len() as int] == c);
    }
    if s.push(x).contains(c) && c != x {
        let k = choose|k: int| 0 <= k < s.len() + 1 && s.push(x)[k] == c;
        assert(s[k] == c);
    }
}

proof fn lemma_gray_in_step(guess: Seq<u8>, fb: Seq<WordleAnswerColor>, i: int, d: u8)
    requires
        0 <= i < 5,
    ensures
        ConstraintsView::gray_in(guess, fb, i + 1, d) <==> (ConstraintsView::gray_in(guess, fb, i, d) || (
        fb[i] == WordleAnswerColor::Gray && guess[i] == d)),
{
    if ConstraintsView::gray_in(guess, fb, i + 1, d) {
        let j = choose|j: int| 0 <= j < i + 1 && fb[j] == WordleAnswerColor::Gray && #[trigger] guess[j] == d;
        if j < i {
            assert(ConstraintsView::gray_in(guess, fb, i, d));
        }
    }
    if ConstraintsView::gray_in(guess, fb, i, d) {
        let j = choose|j: int| 0 <= j < i && fb[j] == WordleAnswerColor::Gray && #[trigger] guess[j] == d;
        assert(ConstraintsView::gray_in(guess, fb, i + 1, d));
    }
    if fb[i] == WordleAnswerColor::Gray && guess[i] == d {
        assert(ConstraintsView::gray_in(guess, fb, i + 1, d));
    }
}

proof fn lemma_tagged_in_step(guess: Seq<u8>, fb: Seq<WordleAnswerColor>, i: int, d: u8)
    requires
        0 <= i < 5,
    ensures
        ConstraintsView::tagged_in(guess, fb, i + 1, d) <==> (ConstraintsView::tagged_in(guess, fb, i, d) || (
        fb[i] != WordleAnswerColor::Gray && guess[i] == d)),
{
    if ConstraintsView::tagged_in(guess, fb, i + 1, d) {
        let j = choose|j: int| 0 <= j < i + 1 && fb[j] != WordleAnswerColor::Gray && #[trigger] guess[j] == d;
        if j < i {
            assert(ConstraintsView::tagged_in(guess, fb, i, d));
        }
    }
    if ConstraintsView::tagged_in(guess, fb, i, d) {
        let j = choose|j: int| 0 <= j < i && fb[j] != WordleAnswerColor::Gray && #[trigger] guess[j] == d;
        assert(ConstraintsView::tagged_in(guess, fb, i + 1, d));
    }
    if fb[i] != WordleAnswerColor::Gray && guess[i] == d {
        assert(ConstraintsView::tagged_in(guess, fb, i + 1, d));
    }
}

/// Whether `guess` received green or yellow for letter `c` anywhere.
fn tagged_in_guess(guess: &Word, output: &Feedback, c: u8) -> (r: bool)
    ensures
        r == ConstraintsView::tagged(guess@, output@, c),
{
    let mut j: usize = 0;
    while j < 5
        invariant
            0 <= j <= 5,
            forall|k: int| 0 <= k < j ==> !(output@[k] != WordleAnswerColor::Gray && #[trigger] guess@[k] == c),
        decreases 5 - j,
    {
        if output[j] != WordleAnswerColor::Gray && guess[j] == c {
            assert(output@[j as int] != WordleAnswerColor::Gray && guess@[j as int] == c);
            return true;
        }
        j += 1;
    }
    false
}

impl Constraints {
    pub closed spec fn wf(&self) -> bool {
        self.included_letters@.len() == 5
    }

    /// No knowledge yet.
    pub fn new() -> (r: Constraints)
        ensures
            r.wf(),
            r@.wf(),
            r@ == ConstraintsView::empty(),
    {
        let known_letters = [None;5];
        let mut included_letters: Vec<Vec<u8>> = Vec::new();
        let mut i: usize = 0;
        while i < 5
            invariant
                0 <= i <= 5,
                included_letters@.len() == i,
                forall|j: int| 0 <= j < i ==> (#[trigger] included_letters@[j])@.len() == 0,
            decreases 5 - i,
        {
            included_letters.push(Vec::new());
            i += 1;
        }
        let r = Constraints {
            known_letters,
            included_letters,
            excluded_letters: Vec::new(),
            tagged_letters: Vec::new(),
        };
        assert(r@.known =~= ConstraintsView::empty().known);
        assert forall|j: int| 0 <= j < 5 implies r@.included[j] == ConstraintsView::empty().included[j] by {
            assert(r@.included[j] =~= Set::empty());
        }
        assert(r@.included =~= ConstraintsView::empty().included);
        assert(r@.excluded =~= ConstraintsView::empty().excluded);
        assert(r@.tagged_letters =~= ConstraintsView::empty().tagged_letters);
        r
    }

    /// Whether `word` is consistent with every constraint.
    pub fn matches(&self, word: &Word) -> (r: bool)
        requires
            self.wf(),
        ensures
            r == self@.matches(word@),
    {
        let mut i: usize = 0;
        while i < 5
            invariant
                self.wf(),
                0 <= i <= 5,
                forall|k: int, c: u8|
                    0 <= k < i && #[trigger] self@.included[k].contains(c) ==> ConstraintsView::hits(
                        self@.included[k],
                        word@,
                    ),
            decreases 5 - i,
        {
            let set = &self.included_letters[i];
            let mut found = false;
            let mut j: usize = 0;
            while j < set.len()
                invariant
                    self.wf(),
                    0 <= i < 5,
                    set@ == self.included_letters@[i as int]@,
                    0 <= j <= set.len(),
                    found ==> ConstraintsView::hits(self@.included[i as int], word@),
                    !found ==> forall|k: int| 0 <= k < j ==> !word@.contains(#[trigger] set@[k]),
                decreases set.len() - j,
            {
                if word_contains(word, set[j]) {
                    assert(self@.included[i as int].contains(set@[j as int]));
                    found = true;
                }
                j += 1;
            }
            if set.len() > 0 && !found {
                assert(self@.included[i as int].contains(set@[0]));
                assert(!ConstraintsView::hits(self@.included[i as int], word@)) by {
                    assert forall|d: u8| self@.included[i as int].contains(d) implies !word@.contains(d) by {
                        let k = choose|k: int| 0 <= k < set@.len() && set@[k] == d;
                    }
                }
                return false;
            }
            assert forall|c: u8| #[trigger] self@.included[i as int].contains(c) implies ConstraintsView::hits(
                self@.included[i as int],
                word@,
            ) by {
                if set.len() == 0 {
                    assert(set@.contains(c));
                }
            }
            i += 1;
        }
        let mut j: usize = 0;
        while j < self.excluded_letters.len()
            invariant
                0 <= j <= self.excluded_letters.len(),
                forall|k: int| 0 <= k < j ==> !word@.contains(#[trigger] self.excluded_letters@[k]),
            decreases self.excluded_letters.len() - j,
        {
            if word_contains(word, self.excluded_letters[j]) {
                assert(self@.excluded.contains(self.excluded_letters@[j as int]));
                return false;
            }
            j += 1;
        }
        let mut i: usize = 0;
        while i < 5
            invariant
                self.wf(),
                0 <= i <= 5,
                forall|k: int| 0 <= k < i ==> #[trigger] self@.position_ok(word@, k),
            decreases 5 - i,
        {
            if let Some(letter) = self.known_letters[i] {
                if word[i] != letter {
                    assert(!self@.position_ok(word@, i as int));
                    return false;
                }
            }
            if list_contains(&self.included_letters[i], word[i]) {
                assert(!self@.position_ok(word@, i as int));
                return false;
            }
            assert(self@.position_ok(word@, i as int));
            i += 1;
        }
        proof {
            assert forall|c: u8| #[trigger] self@.excluded.contains(c) implies !word@.contains(c) by {
                let k = choose|k: int| 0 <= k < self.excluded_letters@.len() && self.excluded_letters@[k] == c;
            }
        }
        true
    }

    /// The letter known at position `i`, if any.
    pub fn known_at(&self, i: usize) -> (r: Option<u8>)
        requires
            i < 5,
        ensures
            r == self@.known[i as int],
    {
        self.known_letters[i]
    }

    /// Whether `c` is known to be in the answer at some position other than
    /// one it was tried at.
    pub fn is_included(&self, c: u8) -> (r: bool)
        requires
            self.wf(),
        ensures
            r == exists|i: int| 0 <= i < 5 && #[trigger] self@.included[i].contains(c),
    {
        let mut i: usize = 0;
        while i < 5
            invariant
                self.wf(),
                0 <= i <= 5,
                forall|k: int| 0 <= k < i ==> !(#[trigger] self@.included[k]).contains(c),
            decreases 5 - i,
        {
            if list_contains(&self.included_letters[i], c) {
                assert(self@.included[i as int].contains(c));
                return true;
            }
            i += 1;
        }
        false
    }

    /// Whether `c` is known to be absent from the answer.
    pub fn is_excluded(&self, c: u8) -> (r: bool)
        ensures
            r == self@.excluded.contains(c),
    {
        list_contains(&self.excluded_letters, c)
    }

    /// Folds the feedback `output` of `guess` into the constraints. A gray
    /// letter is excluded only where the guess tags it green or yellow
    /// nowhere and no earlier guess ever tagged it so.
    pub fn update_from_guess(&mut self, guess: &Word, output: &Feedback)
        requires
            old(self).wf(),
        ensures
            final(self).wf(),
            final(self)@.wf(),
            final(self)@ == old(self)@.update(guess@, output@),
    {
        let ghost start = self@;
        let mut i: usize = 0;
        while i < 5
            invariant
                self.wf(),
                0 <= i <= 5,
                self@.known == start.known,
                self@.included == start.included,
                self@.tagged_letters == start.tagged_letters,
                self@.excluded == start.excluded.union(
                    Set::new(|c: u8| start.newly_excluded(guess@, output@, i as int, c)),
                ),
            decreases 5 - i,
        {
            let ghost before = self@;
            let c = guess[i];
            if output[i] == WordleAnswerColor::Gray && !list_contains(&self.excluded_letters, c)
                && !tagged_in_guess(guess, output, c) && !list_contains(&self.tagged_letters, c) {
                let ghost prev = self.excluded_letters@;
                self.excluded_letters.push(c);
                proof {
                    assert forall|d: u8| self.excluded_letters@.contains(d) <==> (prev.contains(d) || d
                        == c) by {
                        lemma_push_contains(prev, c, d);
                    }
                }
            }
            proof {
                assert(self@.known == start.known);
                assert(self@.included =~= start.included);
                assert(self@.tagged_letters =~= start.tagged_letters);
                assert forall|d: u8| #[trigger] self@.excluded.contains(d) <==> (before.excluded.contains(d)
                    || (output@[i as int] == WordleAnswerColor::Gray && d == c && !ConstraintsView::tagged(
                    guess@,
                    output@,
                    c,
                ) && !start.tagged_letters.contains(c))) by {}
                assert(self@.excluded =~= start.excluded.union(
                    Set::new(|d: u8| start.newly_excluded(guess@, output@, i + 1, d)),
                )) by {
                    assert forall|d: u8| start.newly_excluded(guess@, output@, i + 1, d) <==> (
                    start.newly_excluded(guess@, output@, i as int, d) || (output@[i as int]
                        == WordleAnswerColor::Gray && guess@[i as int] == d && !ConstraintsView::tagged(
                        guess@,
                        output@,
                        d,
                    ) && !start.tagged_letters.contains(d))) by {
                        lemma_gray_in_step(guess@, output@, i as int, d);
                    }
                }
            }
            i += 1;
        }
        let ghost excluded = self@.excluded;
        let mut i: usize = 0;
        while i < 5
            invariant
                self.wf(),
                0 <= i <= 5,
                self@.excluded == excluded,
                self@.tagged_letters == start.tagged_letters.union(
                    Set::new(|c: u8| ConstraintsView::tagged_in(guess@, output@, i as int, c)),
                ),
                forall|k: int|
                    0 <= k < 5 ==> #[trigger] self@.known[k] == if k < i && output@[k]
                        == WordleAnswerColor::Green {
                        Some(guess@[k])
                    } else {
                        start.known[k]
                    },
                forall|k: int|
                    0 <= k < 5 ==> #[trigger] self@.included[k] == if k < i && output@[k]
                        == WordleAnswerColor::Yellow {
                        start.included[k].insert(guess@[k])
                    } else {
                        start.included[k]
                    },
            decreases 5 - i,
        {
            let ghost before = self@;
            let c = guess[i];
            if output[i] == WordleAnswerColor::Green {
                self.known_letters[i] = Some(c);
            } else if output[i] == WordleAnswerColor::Yellow {
                if !list_contains(&self.included_letters[i], c) {
                    let ghost prev = self.included_letters@[i as int]@;
                    self.included_letters[i].push(c);
                    proof {
                        assert forall|d: u8| self.included_letters@[i as int]@.contains(d) <==> (prev.contains(
                            d,
                        ) || d == c) by {
                            lemma_push_contains(prev, c, d);
                        }
                    }
                }
            }
            if output[i] != WordleAnswerColor::Gray && !list_contains(&self.tagged_letters, c) {
                let ghost prev = self.tagged_letters@;
                self.tagged_letters.push(c);
                proof {
                    assert forall|d: u8| self.tagged_letters@.contains(d) <==> (prev.contains(d) || d == c) by {
                        lemma_push_contains(prev, c, d);
                    }
                }
            }
            proof {
                assert(self@.excluded =~= excluded);
                assert(self@.tagged_letters =~= start.tagged_letters.union(
                    Set::new(|d: u8| ConstraintsView::tagged_in(guess@, output@, i + 1, d)),
                )) by {
                    assert forall|d: u8| #[trigger] self@.tagged_letters.contains(d) <==> (
                    before.tagged_letters.contains(d) || (output@[i as int] != WordleAnswerColor::Gray && d
                        == c)) by {}
                    assert forall|d: u8| ConstraintsView::tagged_in(guess@, output@, i + 1, d) <==> (
                    ConstraintsView::tagged_in(guess@, output@, i as int, d) || (output@[i as int]
                        != WordleAnswerColor::Gray && guess@[i as int] == d)) by {
                        lemma_tagged_in_step(guess@, output@, i as int, d);
                    }
                }
                assert forall|k: int| 0 <= k < 5 implies #[trigger] self@.known[k] == if k < i + 1
                    && output@[k] == WordleAnswerColor::Green {
                    Some(guess@[k])
                } else {
                    start.known[k]
                } by {
                    if k != i {
                        assert(self@.known[k] == before.known[k]);
                    }
                }
                assert forall|k: int| 0 <= k < 5 implies #[trigger] self@.included[k] == if k < i + 1
                    && output@[k] == WordleAnswerColor::Yellow {
                    start.included[k].insert(guess@[k])
                } else {
                    start.included[k]
                } by {
                    if k == i && output@[k] == WordleAnswerColor::Yellow {
                        assert(self@.included[k] =~= before.included[k].insert(c));
                    } else {
                        assert(self@.included[k] =~= before.included[k]);
                    }
                }
            }
            i += 1;
        }
        proof {
            assert(self@.known =~= start.update(guess@, output@).known);
            assert(self@.included =~= start.update(guess@, output@).included);
            assert(self@.excluded =~= start.update(guess@, output@).excluded);
            assert(self@.tagged_letters =~= start.update(guess@, output@).tagged_letters);
        }
    }
}

/// Before any feedback every five-letter word is consistent.
pub proof fn lemma_empty_matches_all(w: Seq<u8>)
    requires
        w.len() == 5,
    ensures
        ConstraintsView::empty().matches(w),
{
}

/// The hidden word is never filtered out by its own feedback: if it is
/// consistent with what is known, it stays consistent after folding in the
/// feedback that any guess receives against it.
pub proof fn lemma_answer_survives_feedback(c: ConstraintsView, guess: Seq<u8>, answer: Seq<u8>)
    requires
        c.wf(),
        guess.len() == 5,
        answer.len() == 5,
        c.matches(answer),
    ensures
        c.update(guess, feedback_of(answer, guess)).matches(answer),
{
    let fb = feedback_of(answer, guess);
    let n = c.update(guess, fb);
    assert forall|i: int, d: u8| 0 <= i < 5 && #[trigger] n.included[i].contains(d) implies ConstraintsView::hits(
        n.included[i],
        answer,
    ) by {
        if c.included[i].contains(d) {
            let e = choose|e: u8| c.included[i].contains(e) && answer.contains(e);
            assert(n.included[i].contains(e));
        } else {
            assert(n.included[i].contains(guess[i]) && answer.contains(guess[i]));
        }
    }
    assert forall|d: u8| #[trigger] n.excluded.contains(d) implies !answer.contains(d) by {
        if !c.excluded.contains(d) {
            let i = choose|i: int| 0 <= i < 5 && fb[i] == WordleAnswerColor::Gray && #[trigger] guess[i] == d;
            assert(fb[i] == crate::feedback::color_at(answer, guess, i));
        }
    }
    assert forall|i: int| 0 <= i < 5 implies #[trigger] n.position_ok(answer, i) by {
        assert(c.position_ok(answer, i));
        assert(fb[i] == crate::feedback::color_at(answer, guess, i));
    }
}

/// The hidden word survives the feedback of a first guess.
pub proof fn lemma_answer_survives_first_feedback(guess: Seq<u8>, answer: Seq<u8>)
    requires
        guess.len() == 5,
        answer.len() == 5,
    ensures
        ConstraintsView::empty().update(guess, feedback_of(answer, guess)).matches(answer),
{
    lemma_answer_survives_feedback(ConstraintsView::empty(), guess, answer);
}

/// A letter tagged green or yellow is never excluded afterwards: every letter
/// that an update newly excludes lies outside the letters ever tagged green or
/// yellow, which only grow and take in every letter this guess tags.
pub proof fn lemma_exclusions_never_tagged(c: ConstraintsView, guess: Seq<u8>, fb: Seq<WordleAnswerColor>)
    ensures
        forall|d: u8|
            #[trigger] c.update(guess, fb).excluded.contains(d) && !c.excluded.contains(d) ==> !c.update(
                guess,
                fb,
            ).tagged_letters.contains(d),
        c.tagged_letters.subset_of(c.update(guess, fb).tagged_letters),
        forall|d: u8| ConstraintsView::tagged(guess, fb, d) ==> #[trigger] c.update(guess, fb).tagged_letters.contains(d),
{
}

/// Folding the same guess and feedback a second time changes nothing.
pub proof fn lemma_update_idempotent(c: ConstraintsView, guess: Seq<u8>, fb: Seq<WordleAnswerColor>)
    requires
        c.wf(),
    ensures
        c.update(guess, fb).update(guess, fb) == c.update(guess, fb),
{
    let once = c.update(guess, fb);
    let twice = once.update(guess, fb);
    assert(twice.known =~= once.known);
    assert forall|i: int| 0 <= i < 5 implies twice.included[i] == once.included[i] by {
        if fb[i] == WordleAnswerColor::Yellow {
            assert(twice.included[i] =~= once.included[i]);
        }
    }
    assert(twice.included =~= once.included);
    assert(twice.excluded =~= once.excluded);
    assert(twice.tagged_letters =~= once.tagged_letters);
}

} // verus!
