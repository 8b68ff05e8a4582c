use vstd::prelude::*;
use crate::constraints::{Constraints, ConstraintsView};
use crate::feedback::{Word, Feedback, all_green, is_all_green};
use crate::pool::{admits, filtered, filter_pool};
use crate::constraints::lemma_answer_survives_feedback;
use crate::feedback::feedback_of;

verus! {

/// The number of guesses a session may make.
pub const MAX_GUESSES: usize = 6;

/// Where a solving session stands.
#[derive(Debug, Clone, Copy, PartialEq, Eq, Structural)]
pub enum SessionState {
    /// More guesses are owed.
    Guessing,
    /// A guess received all-green feedback.
    Won,
    /// The guess budget was spent without a match.
    Exhausted,
    /// The feedback left no candidate: it contradicts itself.
    NoCandidates,
}

/// How the next guess is to be chosen.
#[derive(Debug, Clone, Copy)]
pub enum GuessPlan {
    /// The opening guess, computed once for the vocabularies.
    Opening,
    /// This remaining candidate, with no search.
    Candidate(Word),
    /// The best-scoring word of a search.
    Search,
}

/// The mathematical state of a session.
pub struct SessionView {
    pub knowledge: ConstraintsView,
    pub pool: Seq<Word>,
    pub round: nat,
    pub state: SessionState,
}

impl SessionView {
    /// The state that follows a round: an empty pool ends the session, in any
    /// round; with candidates and budget left it goes on.
    pub open spec fn state_after(round: nat, pool: Seq<Word>) -> SessionState {
        if pool.len() == 0 {
            SessionState::NoCandidates
        } else if round >= MAX_GUESSES {
            SessionState::Exhausted
        } else {
            SessionState::Guessing
        }
    }

    /// The session at the start, with the full solution vocabulary as pool.
    pub open spec fn start(solutions: Seq<Word>) -> SessionView {
        SessionView {
            knowledge: ConstraintsView::empty(),
            pool: solutions,
            round: 0,
            state: Self::state_after(0, solutions),
        }
    }

    /// The plan for the next guess: the opening guess first; then the first
    /// remaining candidate when at most two remain or when this is the last
    /// guess allowed; a search otherwise.
    pub open spec fn plan(self) -> GuessPlan {
        if self.round == 0 {
            GuessPlan::Opening
        } else if self.pool.len() <= 2 || self.round + 1 >= MAX_GUESSES {
            GuessPlan::Candidate(self.pool[0])
        } else {
            GuessPlan::Search
        }
    }

    /// The session after `guess` received `fb`.
    pub open spec fn after(self, guess: Seq<u8>, fb: Seq<crate::feedback::WordleAnswerColor>) -> SessionView {
        if all_green(fb) {
            SessionView { round: self.round + 1, state: SessionState::Won, ..self }
        } else {
            let knowledge = self.knowledge.update(guess, fb);
            let pool = filtered(self.pool, knowledge);
            SessionView {
                knowledge,
                pool,
                round: self.round + 1,
                state: Self::state_after(self.round + 1, pool),
            }
        }
    }
}

/// One solving episode: its constraints, its candidate pool and its round.
#[derive(Debug)]
pub struct Session {
    constraints: Constraints,
    pool: Vec<Word>,
    round: usize,
    state: SessionState,
}

impl View for Session {
    type V = SessionView;

    closed spec fn view(&self) -> SessionView {
        SessionView {
            knowledge: self.constraints@,
            pool: self.pool@,
            round: self.round as nat,
            state: self.state,
        }
    }
}

fn state_after(round: usize, pool: &Vec<Word>) -> (r: SessionState)
    ensures
        r == SessionView::state_after(round as nat, pool@),
{
    if pool.len() == 0 {
        SessionState::NoCandidates
    } else if round >= MAX_GUESSES {
        SessionState::Exhausted
    } else {
        SessionState::Guessing
    }
}

impl Session {
    /// The internal invariant: the constraints are well formed, the round
    /// never passes the budget, and a session that still guesses has both
    /// candidates and budget left.
    pub closed spec fn wf(&self) -> bool {
        &&& self.constraints.wf()
        &&& self.constraints@.wf()
        &&& self.round <= MAX_GUESSES
        &&& self.state == SessionState::Guessing ==> self.pool@.len() > 0 && self.round < MAX_GUESSES
    }

    /// A session over the solution vocabulary `solutions`.
    pub fn new(solutions: Vec<Word>) -> (r: Session)
        ensures
            r.wf(),
            r@ == SessionView::start(solutions@),
    {
        let state = state_after(0, &solutions);
        Session { constraints: Constraints::new(), pool: solutions, round: 0, state }
    }

    /// A session never passes the guess budget, and one that still guesses has
    /// a guess left and a candidate to offer: no seventh guess is ever owed.
    pub proof fn lemma_within_budget(&self)
        requires
            self.wf(),
        ensures
            self@.knowledge.wf(),
            self@.round <= MAX_GUESSES,
            self@.state == SessionState::Guessing ==> self@.round < MAX_GUESSES && self@.pool.len() > 0,
    {
    }

    /// The words a search picks from: the remaining candidates in hard mode,
    /// where a guess must itself be a candidate, and the whole guess
    /// vocabulary otherwise.
    pub fn search_space<'a>(&'a self, vocabulary: &'a Vec<Word>, hard_mode: bool) -> (r: &'a Vec<Word>)
        ensures
            r@ == if hard_mode {
                self@.pool
            } else {
                vocabulary@
            },
    {
        if hard_mode {
            &self.pool
        } else {
            vocabulary
        }
    }

    /// The remaining candidates.
    pub fn pool(&self) -> (r: &Vec<Word>)
        ensures
            r@ == self@.pool,
    {
        &self.pool
    }

    /// The number of guesses recorded.
    pub fn round(&self) -> (r: usize)
        ensures
            r == self@.round,
    {
        self.round
    }

    /// Where the session stands.
    pub fn state(&self) -> (r: SessionState)
        ensures
            r == self@.state,
    {
        self.state
    }

    /// The constraints gathered so far.
    pub fn constraints(&self) -> (r: &Constraints)
        requires
            self.wf(),
        ensures
            r@ == self@.knowledge,
            r.wf(),
            r@.wf(),
    {
        &self.constraints
    }

    /// How the next guess is to be chosen.
    pub fn plan(&self) -> (r: GuessPlan)
        requires
            self.wf(),
            self@.state == SessionState::Guessing,
        ensures
            r == self@.plan(),
    {
        if self.round == 0 {
            GuessPlan::Opening
        } else if self.pool.len() <= 2 || self.round + 1 >= MAX_GUESSES {
            GuessPlan::Candidate(self.pool[0])
        } else {
            GuessPlan::Search
        }
    }

    /// Records that `guess` received `feedback`: all green wins; otherwise the
    /// feedback is folded into the constraints and the pool is filtered.
    pub fn record(&mut self, guess: &Word, feedback: &Feedback)
        requires
            old(self).wf(),
            old(self)@.state == SessionState::Guessing,
        ensures
            final(self).wf(),
            final(self)@ == old(self)@.after(guess@, feedback@),
    {
        self.round = self.round + 1;
        if is_all_green(feedback) {
            self.state = SessionState::Won;
        } else {
            self.constraints.update_from_guess(guess, feedback);
            self.pool = filter_pool(&self.pool, &self.constraints);
            self.state = state_after(self.round, &self.pool);
        }
    }
}

/// All-green feedback ends the session in a win, in the round it came.
pub proof fn lemma_all_green_wins(s: SessionView, guess: Seq<u8>, fb: Seq<crate::feedback::WordleAnswerColor>)
    requires
        all_green(fb),
    ensures
        s.after(guess, fb).state == SessionState::Won,
        s.after(guess, fb).round == s.round + 1,
{
}

/// A miss on the last allowed guess that leaves candidates exhausts the
/// session, so no further guess can be recorded.
pub proof fn lemma_last_miss_exhausts(s: SessionView, guess: Seq<u8>, fb: Seq<crate::feedback::WordleAnswerColor>)
    requires
        s.round + 1 == MAX_GUESSES,
        !all_green(fb),
        s.after(guess, fb).pool.len() > 0,
    ensures
        s.after(guess, fb).state == SessionState::Exhausted,
        s.after(guess, fb).round == MAX_GUESSES,
{
}

/// Feedback that leaves no candidate ends the session as contradictory, in
/// any round, unless it is all green.
pub proof fn lemma_empty_pool_no_candidates(s: SessionView, guess: Seq<u8>, fb: Seq<crate::feedback::WordleAnswerColor>)
    requires
        !all_green(fb),
        s.after(guess, fb).pool.len() == 0,
    ensures
        s.after(guess, fb).state == SessionState::NoCandidates,
{
}

/// Each round keeps the pool or shrinks it.
pub proof fn lemma_round_never_grows_pool(s: SessionView, guess: Seq<u8>, fb: Seq<crate::feedback::WordleAnswerColor>)
    ensures
        s.after(guess, fb).pool.len() <= s.pool.len(),
{
}

/// In simulated play the hidden word is never filtered out: if it is a
/// remaining candidate consistent with what is known, then after any guess
/// and the feedback that guess receives against it, the session has won or
/// the word is still a candidate consistent with what is known.
pub proof fn lemma_answer_stays_in_pool(s: SessionView, guess: Word, answer: Word)
    requires
        s.knowledge.wf(),
        s.knowledge.matches(answer@),
        s.pool.contains(answer),
    ensures
        s.after(guess@, feedback_of(answer@, guess@)).state == SessionState::Won || (s.after(
            guess@,
            feedback_of(answer@, guess@),
        ).pool.contains(answer) && s.after(guess@, feedback_of(answer@, guess@)).knowledge.matches(
            answer@,
        )),
{
    let fb = feedback_of(answer@, guess@);
    if !all_green(fb) {
        let knowledge = s.knowledge.update(guess@, fb);
        lemma_answer_survives_feedback(s.knowledge, guess@, answer@);
        let i = choose|i: int| 0 <= i < s.pool.len() && s.pool[i] == answer;
        s.pool.lemma_filter_contains(admits(knowledge), i);
    }
}

/// In simulated play a round is won exactly when the guess is the hidden
/// word.
pub proof fn lemma_simulated_win_iff_answer(s: SessionView, guess: Seq<u8>, answer: Seq<u8>)
    requires
        guess.len() == 5,
        answer.len() == 5,
    ensures
        (s.after(guess, feedback_of(answer, guess)).state == SessionState::Won) <==> guess == answer,
{
    crate::feedback::lemma_all_green_iff_equal(answer, guess);
    let fb = feedback_of(answer, guess);
    if !all_green(fb) {
        let knowledge = s.knowledge.update(guess, fb);
        assert(SessionView::state_after(s.round + 1, filtered(s.pool, knowledge)) != SessionState::Won);
    }
}

} // verus!
