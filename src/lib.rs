//! Guess selection for a five-letter word-guessing game: feedback
//! classification, accumulated constraints, candidate filtering, the integer
//! features that the guess score is built from, and the solving session.

pub mod feedback;
pub mod constraints;
pub mod pool;
pub mod search;
pub mod session;
pub mod seen;
pub mod score;
pub mod entry;
