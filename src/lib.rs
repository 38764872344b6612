//! Strategies for solving a five-letter word-guessing puzzle.
//!
//! The library holds the feedback rule that scores a guess against a secret,
//! the constraint store that accumulates what feedback has taught, and four
//! guessing strategies built on top of it.
pub mod candidates;
pub mod entropy_guesser;
pub mod feedback;
pub mod game;
pub mod heuristic_guesser;
pub mod knowledge;
pub mod letters;
pub mod random_guesser;
pub mod random_with_updates;
mod rng;
pub mod scoring;
pub mod strategy;
pub mod text;

pub use entropy_guesser::EntropyGuesser;
pub use feedback::{take_guess, LetterResult, Word};
pub use heuristic_guesser::HeuristicGuesser;
pub use knowledge::Knowledge;
pub use random_guesser::RandomGuesser;
pub use random_with_updates::RandomWithUpdates;
pub use strategy::{create_ai, AIType, WordleAI};
