//! The strategy that guesses a random candidate.
use vstd::prelude::*;

use rand::rngs::StdRng;

use crate::candidates::{candidates_of, filter_candidates};
use crate::feedback::{LetterResult, Word};
use crate::knowledge::Knowledge;
use crate::rng::{fresh_rng, random_below, seeded_rng};

verus! {

/// Guesses a candidate drawn at random, the candidates narrowing with every feedback.
pub struct RandomWithUpdates {
    wordlist: Vec<Word>,
    knowledge: Knowledge,
    invalid_words: Vec<Word>,
    rng: StdRng,
}

impl RandomWithUpdates {
    /// The words the guesser chooses from.
    pub closed spec fn word_list(&self) -> Seq<Word> {
        self.wordlist@
    }

    /// What feedback has taught so far.
    pub closed spec fn knowledge(&self) -> Knowledge {
        self.knowledge
    }

    /// The words marked invalid so far.
    pub closed spec fn invalid(&self) -> Seq<Word> {
        self.invalid_words@
    }

    /// The words still worth guessing, in list order.
    pub open spec fn candidates(&self) -> Seq<Word> {
        candidates_of(self.word_list(), self.knowledge(), self.invalid())
    }

    /// A guesser over `wordlist`, with nothing known and no word marked invalid, drawing
    /// from a generator seeded by the thread's generator.
    pub fn new(wordlist: Vec<Word>) -> (r: Self)
        ensures
            r.word_list() == wordlist@,
            r.knowledge().is_fresh(),
            r.invalid().len() == 0,
    {
        RandomWithUpdates {
            wordlist,
            knowledge: Knowledge::new(),
            invalid_words: Vec::new(),
            rng: fresh_rng(),
        }
    }

    /// As `new`, drawing from a generator seeded with `seed`.
    pub fn with_seed(wordlist: Vec<Word>, seed: u64) -> (r: Self)
        ensures
            r.word_list() == wordlist@,
            r.knowledge().is_fresh(),
            r.invalid().len() == 0,
    {
        RandomWithUpdates {
            wordlist,
            knowledge: Knowledge::new(),
            invalid_words: Vec::new(),
            rng: seeded_rng(seed),
        }
    }

    /// Number of words in the list.
    pub fn word_count(&self) -> (r: usize)
        ensures
            r == self.word_list().len(),
    {
        self.wordlist.len()
    }

    /// The candidates: the words of the list that are not marked invalid and agree with
    /// what is known, in list order.
    pub fn get_candidates(&self) -> (r: Vec<Word>)
        ensures
            r@ == self.candidates(),
    {
        filter_candidates(&self.wordlist, &self.knowledge, &self.invalid_words)
    }

    /// A candidate drawn at random; `None` when no candidate is left. Only the generator
    /// changes.
    pub fn make_guess(&mut self) -> (r: Option<Word>)
        ensures
            old(self).candidates().len() == 0 ==> r is None,
            old(self).candidates().len() > 0 ==> exists|i: int|
                0 <= i < old(self).candidates().len() && r == Some(old(self).candidates()[i]),
            final(self).word_list() == old(self).word_list(),
            final(self).knowledge() == old(self).knowledge(),
            final(self).invalid() == old(self).invalid(),
    {
        let candidates = self.get_candidates();
        if candidates.len() == 0 {
            return None;
        }
        let idx = random_below(&mut self.rng, candidates.len());
        Some(candidates[idx])
    }

    /// Takes in the feedback `result` for `guess`.
    pub fn update(&mut self, guess: Word, result: [LetterResult; 5])
        ensures
            final(self).knowledge().is_update_of(old(self).knowledge(), guess@, result@),
            final(self).word_list() == old(self).word_list(),
            final(self).invalid() == old(self).invalid(),
    {
        self.knowledge.update(guess, result);
    }

    /// Marks `word` as rejected by the game: it is no candidate from now on.
    pub fn mark_invalid(&mut self, word: Word)
        ensures
            final(self).invalid() == old(self).invalid().push(word),
            final(self).knowledge() == old(self).knowledge(),
            final(self).word_list() == old(self).word_list(),
    {
        self.invalid_words.push(word);
    }

    /// Forgets all feedback and all invalid words, for a new puzzle over the same list.
    pub fn reset(&mut self)
        ensures
            final(self).knowledge().is_fresh(),
            final(self).invalid().len() == 0,
            final(self).word_list() == old(self).word_list(),
    {
        self.knowledge = Knowledge::new();
        self.invalid_words = Vec::new();
    }
}

} // verus!
