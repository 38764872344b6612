//! A game session: a secret word, a dictionary, and a budget of attempts.
use vstd::prelude::*;

use crate::candidates::{contains_word, holds_word};
use crate::feedback::{score, take_guess, LetterResult, Word};
use crate::rng::{fresh_rng, random_below};

verus! {

/// The dictionary to draw a secret from was empty.
#[derive(Debug)]
pub enum WordListError {
    WordListEmpty,
}

/// A guess that the game refused.
#[derive(Debug)]
pub enum GameError {
    /// The guess is not in the game's dictionary.
    WordNotInList,
}

/// What a guess that the game took brought.
pub enum GuessResult {
    /// Not solved, attempts are left.
    Continue([LetterResult; 5]),
    /// Solved.
    Won([LetterResult; 5]),
    /// Not solved, and that was the last attempt.
    Lost { last_guess: [LetterResult; 5], solution: Word },
}

/// A game in progress.
pub struct Game {
    solution: Word,
    words: Vec<Word>,
    max_attempts: usize,
    attempts: usize,
}

/// Whether every status of `r` is Correct.
pub open spec fn all_correct(r: Seq<LetterResult>) -> bool {
    forall|i: int| 0 <= i < 5 ==> #[trigger] r[i] == LetterResult::Correct
}

impl Game {
    /// The secret word.
    pub closed spec fn secret(&self) -> Word {
        self.solution
    }

    /// The words the game accepts as guesses.
    pub closed spec fn dictionary(&self) -> Seq<Word> {
        self.words@
    }

    /// Number of guesses taken so far.
    pub closed spec fn attempts_spec(&self) -> nat {
        self.attempts as nat
    }

    /// Number of guesses allowed.
    pub closed spec fn max_attempts_spec(&self) -> nat {
        self.max_attempts as nat
    }

    /// A game over `words` with a secret drawn at random from them; an error when there is
    /// no word to draw.
    pub fn new(max_attempts: usize, words: Vec<Word>) -> (r: Result<Game, WordListError>)
        ensures
            words@.len() == 0 <==> r is Err,
            match r {
                Ok(g) => {
                    &&& words@.contains(g.secret())
                    &&& g.dictionary() == words@
                    &&& g.attempts_spec() == 0
                    &&& g.max_attempts_spec() == max_attempts
                },
                Err(_) => true,
            },
    {
        if words.len() == 0 {
            return Err(WordListError::WordListEmpty);
        }
        let mut rng = fresh_rng();
        let i = random_below(&mut rng, words.len());
        let solution = words[i];
        Ok(Game { solution, words, max_attempts, attempts: 0 })
    }

    /// Scores `guess` against the secret, if the dictionary holds it, and counts the attempt:
    /// `Won` when every letter is Correct, else `Lost` when no attempt is left, else
    /// `Continue`. A guess outside the dictionary is refused and not counted.
    pub fn take_guess(&mut self, guess: &Word) -> (r: Result<GuessResult, GameError>)
        requires
            old(self).attempts_spec() < usize::MAX,
        ensures
            final(self).secret() == old(self).secret(),
            final(self).dictionary() == old(self).dictionary(),
            final(self).max_attempts_spec() == old(self).max_attempts_spec(),
            !holds_word(old(self).dictionary(), guess@) <==> r is Err,
            r is Err ==> final(self).attempts_spec() == old(self).attempts_spec(),
            r is Ok ==> final(self).attempts_spec() == old(self).attempts_spec() + 1,
            match r {
                Ok(GuessResult::Won(res)) => res@ == score(old(self).secret()@, guess@) && all_correct(res@),
                Ok(GuessResult::Lost { last_guess, solution }) => {
                    &&& last_guess@ == score(old(self).secret()@, guess@)
                    &&& !all_correct(last_guess@)
                    &&& solution == old(self).secret()
                    &&& final(self).attempts_spec() >= final(self).max_attempts_spec()
                },
                Ok(GuessResult::Continue(res)) => {
                    &&& res@ == score(old(self).secret()@, guess@)
                    &&& !all_correct(res@)
                    &&& final(self).attempts_spec() < final(self).max_attempts_spec()
                },
                Err(_) => true,
            },
    {
        if !contains_word(&self.words, guess) {
            return Err(GameError::WordNotInList);
        }
        let result = take_guess(&self.solution, guess);
        self.attempts += 1;
        let mut is_won = true;
        let mut i: usize = 0;
        while i < 5
            invariant
                0 <= i <= 5,
                is_won == (forall|k: int| 0 <= k < i ==> result@[k] == LetterResult::Correct),
            decreases 5 - i,
        {
            if result[i] != LetterResult::Correct {
                is_won = false;
            }
            i += 1;
        }
        let is_last_attempt = !self.has_attempts_left();
        if is_won {
            Ok(GuessResult::Won(result))
        } else if is_last_attempt {
            Ok(GuessResult::Lost { last_guess: result, solution: self.solution })
        } else {
            Ok(GuessResult::Continue(result))
        }
    }

    /// A copy of this game, in the same state.
    pub fn clone_game(&self) -> (r: Game)
        ensures
            r.secret() == self.secret(),
            r.dictionary() == self.dictionary(),
            r.attempts_spec() == self.attempts_spec(),
            r.max_attempts_spec() == self.max_attempts_spec(),
    {
        let mut words: Vec<Word> = Vec::new();
        let mut i: usize = 0;
        while i < self.words.len()
            invariant
                0 <= i <= self.words@.len(),
                words@ == self.words@.subrange(0, i as int),
            decreases self.words@.len() - i,
        {
            words.push(self.words[i]);
            i += 1;
            assert(words@ =~= self.words@.subrange(0, i as int));
        }
        assert(words@ =~= self.words@);
        Game { solution: self.solution, words, max_attempts: self.max_attempts, attempts: self.attempts }
    }

    /// Whether another guess may be taken.
    pub fn has_attempts_left(&self) -> (r: bool)
        ensures
            r == (self.attempts_spec() < self.max_attempts_spec()),
    {
        self.attempts < self.max_attempts
    }

    /// Number of guesses taken so far.
    pub fn attempts(&self) -> (r: usize)
        ensures
            r == self.attempts_spec(),
    {
        self.attempts
    }

    /// Number of guesses allowed.
    pub fn max_attempts(&self) -> (r: usize)
        ensures
            r == self.max_attempts_spec(),
    {
        self.max_attempts
    }
}

} // verus!
