//! The information-gain strategy.
use vstd::prelude::*;

use crate::candidates::{
    candidates_of, contains_word, filter_candidates, holds_word, lemma_candidate_is_valid, valid_words,
};
use crate::feedback::{LetterResult, Word};
use crate::knowledge::Knowledge;
use crate::scoring::{guess_cost, is_first_min, partition_costs};

verus! {

/// Guesses the word whose feedback would split the candidates most evenly: the one with the
/// highest entropy of feedback patterns over them.
#[derive(Clone, Debug)]
pub struct EntropyGuesser {
    wordlist: Vec<Word>,
    knowledge: Knowledge,
    invalid_words: Vec<Word>,
}

impl EntropyGuesser {
    /// The words the guesser chooses from.
    pub closed spec fn word_list(&self) -> Seq<Word> {
        self.wordlist@
    }

    /// What feedback has taught so far.
    pub closed spec fn knowledge(&self) -> Knowledge {
        self.knowledge
    }

    /// The words marked invalid so far.
    pub closed spec fn invalid(&self) -> Seq<Word> {
        self.invalid_words@
    }

    /// The words still worth guessing, in list order.
    pub open spec fn candidates(&self) -> Seq<Word> {
        candidates_of(self.word_list(), self.knowledge(), self.invalid())
    }

    /// The words of the list not marked invalid, in list order: those that may be guessed.
    pub open spec fn valid(&self) -> Seq<Word> {
        valid_words(self.word_list(), self.invalid())
    }

    /// A guesser over `wordlist`, with nothing known and no word marked invalid.
    pub fn new(wordlist: Vec<Word>) -> (r: Self)
        ensures
            r.word_list() == wordlist@,
            r.knowledge().is_fresh(),
            r.invalid().len() == 0,
    {
        EntropyGuesser { wordlist, knowledge: Knowledge::new(), invalid_words: Vec::new() }
    }

    /// Number of words in the list.
    pub fn word_count(&self) -> (r: usize)
        ensures
            r == self.word_list().len(),
    {
        self.wordlist.len()
    }

    /// The candidates: the words of the list that are not marked invalid and agree with
    /// what is known, in list order.
    pub fn get_candidates(&self) -> (r: Vec<Word>)
        ensures
            r@ == self.candidates(),
    {
        filter_candidates(&self.wordlist, &self.knowledge, &self.invalid_words)
    }

    /// The next guess; `None` when no candidate is left. With one or two candidates, the
    /// first of them. Otherwise the word of the list, not marked invalid, with the least
    /// partition cost over the candidates (the highest entropy), the first in list order
    /// among equals. `table[c]` stands for `c * log2(c)` in fixed point, for every `c` up to
    /// the number of words; it is read only when more than two candidates are left.
    pub fn make_guess(&self, table: &Vec<u64>) -> (r: Option<Word>)
        requires
            self.candidates().len() <= 2 || table@.len() > self.word_list().len(),
        ensures
            self.candidates().len() == 0 ==> r is None,
            1 <= self.candidates().len() <= 2 ==> r == Some(self.candidates()[0]),
            self.candidates().len() > 2 ==> exists|i: int|
                is_first_min(partition_costs(table@, self.candidates(), self.valid()), i) && r == Some(
                    self.valid()[i],
                ),
    {
        let candidates = self.get_candidates();
        if candidates.len() == 0 {
            return None;
        }
        if candidates.len() <= 2 {
            return Some(candidates[0]);
        }
        let ghost cands = candidates@;
        let ghost valid_pred = |w: Word| !holds_word(self.invalid_words@, w@);
        proof {
            self.wordlist@.lemma_filter_len(|w: Word| crate::candidates::is_candidate(self.knowledge, self.invalid_words@, w));
            lemma_candidate_is_valid(self.wordlist@, self.knowledge, self.invalid_words@, 0);
        }
        let mut best: Word = candidates[0];
        let mut best_cost: u128 = 0;
        let mut found = false;
        let ghost mut best_index: int = 0;
        let mut i: usize = 0;
        while i < self.wordlist.len()
            invariant
                0 <= i <= self.wordlist@.len(),
                cands == candidates@,
                cands == self.candidates(),
                cands.len() <= self.wordlist@.len() < table@.len(),
                valid_pred == (|w: Word| !holds_word(self.invalid_words@, w@)),
                found == (self.wordlist@.subrange(0, i as int).filter(valid_pred).len() > 0),
                found ==> is_first_min(
                    partition_costs(table@, cands, self.wordlist@.subrange(0, i as int).filter(valid_pred)),
                    best_index,
                ),
                found ==> best == self.wordlist@.subrange(0, i as int).filter(valid_pred)[best_index],
                found ==> best_cost == partition_costs(
                    table@,
                    cands,
                    self.wordlist@.subrange(0, i as int).filter(valid_pred),
                )[best_index],
            decreases self.wordlist@.len() - i,
        {
            let w = self.wordlist[i];
            let ghost pre = self.wordlist@.subrange(0, i as int).filter(valid_pred);
            proof {
                assert(self.wordlist@.subrange(0, i as int + 1) =~= self.wordlist@.subrange(0, i as int).push(w));
                self.wordlist@.subrange(0, i as int).lemma_filter_push(w, valid_pred);
            }
            if !contains_word(&self.invalid_words, &w) {
                let cost = guess_cost(&w, &candidates, table);
                let ghost post = pre.push(w);
                proof {
                    assert(partition_costs(table@, cands, post) =~= partition_costs(table@, cands, pre).push(
                        cost as int,
                    ));
                }
                if !found || cost < best_cost {
                    best = w;
                    best_cost = cost;
                    proof {
                        best_index = pre.len() as int;
                    }
                    found = true;
                }
            }
            i += 1;
        }
        proof {
            assert(self.wordlist@.subrange(0, self.wordlist@.len() as int) =~= self.wordlist@);
            assert(valid_pred =~= (|w: Word| !holds_word(self.invalid(), w@)));
            assert(self.valid() == self.wordlist@.filter(valid_pred));
            assert(self.valid().contains(cands[0]));
            assert(found);
            assert(is_first_min(partition_costs(table@, self.candidates(), self.valid()), best_index));
        }
        Some(best)
    }

    /// Takes in the feedback `result` for `guess`.
    pub fn update(&mut self, guess: Word, result: [LetterResult; 5])
        ensures
            final(self).knowledge().is_update_of(old(self).knowledge(), guess@, result@),
            final(self).word_list() == old(self).word_list(),
            final(self).invalid() == old(self).invalid(),
    {
        self.knowledge.update(guess, result);
    }

    /// Marks `word` as rejected by the game: it is neither a candidate nor a guess from now on.
    pub fn mark_invalid(&mut self, word: Word)
        ensures
            final(self).invalid() == old(self).invalid().push(word),
            final(self).knowledge() == old(self).knowledge(),
            final(self).word_list() == old(self).word_list(),
    {
        self.invalid_words.push(word);
    }

    /// Forgets all feedback and all invalid words, for a new puzzle over the same list.
    pub fn reset(&mut self)
        ensures
            final(self).knowledge().is_fresh(),
            final(self).invalid().len() == 0,
            final(self).word_list() == old(self).word_list(),
    {
        self.knowledge = Knowledge::new();
        self.invalid_words = Vec::new();
    }
}

} // verus!
