//! The letter-frequency strategy.
use vstd::prelude::*;

use crate::candidates::{candidates_of, filter_candidates};
use crate::feedback::{LetterResult, Word};
use crate::knowledge::Knowledge;
use crate::scoring::{
    heuristic_scores, is_first_max, is_presence_of, letter_presence, lemma_counts_give_score,
    score_from_counts, score_with_counts,
};

verus! {

/// Guesses the candidate whose distinct letters best split the candidates: each letter
/// scores the binary entropy of its presence among them.
#[derive(Clone, Debug)]
pub struct HeuristicGuesser {
    wordlist: Vec<Word>,
    knowledge: Knowledge,
    invalid_words: Vec<Word>,
}

impl HeuristicGuesser {
    /// The words the guesser chooses from.
    pub closed spec fn word_list(&self) -> Seq<Word> {
        self.wordlist@
    }

    /// What feedback has taught so far.
    pub closed spec fn knowledge(&self) -> Knowledge {
        self.knowledge
    }

    /// The words marked invalid so far.
    pub closed spec fn invalid(&self) -> Seq<Word> {
        self.invalid_words@
    }

    /// The words still worth guessing, in list order.
    pub open spec fn candidates(&self) -> Seq<Word> {
        candidates_of(self.word_list(), self.knowledge(), self.invalid())
    }

    /// A guesser over `wordlist`, with nothing known and no word marked invalid.
    pub fn new(wordlist: Vec<Word>) -> (r: Self)
        ensures
            r.word_list() == wordlist@,
            r.knowledge().is_fresh(),
            r.invalid().len() == 0,
    {
        HeuristicGuesser { wordlist, knowledge: Knowledge::new(), invalid_words: Vec::new() }
    }

    /// Number of words in the list.
    pub fn word_count(&self) -> (r: usize)
        ensures
            r == self.word_list().len(),
    {
        self.wordlist.len()
    }

    /// The candidates: the words of the list that are not marked invalid and agree with
    /// what is known, in list order.
    pub fn get_candidates(&self) -> (r: Vec<Word>)
        ensures
            r@ == self.candidates(),
    {
        filter_candidates(&self.wordlist, &self.knowledge, &self.invalid_words)
    }

    /// For each letter that occurs in `candidates`, and for no other, the number of candidates
    /// that hold it (its frequency is that number over the number of candidates); nothing for
    /// no candidates.
    pub fn calculate_letter_frequencies(&self, candidates: &Vec<Word>) -> (r: Vec<(char, usize)>)
        ensures
            is_presence_of(r@, candidates@),
            candidates@.len() == 0 ==> r@.len() == 0,
    {
        letter_presence(candidates)
    }

    /// The score of `word` when `frequencies` gives the number of the `total` candidates that
    /// hold each letter: the sum, over the distinct letters of `word`, of `total` times the
    /// binary entropy of their presence, in the units of `table` (see the scoring module).
    pub fn score_word(&self, word: &Word, frequencies: &Vec<(char, usize)>, total: usize, table: &Vec<u64>) -> (r: i128)
        requires
            total < table@.len(),
            forall|i: int, j: int|
                0 <= i < frequencies@.len() && 0 <= j < frequencies@.len() && i != j ==> #[trigger] frequencies@[i].0
                    != #[trigger] frequencies@[j].0,
            forall|i: int| 0 <= i < frequencies@.len() ==> #[trigger] frequencies@[i].1 <= total,
        ensures
            r == score_from_counts(table@, frequencies@, total as int, word@),
    {
        score_with_counts(word, frequencies, total, table)
    }

    /// The candidate with the largest letter-frequency score, the first in list order among
    /// equals; `None` when no candidate is left. `table[c]` stands for `c * log2(c)` in fixed
    /// point, for every `c` up to the number of words.
    pub fn make_guess(&self, table: &Vec<u64>) -> (r: Option<Word>)
        requires
            table@.len() > self.word_list().len(),
        ensures
            self.candidates().len() == 0 ==> r is None,
            self.candidates().len() > 0 ==> exists|i: int|
                is_first_max(heuristic_scores(table@, self.candidates()), i) && r == Some(
                    self.candidates()[i],
                ),
    {
        let candidates = self.get_candidates();
        if candidates.len() == 0 {
            return None;
        }
        let frequencies = letter_presence(&candidates);
        let total = candidates.len();
        let ghost cands = candidates@;
        let ghost scores = heuristic_scores(table@, cands);
        proof {
            self.wordlist@.lemma_filter_len(|w: Word| crate::candidates::is_candidate(self.knowledge, self.invalid_words@, w));
            assert forall|i: int| 0 <= i < frequencies@.len() implies #[trigger] frequencies@[i].1 <= total by {
                cands.lemma_filter_len(|w: Word| w@.contains(frequencies@[i].0));
            }
            lemma_counts_give_score(table@, frequencies@, cands, cands[0]@);
        }
        let mut best: usize = 0;
        let mut best_score = score_with_counts(&candidates[0], &frequencies, total, table);
        let mut i: usize = 1;
        while i < candidates.len()
            invariant
                1 <= i <= cands.len(),
                cands == candidates@,
                total == cands.len(),
                total < table@.len(),
                is_presence_of(frequencies@, cands),
                forall|k: int| 0 <= k < frequencies@.len() ==> #[trigger] frequencies@[k].1 <= total,
                scores == heuristic_scores(table@, cands),
                0 <= best < i,
                best_score == scores[best as int],
                forall|j: int| 0 <= j < i ==> scores[j] <= best_score,
                forall|j: int| 0 <= j < best ==> scores[j] < best_score,
            decreases cands.len() - i,
        {
            let s = score_with_counts(&candidates[i], &frequencies, total, table);
            proof {
                lemma_counts_give_score(table@, frequencies@, cands, cands[i as int]@);
            }
            if s > best_score {
                best = i;
                best_score = s;
            }
            i += 1;
        }
        assert(is_first_max(scores, best as int));
        Some(candidates[best])
    }

    /// Takes in the feedback `result` for `guess`.
    pub fn update(&mut self, guess: Word, result: [LetterResult; 5])
        ensures
            final(self).knowledge().is_update_of(old(self).knowledge(), guess@, result@),
            final(self).word_list() == old(self).word_list(),
            final(self).invalid() == old(self).invalid(),
    {
        self.knowledge.update(guess, result);
    }

    /// Marks `word` as rejected by the game: it is no candidate from now on.
    pub fn mark_invalid(&mut self, word: Word)
        ensures
            final(self).invalid() == old(self).invalid().push(word),
            final(self).knowledge() == old(self).knowledge(),
            final(self).word_list() == old(self).word_list(),
    {
        self.invalid_words.push(word);
    }

    /// Forgets all feedback and all invalid words, for a new puzzle over the same list.
    pub fn reset(&mut self)
        ensures
            final(self).knowledge().is_fresh(),
            final(self).invalid().len() == 0,
            final(self).word_list() == old(self).word_list(),
    {
        self.knowledge = Knowledge::new();
        self.invalid_words = Vec::new();
    }
}

} // verus!
