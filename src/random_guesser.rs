//! The baseline strategy: random words, no feedback.
use vstd::prelude::*;

use rand::rngs::StdRng;

use crate::candidates::{contains_word, holds_word};
use crate::feedback::{LetterResult, Word};
use crate::rng::{fresh_rng, random_below, seeded_rng};

verus! {

/// Guesses words of the list drawn at random without replacement, ignoring feedback.
pub struct RandomGuesser {
    wordlist: Vec<Word>,
    available_indices: Vec<usize>,
    invalid_words: Vec<Word>,
    rng: StdRng,
}

/// The indices `0..n`.
fn all_indices(n: usize) -> (r: Vec<usize>)
    ensures
        r@.len() == n,
        forall|k: int| 0 <= k < n ==> #[trigger] r@[k] == k,
        r@.no_duplicates(),
        r@.to_set() == Set::new(|k: usize| k < n),
{
    let mut r: Vec<usize> = Vec::new();
    let mut i: usize = 0;
    while i < n
        invariant
            0 <= i <= n,
            r@.len() == i,
            forall|k: int| 0 <= k < i ==> r@[k] == k,
        decreases n - i,
    {
        r.push(i);
        i += 1;
    }
    assert forall|k: usize| k < n implies r@.to_set().contains(k) by {
        assert(r@[k as int] == k);
    }
    assert(r@.to_set() =~= Set::new(|k: usize| k < n));
    r
}

proof fn lemma_swap_remove(s: Seq<usize>, i: int)
    requires
        s.no_duplicates(),
        0 <= i < s.len(),
    ensures
        s.update(i, s.last()).drop_last().no_duplicates(),
        s.update(i, s.last()).drop_last().to_set() == s.to_set().remove(s[i]),
{
    let t = s.update(i, s.last()).drop_last();
    let n = s.len() - 1;
    assert forall|a: int, b: int| 0 <= a < t.len() && 0 <= b < t.len() && a != b implies t[a] != t[b] by {
        let aa = if a == i { n } else { a };
        let bb = if b == i { n } else { b };
        assert(t[a] == s[aa]);
        assert(t[b] == s[bb]);
    }
    assert forall|x: usize| t.contains(x) <==> (s.contains(x) && x != s[i]) by {
        if t.contains(x) {
            let a = choose|a: int| 0 <= a < t.len() && t[a] == x;
            let aa = if a == i { n } else { a };
            assert(s[aa] == x);
            assert(aa != i);
        }
        if s.contains(x) && x != s[i] {
            let a = choose|a: int| 0 <= a < s.len() && s[a] == x;
            if a == n {
                assert(t[i] == x);
            } else {
                assert(t[a] == x);
            }
        }
    }
    assert(t.to_set() =~= s.to_set().remove(s[i]));
}

impl RandomGuesser {
    /// The words the guesser chooses from.
    pub closed spec fn word_list(&self) -> Seq<Word> {
        self.wordlist@
    }

    /// The indices of the words not drawn yet.
    pub closed spec fn pool(&self) -> Set<usize> {
        self.available_indices@.to_set()
    }

    /// The words marked invalid so far.
    pub closed spec fn invalid(&self) -> Seq<Word> {
        self.invalid_words@
    }

    /// The pool holds each index once, and only indices of the list.
    pub closed spec fn wf(&self) -> bool {
        &&& self.available_indices@.no_duplicates()
        &&& forall|k: int|
            0 <= k < self.available_indices@.len() ==> #[trigger] self.available_indices@[k]
                < self.wordlist@.len()
    }

    /// A guesser over `wordlist` with every word in the pool, drawing from a generator
    /// seeded by the thread's generator.
    pub fn new(wordlist: Vec<Word>) -> (r: Self)
        ensures
            r.wf(),
            r.word_list() == wordlist@,
            r.pool() == Set::new(|k: usize| k < wordlist@.len()),
            r.invalid().len() == 0,
    {
        let available_indices = all_indices(wordlist.len());
        RandomGuesser { wordlist, available_indices, invalid_words: Vec::new(), rng: fresh_rng() }
    }

    /// As `new`, drawing from a generator seeded with `seed`.
    pub fn with_seed(wordlist: Vec<Word>, seed: u64) -> (r: Self)
        ensures
            r.wf(),
            r.word_list() == wordlist@,
            r.pool() == Set::new(|k: usize| k < wordlist@.len()),
            r.invalid().len() == 0,
    {
        let available_indices = all_indices(wordlist.len());
        RandomGuesser { wordlist, available_indices, invalid_words: Vec::new(), rng: seeded_rng(seed) }
    }

    /// Number of words in the list.
    pub fn word_count(&self) -> (r: usize)
        ensures
            r == self.word_list().len(),
    {
        self.wordlist.len()
    }

    /// Draws indices from the pool at random, each leaving it, until one names a word not
    /// marked invalid, and returns that word; `None` once the pool is empty. Every index that
    /// leaves the pool names an invalid word or the word returned.
    pub fn make_guess(&mut self) -> (r: Option<Word>)
        requires
            old(self).wf(),
        ensures
            final(self).wf(),
            final(self).word_list() == old(self).word_list(),
            final(self).invalid() == old(self).invalid(),
            final(self).pool().subset_of(old(self).pool()),
            forall|k: usize|
                old(self).pool().contains(k) && !final(self).pool().contains(k) ==> holds_word(
                    old(self).invalid(),
                    old(self).word_list()[k as int]@,
                ) || r == Some(old(self).word_list()[k as int]),
            r is None ==> final(self).pool() == Set::<usize>::empty(),
            match r {
                Some(w) => !holds_word(old(self).invalid(), w@) && exists|k: usize|
                    k < old(self).word_list().len() && old(self).pool().contains(k) && !final(self).pool().contains(k) && old(
                        self,
                    ).word_list()[k as int] == w,
                None => true,
            },
    {
        let ghost start = self.available_indices@.to_set();
        while self.available_indices.len() > 0
            invariant
                self.wf(),
                self.wordlist@ == old(self).wordlist@,
                self.invalid_words@ == old(self).invalid_words@,
                self.pool().subset_of(start),
                start == old(self).pool(),
                forall|k: usize|
                    start.contains(k) && !self.pool().contains(k) ==> holds_word(
                        self.invalid_words@,
                        self.wordlist@[k as int]@,
                    ),
            decreases self.available_indices@.len(),
        {
            let idx = random_below(&mut self.rng, self.available_indices.len());
            let ghost before = self.available_indices@;
            proof {
                lemma_swap_remove(before, idx as int);
            }
            let word_idx = self.available_indices.swap_remove(idx);
            let word = self.wordlist[word_idx];
            if !contains_word(&self.invalid_words, &word) {
                proof {
                    assert(before[idx as int] == word_idx);
                    assert(start.contains(word_idx));
                    assert(!self.pool().contains(word_idx));
                }
                return Some(word);
            }
        }
        assert(self.pool() =~= Set::<usize>::empty());
        None
    }

    /// Feedback is ignored.
    pub fn update(&mut self, _guess: Word, _result: [LetterResult; 5])
        ensures
            *final(self) == *old(self),
    {
    }

    /// Marks `word` as rejected by the game: it is not returned from now on.
    pub fn mark_invalid(&mut self, word: Word)
        requires
            old(self).wf(),
        ensures
            final(self).wf(),
            final(self).invalid() == old(self).invalid().push(word),
            final(self).pool() == old(self).pool(),
            final(self).word_list() == old(self).word_list(),
    {
        self.invalid_words.push(word);
    }

    /// Puts every word back in the pool and forgets all invalid words, for a new puzzle over
    /// the same list.
    pub fn reset(&mut self)
        ensures
            final(self).wf(),
            final(self).pool() == Set::new(|k: usize| k < old(self).word_list().len()),
            final(self).invalid().len() == 0,
            final(self).word_list() == old(self).word_list(),
    {
        self.available_indices = all_indices(self.wordlist.len());
        self.invalid_words = Vec::new();
    }
}

} // verus!
