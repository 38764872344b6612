//! The four strategies behind one type.
use vstd::prelude::*;

use crate::candidates::{
    candidates_of, holds_word, is_candidate, lemma_candidate_holds, lemma_candidate_in_list,
    lemma_fresh_candidates, lemma_mark_shrinks_valid, lemma_valid_holds, lemma_valid_in_list,
    valid_words,
};
use crate::game::{Game, GuessResult};
use crate::scoring::{heuristic_scores, is_first_max, is_first_min, partition_costs};
use crate::entropy_guesser::EntropyGuesser;
use crate::feedback::{LetterResult, Word};
use crate::heuristic_guesser::HeuristicGuesser;
use crate::knowledge::Knowledge;
use crate::random_guesser::RandomGuesser;
use crate::random_with_updates::RandomWithUpdates;

verus! {

/// The kinds of strategy.
#[derive(Clone, Copy, PartialEq, Eq, Hash, Debug, Structural)]
pub enum AIType {
    /// Random words, without replacement, ignoring feedback.
    Random,
    /// Random candidates, narrowed by feedback.
    RandomUpdates,
    /// The candidate with the best letter-frequency score.
    Heuristic,
    /// The word with the highest entropy of feedback patterns.
    Entropy,
}

impl AIType {
    /// The name shown for this kind of strategy.
    pub fn name(&self) -> (r: &'static str)
        ensures
            r@ == match *self {
                AIType::Random => "Random Guesser"@,
                AIType::RandomUpdates => "Random with Updates"@,
                AIType::Heuristic => "Heuristic Guesser"@,
                AIType::Entropy => "Entropy Guesser"@,
            },
    {
        proof {
            reveal_strlit("Random Guesser");
            reveal_strlit("Random with Updates");
            reveal_strlit("Heuristic Guesser");
            reveal_strlit("Entropy Guesser");
        }
        match self {
            AIType::Random => "Random Guesser",
            AIType::RandomUpdates => "Random with Updates",
            AIType::Heuristic => "Heuristic Guesser",
            AIType::Entropy => "Entropy Guesser",
        }
    }
}

/// When every word of the list is marked invalid, no candidate is left.
pub proof fn lemma_all_invalid_no_candidates(wordlist: Seq<Word>, knowledge: Knowledge, invalid: Seq<Word>)
    requires
        forall|k: int| 0 <= k < wordlist.len() ==> holds_word(invalid, #[trigger] wordlist[k]@),
    ensures
        candidates_of(wordlist, knowledge, invalid).len() == 0,
{
    let pred = |w: Word| is_candidate(knowledge, invalid, w);
    let c = wordlist.filter(pred);
    if c.len() > 0 {
        wordlist.lemma_filter_pred(pred, 0);
        assert(c.contains(c[0]));
        wordlist.lemma_filter_contains_rev(pred, c[0]);
        let k = choose|k: int| 0 <= k < wordlist.len() && wordlist[k] == c[0];
        assert(holds_word(invalid, wordlist[k]@));
    }
}

/// A reset strategy offers what a new one of the same kind over the same list offers: two
/// strategies as new, of one kind and over one list, have the same words to offer.
pub proof fn lemma_reset_as_new(a: WordleAI, b: WordleAI)
    requires
        a.is_fresh(),
        b.is_fresh(),
        a.kind() == b.kind(),
        a.word_list() == b.word_list(),
    ensures
        a.universe() == b.universe(),
{
    match (a, b) {
        (WordleAI::Random(x), WordleAI::Random(y)) => {
            assert(x.pool() == y.pool());
            assert(a.universe() =~= b.universe());
        },
        (WordleAI::RandomUpdates(x), WordleAI::RandomUpdates(y)) => {
            lemma_fresh_candidates(x.word_list(), x.knowledge(), x.invalid());
            lemma_fresh_candidates(y.word_list(), y.knowledge(), y.invalid());
        },
        (WordleAI::Heuristic(x), WordleAI::Heuristic(y)) => {
            lemma_fresh_candidates(x.word_list(), x.knowledge(), x.invalid());
            lemma_fresh_candidates(y.word_list(), y.knowledge(), y.invalid());
        },
        (WordleAI::Entropy(x), WordleAI::Entropy(y)) => {
            lemma_fresh_candidates(x.word_list(), x.knowledge(), x.invalid());
            lemma_fresh_candidates(y.word_list(), y.knowledge(), y.invalid());
        },
        _ => {},
    }
}

/// A reset scoring strategy guesses what a new one of the same kind over the same list
/// guesses: two such strategies as new owe the same guess for the same table.
pub proof fn lemma_reset_guesses_as_new(a: WordleAI, b: WordleAI, ra: Option<Word>, rb: Option<Word>, table: Seq<u64>)
    requires
        a.is_fresh(),
        b.is_fresh(),
        a.kind() == b.kind(),
        a.kind() == AIType::Heuristic || a.kind() == AIType::Entropy,
        a.word_list() == b.word_list(),
        ra is None <==> a.universe() == Set::<Word>::empty(),
        rb is None <==> b.universe() == Set::<Word>::empty(),
        a.is_guess_of(ra, table),
        b.is_guess_of(rb, table),
    ensures
        ra == rb,
{
    lemma_reset_as_new(a, b);
    match (a, b) {
        (WordleAI::Heuristic(x), WordleAI::Heuristic(y)) => {
            lemma_fresh_candidates(x.word_list(), x.knowledge(), x.invalid());
            lemma_fresh_candidates(y.word_list(), y.knowledge(), y.invalid());
            lemma_empty_to_set(x.candidates());
            assert(x.candidates() == y.candidates());
            if x.candidates().len() > 0 {
                let s = heuristic_scores(table, x.candidates());
                let i = choose|i: int| is_first_max(s, i) && ra == Some(x.candidates()[i]);
                let j = choose|j: int| is_first_max(s, j) && rb == Some(y.candidates()[j]);
                if i < j {
                    assert(s[i] < s[j]);
                } else if j < i {
                    assert(s[j] < s[i]);
                }
            }
        },
        (WordleAI::Entropy(x), WordleAI::Entropy(y)) => {
            lemma_fresh_candidates(x.word_list(), x.knowledge(), x.invalid());
            lemma_fresh_candidates(y.word_list(), y.knowledge(), y.invalid());
            lemma_empty_to_set(x.candidates());
            assert(x.invalid() =~= y.invalid());
            assert(x.valid() == y.valid());
            assert(x.candidates() == y.candidates());
            if x.candidates().len() > 2 {
                let s = partition_costs(table, x.candidates(), x.valid());
                let i = choose|i: int| is_first_min(s, i) && ra == Some(x.valid()[i]);
                let j = choose|j: int| is_first_min(s, j) && rb == Some(y.valid()[j]);
                if i < j {
                    assert(s[j] < s[i]);
                } else if j < i {
                    assert(s[i] < s[j]);
                }
            }
        },
        _ => {},
    }
}

/// A sequence has no element exactly when it is empty.
proof fn lemma_empty_to_set(s: Seq<Word>)
    ensures
        (s.to_set() == Set::<Word>::empty()) <==> s.len() == 0,
{
    if s.len() > 0 {
        assert(s.to_set().contains(s[0]));
    } else {
        assert(s.to_set() =~= Set::<Word>::empty());
    }
}

/// One of the four strategies.
pub enum WordleAI {
    /// Random words, without replacement, ignoring feedback.
    Random(RandomGuesser),
    /// Random candidates, narrowed by feedback.
    RandomUpdates(RandomWithUpdates),
    /// The candidate with the best letter-frequency score.
    Heuristic(HeuristicGuesser),
    /// The word with the highest entropy of feedback patterns.
    Entropy(EntropyGuesser),
}

impl WordleAI {
    /// The words the strategy chooses from.
    pub open spec fn word_list(&self) -> Seq<Word> {
        match self {
            WordleAI::Random(g) => g.word_list(),
            WordleAI::RandomUpdates(g) => g.word_list(),
            WordleAI::Heuristic(g) => g.word_list(),
            WordleAI::Entropy(g) => g.word_list(),
        }
    }

    /// The words marked invalid so far.
    pub open spec fn invalid(&self) -> Seq<Word> {
        match self {
            WordleAI::Random(g) => g.invalid(),
            WordleAI::RandomUpdates(g) => g.invalid(),
            WordleAI::Heuristic(g) => g.invalid(),
            WordleAI::Entropy(g) => g.invalid(),
        }
    }

    /// Whether the strategy is as a new one over its list: nothing learned, nothing marked
    /// invalid, and (for the plain random strategy) every word back in the pool.
    pub open spec fn is_fresh(&self) -> bool {
        match self {
            WordleAI::Random(g) => g.pool() == Set::new(|k: usize| k < g.word_list().len()) && g.invalid().len()
                == 0,
            WordleAI::RandomUpdates(g) => g.knowledge().is_fresh() && g.invalid().len() == 0,
            WordleAI::Heuristic(g) => g.knowledge().is_fresh() && g.invalid().len() == 0,
            WordleAI::Entropy(g) => g.knowledge().is_fresh() && g.invalid().len() == 0,
        }
    }

    /// The words the strategy may still offer: the valid words of the pool for the plain
    /// random strategy, the candidates for the others.
    pub open spec fn universe(&self) -> Set<Word> {
        match self {
            WordleAI::Random(g) => Set::new(
                |w: Word|
                    exists|k: usize|
                        g.pool().contains(k) && k < g.word_list().len() && g.word_list()[k as int] == w
                            && !holds_word(g.invalid(), w@),
            ),
            WordleAI::RandomUpdates(g) => g.candidates().to_set(),
            WordleAI::Heuristic(g) => g.candidates().to_set(),
            WordleAI::Entropy(g) => g.candidates().to_set(),
        }
    }

    /// What feedback has taught the strategy; nothing for the plain random strategy, which
    /// ignores feedback.
    pub open spec fn knowledge_of(&self) -> Option<Knowledge> {
        match self {
            WordleAI::Random(_) => None,
            WordleAI::RandomUpdates(g) => Some(g.knowledge()),
            WordleAI::Heuristic(g) => Some(g.knowledge()),
            WordleAI::Entropy(g) => Some(g.knowledge()),
        }
    }

    /// Whether `r` is a guess that the strategy in this state may give, reading `table`: a
    /// valid word of the pool for the plain random strategy; a candidate for the random one
    /// with feedback; the first candidate of largest letter-frequency score for the heuristic
    /// one; for the entropy one the first candidate when one or two are left, else the first
    /// valid word of least partition cost. `None` is covered by `make_guess` itself.
    pub open spec fn is_guess_of(&self, r: Option<Word>, table: Seq<u64>) -> bool {
        match self {
            WordleAI::Random(_) => match r {
                Some(w) => self.universe().contains(w),
                None => true,
            },
            WordleAI::RandomUpdates(g) => match r {
                Some(w) => g.candidates().contains(w),
                None => true,
            },
            WordleAI::Heuristic(g) => g.candidates().len() > 0 ==> exists|i: int|
                is_first_max(heuristic_scores(table, g.candidates()), i) && r == Some(g.candidates()[i]),
            WordleAI::Entropy(g) => {
                &&& 1 <= g.candidates().len() <= 2 ==> r == Some(g.candidates()[0])
                &&& g.candidates().len() > 2 ==> exists|i: int|
                    is_first_min(partition_costs(table, g.candidates(), g.valid()), i) && r == Some(
                        g.valid()[i],
                    )
            },
        }
    }

    /// Whether the strategy's own invariant holds.
    pub open spec fn wf(&self) -> bool {
        match self {
            WordleAI::Random(g) => g.wf(),
            _ => true,
        }
    }

    /// The kind of this strategy.
    pub open spec fn kind(&self) -> AIType {
        match self {
            WordleAI::Random(_) => AIType::Random,
            WordleAI::RandomUpdates(_) => AIType::RandomUpdates,
            WordleAI::Heuristic(_) => AIType::Heuristic,
            WordleAI::Entropy(_) => AIType::Entropy,
        }
    }

    /// The kind of this strategy.
    pub fn ai_type(&self) -> (r: AIType)
        ensures
            r == self.kind(),
    {
        match self {

            WordleAI::Random(_) => AIType::Random,
            WordleAI::RandomUpdates(_) => AIType::RandomUpdates,
            WordleAI::Heuristic(_) => AIType::Heuristic,
            WordleAI::Entropy(_) => AIType::Entropy,
        }
    }

    /// Number of words in the list.
    pub fn word_count(&self) -> (r: usize)
        ensures
            r == self.word_list().len(),
    {
        match self {
            WordleAI::Random(g) => g.word_count(),
            WordleAI::RandomUpdates(g) => g.word_count(),
            WordleAI::Heuristic(g) => g.word_count(),
            WordleAI::Entropy(g) => g.word_count(),
        }
    }

    /// The next guess of the strategy (see each one's `make_guess`); `None` when it has none
    /// left, which is always so once every word of the list is marked invalid. The scoring
    /// strategies read `table` (see the scoring module); the random ones ignore it.
    pub fn make_guess(&mut self, table: &Vec<u64>) -> (r: Option<Word>)
        requires
            old(self).wf(),
            table@.len() > old(self).word_list().len(),
        ensures
            final(self).wf(),
            final(self).kind() == old(self).kind(),
            final(self).word_list() == old(self).word_list(),
            final(self).invalid() == old(self).invalid(),
            final(self).knowledge_of() == old(self).knowledge_of(),
            r is None <==> old(self).universe() == Set::<Word>::empty(),
            old(self).is_guess_of(r, table@),
            (forall|k: int|
                0 <= k < old(self).word_list().len() ==> holds_word(
                    old(self).invalid(),
                    #[trigger] old(self).word_list()[k]@,
                )) ==> r is None,
            match r {
                Some(w) => !holds_word(old(self).invalid(), w@) && old(self).word_list().contains(w),
                None => true,
            },
    {
        match self {
            WordleAI::Random(g) => {
                let ghost before = *g;
                let r = g.make_guess();
                proof {
                    if r is Some {
                        let k = choose|k: usize|
                            k < before.word_list().len() && before.pool().contains(k) && !g.pool().contains(k)
                                && before.word_list()[k as int] == r->0;
                        assert(before.word_list()[k as int]@ == (r->0)@);
                        assert(before.word_list()[k as int] == r->0);
                        assert(old(self).universe().contains(r->0));
                    } else {
                        assert forall|w: Word| !old(self).universe().contains(w) by {
                            if old(self).universe().contains(w) {
                                let k = choose|k: usize|
                                    before.pool().contains(k) && k < before.word_list().len()
                                        && before.word_list()[k as int] == w && !holds_word(before.invalid(), w@);
                                assert(!g.pool().contains(k));
                            }
                        }
                        assert(old(self).universe() =~= Set::<Word>::empty());
                    }
                }
                r
            },
            WordleAI::RandomUpdates(g) => {
                let ghost before = *g;
                let r = g.make_guess();
                proof {
                    if forall|k: int|
                        0 <= k < before.word_list().len() ==> holds_word(
                            before.invalid(),
                            #[trigger] before.word_list()[k]@,
                        ) {
                        lemma_all_invalid_no_candidates(before.word_list(), before.knowledge(), before.invalid());
                    }
                    if r is Some {
                        let i = choose|i: int|
                            0 <= i < before.candidates().len() && r == Some(before.candidates()[i]);
                        lemma_candidate_holds(before.word_list(), before.knowledge(), before.invalid(), i);
                        lemma_candidate_in_list(before.word_list(), before.knowledge(), before.invalid(), i);
                        assert(before.candidates().contains(r->0));
                    }
                    lemma_empty_to_set(before.candidates());
                }
                r
            },
            WordleAI::Heuristic(g) => {
                let r = g.make_guess(table);
                proof {
                    if forall|k: int|
                        0 <= k < g.word_list().len() ==> holds_word(g.invalid(), #[trigger] g.word_list()[k]@) {
                        lemma_all_invalid_no_candidates(g.word_list(), g.knowledge(), g.invalid());
                    }
                    if r is Some {
                        let i = choose|i: int|
                            is_first_max(heuristic_scores(table@, g.candidates()), i) && r == Some(
                                g.candidates()[i],
                            );
                        lemma_candidate_holds(g.word_list(), g.knowledge(), g.invalid(), i);
                        lemma_candidate_in_list(g.word_list(), g.knowledge(), g.invalid(), i);
                    }
                    lemma_empty_to_set(g.candidates());
                }
                r
            },
            WordleAI::Entropy(g) => {
                let r = g.make_guess(table);
                proof {
                    if forall|k: int|
                        0 <= k < g.word_list().len() ==> holds_word(g.invalid(), #[trigger] g.word_list()[k]@) {
                        lemma_all_invalid_no_candidates(g.word_list(), g.knowledge(), g.invalid());
                    }
                    if r is Some {
                        if g.candidates().len() <= 2 {
                            lemma_candidate_holds(g.word_list(), g.knowledge(), g.invalid(), 0);
                            lemma_candidate_in_list(g.word_list(), g.knowledge(), g.invalid(), 0);
                        } else {
                            let i = choose|i: int|
                                is_first_min(partition_costs(table@, g.candidates(), g.valid()), i) && r
                                    == Some(g.valid()[i]);
                            lemma_valid_holds(g.word_list(), g.invalid(), i);
                            lemma_valid_in_list(g.word_list(), g.invalid(), i);
                        }
                    }
                    lemma_empty_to_set(g.candidates());
                }
                r
            },
        }
    }

    /// Takes in the feedback `result` for `guess` (the plain random strategy ignores it).
    pub fn update(&mut self, guess: Word, result: [LetterResult; 5])
        requires
            old(self).wf(),
        ensures
            final(self).wf(),
            final(self).kind() == old(self).kind(),
            old(self).kind() == AIType::Random ==> *final(self) == *old(self),
            old(self).kind() != AIType::Random ==> final(self).knowledge_of()->0.is_update_of(
                old(self).knowledge_of()->0,
                guess@,
                result@,
            ),
            final(self).word_list() == old(self).word_list(),
            final(self).invalid() == old(self).invalid(),
    {
        match self {
            WordleAI::Random(g) => g.update(guess, result),
            WordleAI::RandomUpdates(g) => g.update(guess, result),
            WordleAI::Heuristic(g) => g.update(guess, result),
            WordleAI::Entropy(g) => g.update(guess, result),
        }
    }

    /// Marks `word` as rejected by the game.
    pub fn mark_invalid(&mut self, word: Word)
        requires
            old(self).wf(),
        ensures
            final(self).wf(),
            final(self).word_list() == old(self).word_list(),
            final(self).invalid() == old(self).invalid().push(word),
    {
        match self {
            WordleAI::Random(g) => g.mark_invalid(word),
            WordleAI::RandomUpdates(g) => g.mark_invalid(word),
            WordleAI::Heuristic(g) => g.mark_invalid(word),
            WordleAI::Entropy(g) => g.mark_invalid(word),
        }
    }

    /// Returns to the state of a new strategy over the same list.
    pub fn reset(&mut self)
        ensures
            final(self).wf(),
            final(self).is_fresh(),
            final(self).kind() == old(self).kind(),
            final(self).word_list() == old(self).word_list(),
            final(self).invalid().len() == 0,
    {
        match self {
            WordleAI::Random(g) => g.reset(),
            WordleAI::RandomUpdates(g) => g.reset(),
            WordleAI::Heuristic(g) => g.reset(),
            WordleAI::Entropy(g) => g.reset(),
        }
    }
}

/// A new strategy of the kind `ai_type` over `wordlist`.
pub fn create_ai(ai_type: AIType, wordlist: Vec<Word>) -> (r: WordleAI)
    ensures
        r.wf(),
        r.is_fresh(),
        r.kind() == ai_type,
        r.word_list() == wordlist@,
        r.invalid().len() == 0,
{
    match ai_type {
        AIType::Random => WordleAI::Random(RandomGuesser::new(wordlist)),
        AIType::RandomUpdates => WordleAI::RandomUpdates(RandomWithUpdates::new(wordlist)),
        AIType::Heuristic => WordleAI::Heuristic(HeuristicGuesser::new(wordlist)),
        AIType::Entropy => WordleAI::Entropy(EntropyGuesser::new(wordlist)),
    }
}

/// Plays `game` with `ai` until the game is won, lost, or the strategy has no guess left,
/// marking refused guesses invalid and feeding back the others. Returns the number of
/// guesses made (refused ones included) when the game was won.
pub fn simulate_game(ai: &mut WordleAI, game: &Game, table: &Vec<u64>) -> (r: Option<usize>)
    requires
        old(ai).wf(),
        table@.len() > old(ai).word_list().len(),
        game.attempts_spec() == 0,
        game.max_attempts_spec() + old(ai).word_list().len() < usize::MAX,
    ensures
        final(ai).wf(),
        final(ai).word_list() == old(ai).word_list(),
        match r {
            Some(n) => 1 <= n <= game.max_attempts_spec() + 1 + old(ai).word_list().len(),
            None => true,
        },
{
    let ghost max = game.max_attempts_spec();
    let mut session = game.clone_game();
    let ghost wl = ai.word_list();
    let ghost start_valid = valid_words(wl, ai.invalid()).len();
    let mut num_guesses: usize = 0;
    loop
        invariant
            ai.wf(),
            ai.word_list() == wl,
            wl == old(ai).word_list(),
            table@.len() > wl.len(),
            session.attempts_spec() <= session.max_attempts_spec(),
            session.max_attempts_spec() == max,
            max == game.max_attempts_spec(),
            session.max_attempts_spec() + wl.len() < usize::MAX,
            valid_words(wl, ai.invalid()).len() <= start_valid <= wl.len(),
            num_guesses <= session.attempts_spec() + (start_valid - valid_words(wl, ai.invalid()).len()),
        decreases session.max_attempts_spec() - session.attempts_spec(), valid_words(wl, ai.invalid()).len(),
    {
        let guess = match ai.make_guess(table) {
            Some(g) => g,
            None => {
                return None;
            },
        };
        let ghost invalid_before = ai.invalid();
        num_guesses += 1;
        match session.take_guess(&guess) {
            Ok(GuessResult::Won(_)) => {
                return Some(num_guesses);
            },
            Ok(GuessResult::Lost { .. }) => {
                return None;
            },
            Ok(GuessResult::Continue(result)) => {
                ai.update(guess, result);
            },
            Err(_) => {
                ai.mark_invalid(guess);
                proof {
                    lemma_mark_shrinks_valid(wl, invalid_before, guess);
                }
            },
        }
    }
}

} // verus!
