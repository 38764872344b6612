//! What feedback has taught about the secret word.
use vstd::prelude::*;

use crate::feedback::{
    lemma_score_facts, score,
    is_positive, lemma_positive_count_bound, lemma_positive_count_has_witness,
    lemma_positive_count_witness, positive_count, positive_count_upto, seen_positive, LetterResult,
    Word,
};
use crate::letters::{letter_count, lowercase_letters, LetterCounts, LetterSet};

verus! {

/// The letters that an Absent among the first `i` positions excludes from the whole word:
/// those with no positive feedback anywhere in the guess.
pub open spec fn excluded_before(guess: Seq<char>, result: Seq<LetterResult>, i: int) -> Set<char> {
    Set::new(
        |c: char|
            exists|q: int|
                0 <= q < i && result[q] == LetterResult::Absent && guess[q] == c && positive_count(
                    guess,
                    result,
                    c,
                ) == 0,
    )
}

/// The letters still possible at position `p` once the first `i` positions of the feedback
/// are taken in, from `old` (the letters possible before) and `fixed` (whether `p` was pinned).
pub open spec fn letters_after(
    old: Set<char>,
    fixed: bool,
    p: int,
    guess: Seq<char>,
    result: Seq<LetterResult>,
    i: int,
) -> Set<char> {
    if p < i && result[p] == LetterResult::Correct {
        old.intersect(set![guess[p]])
    } else {
        let s = if fixed {
            old
        } else {
            old.difference(excluded_before(guess, result, i))
        };
        if p < i && (result[p] == LetterResult::Misplaced || positive_count(guess, result, guess[p]) > 0) {
            s.remove(guess[p])
        } else {
            s
        }
    }
}

/// The letters possible at position `p` after the whole feedback is taken in.
pub open spec fn narrowed(old: Set<char>, fixed: bool, p: int, guess: Seq<char>, result: Seq<LetterResult>) -> Set<char> {
    letters_after(old, fixed, p, guess, result, 5)
}

/// The minimum counts after the feedback: each letter with positive feedback is raised to
/// the number of its positive positions in this guess, if that is more.
pub open spec fn raised(old: Map<char, u8>, guess: Seq<char>, result: Seq<LetterResult>) -> Map<char, u8> {
    Map::new(
        |c: char| old.contains_key(c) || positive_count(guess, result, c) > 0,
        |c: char|
            if positive_count(guess, result, c) > 0 && (!old.contains_key(c) || old[c]
                < positive_count(guess, result, c)) {
                positive_count(guess, result, c) as u8
            } else {
                old[c]
            },
    )
}

/// The minimum counts once the positions below `n` have been walked: a letter seen there with
/// positive feedback is raised to its positive count over the whole guess.
pub open spec fn raised_upto(old: Map<char, u8>, guess: Seq<char>, result: Seq<LetterResult>, n: int) -> Map<char, u8> {
    Map::new(
        |c: char| old.contains_key(c) || seen_positive(guess, result, c, n),
        |c: char|
            if seen_positive(guess, result, c, n) && (!old.contains_key(c) || old[c]
                < positive_count(guess, result, c)) {
                positive_count(guess, result, c) as u8
            } else {
                old[c]
            },
    )
}

/// Counts the positions where `guess` holds `c` and the feedback is Correct or Misplaced.
fn count_positive(guess: &Word, result: &[LetterResult; 5], c: char) -> (r: u8)
    ensures
        r == positive_count(guess@, result@, c),
        r <= 5,
{
    let mut n: u8 = 0;
    let mut i: usize = 0;
    while i < 5
        invariant
            0 <= i <= 5,
            n == positive_count_upto(guess@, result@, c, i as int),
            n <= i,
        decreases 5 - i,
    {
        if guess[i] == c && (result[i] == LetterResult::Correct || result[i] == LetterResult::Misplaced) {
            n += 1;
        }
        i += 1;
    }
    n
}

/// Taking in feedback never widens what is known: at every position the possible letters
/// are a subset of those before, so their number does not grow; no minimum count decreases
/// or disappears; and a word that agrees with what is known after agreed before.
pub proof fn lemma_update_narrows(
    before: Knowledge,
    after: Knowledge,
    guess: Word,
    result: [LetterResult; 5],
)
    requires
        after.is_update_of(before, guess@, result@),
    ensures
        forall|p: int|
            0 <= p < 5 ==> #[trigger] after.possible_letters[p]@.subset_of(before.possible_letters[p]@),
        forall|p: int|
            0 <= p < 5 ==> #[trigger] after.possible_letters[p]@.len() <= before.possible_letters[p]@.len(),
        forall|w: Seq<char>| #[trigger] after.admits(w) ==> before.admits(w),
        forall|c: char|
            #[trigger] before.must_contain@.contains_key(c) ==> after.must_contain@.contains_key(c)
                && after.must_contain@[c] >= before.must_contain@[c],
{
    assert forall|c: char| #[trigger] before.must_contain@.contains_key(c) implies after.must_contain@.contains_key(c)
        && after.must_contain@[c] >= before.must_contain@[c] by {
        lemma_positive_count_bound(guess@, result@, c, 5);
    }
    assert forall|p: int| 0 <= p < 5 implies #[trigger] after.possible_letters[p]@.subset_of(
        before.possible_letters[p]@,
    ) && after.possible_letters[p]@.len() <= before.possible_letters[p]@.len() by {
        let old = before.possible_letters[p]@;
        before.possible_letters[p].lemma_finite();
        let new = after.possible_letters[p]@;
        assert(new == narrowed(old, before.fixed_positions[p], p, guess@, result@));
        assert(new.subset_of(old));
        vstd::set_lib::lemma_len_subset(new, old);
    }
    assert forall|p: int| 0 <= p < 5 implies #[trigger] after.possible_letters[p]@.len()
        <= before.possible_letters[p]@.len() by {
        assert(after.possible_letters[p]@.subset_of(before.possible_letters[p]@));
    }
    assert forall|w: Seq<char>| #[trigger] after.admits(w) implies before.admits(w) by {
        assert forall|p: int| 0 <= p < 5 implies before.possible_letters[p]@.contains(#[trigger] w[p]) by {
            assert(after.possible_letters[p]@.contains(w[p]));
            assert(after.possible_letters[p]@.subset_of(before.possible_letters[p]@));
        }
        assert forall|c: char| before.must_contain@.contains_key(c) implies letter_count(w, c)
            >= before.must_contain@[c] by {
            lemma_positive_count_bound(guess@, result@, c, 5);
            assert(after.must_contain@.contains_key(c));
        }
    }
}

/// Feedback that the secret itself gave keeps the secret possible: if the secret agreed with
/// what was known before, it agrees with what is known after taking in the score of any guess
/// against it.
pub proof fn lemma_true_feedback_keeps_secret(
    before: Knowledge,
    after: Knowledge,
    secret: Word,
    guess: Word,
)
    requires
        before.admits(secret@),
        after.is_update_of(before, guess@, score(secret@, guess@)),
    ensures
        after.admits(secret@),
{
    let s = secret@;
    let g = guess@;
    let r = score(s, g);
    lemma_score_facts(secret, guess);
    assert forall|p: int| 0 <= p < 5 implies after.possible_letters[p]@.contains(#[trigger] s[p]) by {
        assert(after.possible_letters[p]@ == narrowed(
            before.possible_letters[p]@,
            before.fixed_positions[p],
            p,
            g,
            r,
        ));
        assert(before.possible_letters[p]@.contains(s[p]));
        if r[p] != LetterResult::Correct {
            assert(!excluded_before(g, r, 5).contains(s[p])) by {
                if excluded_before(g, r, 5).contains(s[p]) {
                    let q = choose|q: int|
                        0 <= q < 5 && r[q] == LetterResult::Absent && g[q] == s[p] && positive_count(g, r, s[p]) == 0;
                    assert(positive_count(g, r, g[q]) > 0);
                }
            }
        }
    }
    assert forall|c: char| after.must_contain@.contains_key(c) implies letter_count(s, c)
        >= after.must_contain@[c] by {
        lemma_positive_count_bound(g, r, c, 5);
    }
}

/// Constraints on the secret word, accumulated from feedback.
#[derive(Clone, Debug)]
pub struct Knowledge {
    /// For each position, the letters still possible there.
    pub possible_letters: [LetterSet; 5],
    /// Letters that the word holds at least this many times.
    pub must_contain: LetterCounts,
    /// Positions pinned by a Correct letter.
    pub fixed_positions: [bool; 5],
}

impl Knowledge {
    /// Whether the word `w` agrees with these constraints.
    pub open spec fn admits(&self, w: Seq<char>) -> bool {
        &&& forall|p: int| 0 <= p < 5 ==> self.possible_letters[p]@.contains(#[trigger] w[p])
        &&& forall|c: char|
            self.must_contain@.contains_key(c) ==> letter_count(w, c) >= self.must_contain@[c]
    }

    /// Whether nothing is known yet: every lowercase letter possible everywhere, no minimum
    /// count, no pinned position.
    pub open spec fn is_fresh(&self) -> bool {
        &&& forall|p: int| 0 <= p < 5 ==> #[trigger] self.possible_letters[p]@ == lowercase_letters()
        &&& self.must_contain@ == Map::<char, u8>::empty()
        &&& forall|p: int| 0 <= p < 5 ==> !#[trigger] self.fixed_positions[p]
    }

    /// Whether `self` is what `before` becomes when the feedback `result` for `guess` is
    /// taken in.
    pub open spec fn is_update_of(
        &self,
        before: Knowledge,
        guess: Seq<char>,
        result: Seq<LetterResult>,
    ) -> bool {
        &&& forall|p: int|
            0 <= p < 5 ==> #[trigger] self.possible_letters[p]@ == narrowed(
                before.possible_letters[p]@,
                before.fixed_positions[p],
                p,
                guess,
                result,
            )
        &&& forall|p: int|
            0 <= p < 5 ==> #[trigger] self.fixed_positions[p] == (before.fixed_positions[p]
                || result[p] == LetterResult::Correct)
        &&& self.must_contain@ == raised(before.must_contain@, guess, result)
    }

    /// Nothing known yet: every lowercase letter is possible everywhere.
    pub fn new() -> (r: Self)
        ensures
            r.is_fresh(),
    {
        Knowledge {
            possible_letters: [
                LetterSet::lowercase(),
                LetterSet::lowercase(),
                LetterSet::lowercase(),
                LetterSet::lowercase(),
                LetterSet::lowercase(),
            ],
            must_contain: LetterCounts::new(),
            fixed_positions: [false, false, false, false, false],
        }
    }

    /// Takes in the feedback `result` that `guess` received. A Correct letter pins its
    /// position; a Misplaced letter is ruled out at its position; an Absent letter is ruled
    /// out at every position that is not pinned when it has no positive feedback elsewhere
    /// in the guess, and only at its own position otherwise. Each letter with positive
    /// feedback has its minimum count raised to its number of positive positions.
    pub fn update(&mut self, guess: Word, result: [LetterResult; 5])
        ensures
            final(self).is_update_of(*old(self), guess@, result@),
    {
        let ghost before = *self;
        let mut position: usize = 0;
        while position < 5
            invariant
                0 <= position <= 5,
                forall|p: int|
                    0 <= p < 5 ==> #[trigger] self.possible_letters[p]@ == letters_after(
                        before.possible_letters[p]@,
                        before.fixed_positions[p],
                        p,
                        guess@,
                        result@,
                        position as int,
                    ),
                forall|p: int|
                    0 <= p < 5 ==> #[trigger] self.fixed_positions[p] == (before.fixed_positions[p]
                        || (p < position && result@[p] == LetterResult::Correct)),
                self.must_contain@ == before.must_contain@,
            decreases 5 - position,
        {
            let letter = guess[position];
            let ghost i = position as int;
            proof {
                assert(excluded_before(guess@, result@, i + 1) =~= if result@[i] == LetterResult::Absent
                    && positive_count(guess@, result@, letter) == 0 {
                    excluded_before(guess@, result@, i).insert(letter)
                } else {
                    excluded_before(guess@, result@, i)
                });
            }
            match result[position] {
                LetterResult::Correct => {
                    let still_possible = self.possible_letters[position].contains(&letter);
                    self.possible_letters[position].clear();
                    if still_possible {
                        self.possible_letters[position].insert(letter);
                    }
                    self.fixed_positions[position] = true;
                    proof {
                        lemma_positive_count_witness(guess@, result@, letter, 5, i);
                        assert(!excluded_before(guess@, result@, i).contains(letter));
                        assert forall|p: int| 0 <= p < 5 implies #[trigger] self.possible_letters[p]@
                            == letters_after(
                            before.possible_letters[p]@,
                            before.fixed_positions[p],
                            p,
                            guess@,
                            result@,
                            i + 1,
                        ) by {
                            if p == i {
                                assert(self.possible_letters[p]@ =~= before.possible_letters[p]@.intersect(
                                    set![letter],
                                ));
                            }
                        }
                    }
                },
                LetterResult::Misplaced => {
                    self.possible_letters[position].remove(&letter);
                    proof {
                        assert forall|p: int| 0 <= p < 5 implies #[trigger] self.possible_letters[p]@
                            == letters_after(
                            before.possible_letters[p]@,
                            before.fixed_positions[p],
                            p,
                            guess@,
                            result@,
                            i + 1,
                        ) by {}
                    }
                },
                LetterResult::Absent => {
                    let pos_count = count_positive(&guess, &result, letter);
                    if pos_count == 0 {
                        let mut pos: usize = 0;
                        while pos < 5
                            invariant
                                0 <= pos <= 5,
                                0 <= i < 5,
                                result@[i] == LetterResult::Absent,
                                positive_count(guess@, result@, letter) == 0,
                                letter == guess@[i],
                                forall|p: int|
                                    0 <= p < 5 ==> #[trigger] self.possible_letters[p]@ == if p < pos
                                        && !self.fixed_positions[p] {
                                        letters_after(
                                            before.possible_letters[p]@,
                                            before.fixed_positions[p],
                                            p,
                                            guess@,
                                            result@,
                                            i,
                                        ).remove(letter)
                                    } else {
                                        letters_after(
                                            before.possible_letters[p]@,
                                            before.fixed_positions[p],
                                            p,
                                            guess@,
                                            result@,
                                            i,
                                        )
                                    },
                                forall|p: int|
                                    0 <= p < 5 ==> #[trigger] self.fixed_positions[p] == (
                                    before.fixed_positions[p] || (p < i && result@[p]
                                        == LetterResult::Correct)),
                                self.must_contain@ == before.must_contain@,
                            decreases 5 - pos,
                        {
                            if !self.fixed_positions[pos] {
                                self.possible_letters[pos].remove(&letter);
                            }
                            pos += 1;
                        }
                        proof {
                            assert forall|p: int| 0 <= p < 5 implies #[trigger] self.possible_letters[p]@
                                == letters_after(
                                before.possible_letters[p]@,
                                before.fixed_positions[p],
                                p,
                                guess@,
                                result@,
                                i + 1,
                            ) by {
                                if !self.fixed_positions[p] {
                                    assert(self.possible_letters[p]@ =~= letters_after(
                                        before.possible_letters[p]@,
                                        before.fixed_positions[p],
                                        p,
                                        guess@,
                                        result@,
                                        i + 1,
                                    ));
                                }
                            }
                        }
                    } else {
                        self.possible_letters[position].remove(&letter);
                        proof {
                            assert forall|p: int| 0 <= p < 5 implies #[trigger] self.possible_letters[p]@
                                == letters_after(
                                before.possible_letters[p]@,
                                before.fixed_positions[p],
                                p,
                                guess@,
                                result@,
                                i + 1,
                            ) by {}
                        }
                    }
                },
            }
            position += 1;
        }
        let mut position: usize = 0;
        while position < 5
            invariant
                0 <= position <= 5,
                forall|p: int|
                    0 <= p < 5 ==> #[trigger] self.possible_letters[p]@ == narrowed(
                        before.possible_letters[p]@,
                        before.fixed_positions[p],
                        p,
                        guess@,
                        result@,
                    ),
                forall|p: int|
                    0 <= p < 5 ==> #[trigger] self.fixed_positions[p] == (before.fixed_positions[p]
                        || result@[p] == LetterResult::Correct),
                self.must_contain@ == raised_upto(before.must_contain@, guess@, result@, position as int),
            decreases 5 - position,
        {
            let letter = guess[position];
            proof {
                let i = position as int;
                if is_positive(result@[i]) {
                    lemma_positive_count_witness(guess@, result@, letter, 5, i);
                }
            }
            if result[position] == LetterResult::Correct || result[position] == LetterResult::Misplaced {
                let count = count_positive(&guess, &result, letter);
                let raise = match self.must_contain.get(&letter) {
                    Some(prev) => *prev < count,
                    None => true,
                };
                if raise {
                    self.must_contain.insert(letter, count);
                }
            }
            proof {
                assert(self.must_contain@ =~= raised_upto(
                    before.must_contain@,
                    guess@,
                    result@,
                    position as int + 1,
                ));
            }
            position += 1;
        }
        proof {
            assert forall|c: char| positive_count(guess@, result@, c) > 0 <==> seen_positive(guess@, result@, c, 5) by {
                if positive_count(guess@, result@, c) > 0 {
                    lemma_positive_count_has_witness(guess@, result@, c, 5);
                } else if seen_positive(guess@, result@, c, 5) {
                    let q = choose|q: int| 0 <= q < 5 && guess@[q] == c && is_positive(result@[q]);
                    lemma_positive_count_witness(guess@, result@, c, 5, q);
                }
            }
            assert(self.must_contain@ =~= raised(before.must_contain@, guess@, result@));
        }
    }

    /// Whether `word` agrees with everything learned so far.
    pub fn matches(&self, word: &Word) -> (r: bool)
        ensures
            r == self.admits(word@),
    {
        let mut position: usize = 0;
        while position < 5
            invariant
                0 <= position <= 5,
                forall|p: int| 0 <= p < position ==> self.possible_letters[p]@.contains(#[trigger] word@[p]),
            decreases 5 - position,
        {
            if !self.possible_letters[position].contains(&word[position]) {
                return false;
            }
            position += 1;
        }
        self.must_contain.satisfied_by(word)
    }
}

} // verus!
