//! Feedback of one guess against a secret word.
use vstd::prelude::*;

use crate::letters::letter_count;

verus! {

/// A word of the puzzle: five letters.
pub type Word = [char; 5];

/// Number of letters in a word.
pub const WORD_LENGTH: usize = 5;

/// Status of one letter of a guess.
#[derive(Clone, Copy, PartialEq, Eq, Hash, Debug, Structural)]
pub enum LetterResult {
    /// The letter stands at this position in the secret.
    Correct,
    /// The letter occurs in the secret, elsewhere, and was not used up by another match.
    Misplaced,
    /// This occurrence of the letter is not accounted for by the secret.
    Absent,
}

/// The status that follows `current` when a player steps through the statuses of a tile,
/// forward (Absent, Misplaced, Correct, Absent, ...) or backward; an unset tile starts at
/// Misplaced forward and at Absent backward.
pub fn cycle_feedback(current: Option<LetterResult>, forward: bool) -> (r: LetterResult)
    ensures
        r == match (current, forward) {
            (None, true) => LetterResult::Misplaced,
            (Some(LetterResult::Absent), true) => LetterResult::Misplaced,
            (Some(LetterResult::Misplaced), true) => LetterResult::Correct,
            (Some(LetterResult::Correct), true) => LetterResult::Absent,
            (None, false) => LetterResult::Absent,
            (Some(LetterResult::Absent), false) => LetterResult::Correct,
            (Some(LetterResult::Misplaced), false) => LetterResult::Absent,
            (Some(LetterResult::Correct), false) => LetterResult::Misplaced,
        },
{
    match (current, forward) {
        (None, true) => LetterResult::Misplaced,
        (Some(LetterResult::Absent), true) => LetterResult::Misplaced,
        (Some(LetterResult::Misplaced), true) => LetterResult::Correct,
        (Some(LetterResult::Correct), true) => LetterResult::Absent,
        (None, false) => LetterResult::Absent,
        (Some(LetterResult::Absent), false) => LetterResult::Correct,
        (Some(LetterResult::Misplaced), false) => LetterResult::Absent,
        (Some(LetterResult::Correct), false) => LetterResult::Misplaced,
    }
}

/// The status written as a letter: `c` Correct, `m` Misplaced, `a` Absent.
pub open spec fn status_of_letter(c: char) -> Option<LetterResult> {
    if c == 'c' {
        Some(LetterResult::Correct)
    } else if c == 'm' {
        Some(LetterResult::Misplaced)
    } else if c == 'a' {
        Some(LetterResult::Absent)
    } else {
        None
    }
}

/// Reads feedback written as five letters, `c` for Correct, `m` for Misplaced and `a` for
/// Absent (`cmaac`); `None` for anything else.
pub fn feedback_from_chars(chars: &Vec<char>) -> (r: Option<[LetterResult; 5]>)
    ensures
        r is Some <==> chars@.len() == 5 && forall|i: int| 0 <= i < 5 ==> #[trigger] status_of_letter(chars@[i]) is Some,
        match r {
            Some(res) => forall|i: int| 0 <= i < 5 ==> Some(#[trigger] res@[i]) == status_of_letter(chars@[i]),
            None => true,
        },
{
    if chars.len() != 5 {
        return None;
    }
    let mut res = [
        LetterResult::Absent,
        LetterResult::Absent,
        LetterResult::Absent,
        LetterResult::Absent,
        LetterResult::Absent,
    ];
    let mut i: usize = 0;
    while i < 5
        invariant
            0 <= i <= 5,
            chars@.len() == 5,
            forall|k: int| 0 <= k < i ==> Some(#[trigger] res@[k]) == status_of_letter(chars@[k]),
        decreases 5 - i,
    {
        let c = chars[i];
        if c == 'c' {
            res[i] = LetterResult::Correct;
        } else if c == 'm' {
            res[i] = LetterResult::Misplaced;
        } else if c == 'a' {
            res[i] = LetterResult::Absent;
        } else {
            assert(status_of_letter(chars@[i as int]) is None);
            return None;
        }
        i += 1;
    }
    assert forall|k: int| 0 <= k < 5 implies #[trigger] status_of_letter(chars@[k]) is Some by {
        assert(Some(res@[k]) == status_of_letter(chars@[k]));
    }
    Some(res)
}

/// Correct or Misplaced: the letter was found in the secret.
pub open spec fn is_positive(r: LetterResult) -> bool {
    r == LetterResult::Correct || r == LetterResult::Misplaced
}

/// Number of positions below `n` where `guess` holds `c` and the feedback is positive.
pub open spec fn positive_count_upto(guess: Seq<char>, result: Seq<LetterResult>, c: char, n: int) -> nat
    decreases n,
{
    if n <= 0 {
        0
    } else {
        positive_count_upto(guess, result, c, n - 1) + if guess[n - 1] == c && is_positive(
            result[n - 1],
        ) {
            1nat
        } else {
            0nat
        }
    }
}

/// Number of positions where `guess` holds `c` and the feedback is positive.
pub open spec fn positive_count(guess: Seq<char>, result: Seq<LetterResult>, c: char) -> nat {
    positive_count_upto(guess, result, c, 5)
}

/// Whether one of the first `n` positions holds `c` with positive feedback.
pub open spec fn seen_positive(guess: Seq<char>, result: Seq<LetterResult>, c: char, n: int) -> bool {
    exists|q: int| 0 <= q < n && guess[q] == c && is_positive(result[q])
}

/// At most `n` of the first `n` positions count.
pub proof fn lemma_positive_count_bound(guess: Seq<char>, result: Seq<LetterResult>, c: char, n: int)
    requires
        n >= 0,
    ensures
        positive_count_upto(guess, result, c, n) <= n,
    decreases n,
{
    if n > 0 {
        lemma_positive_count_bound(guess, result, c, n - 1);
    }
}

/// A positive position with letter `c` makes the count of `c` positive.
pub proof fn lemma_positive_count_witness(guess: Seq<char>, result: Seq<LetterResult>, c: char, n: int, q: int)
    requires
        0 <= q < n,
        guess[q] == c,
        is_positive(result[q]),
    ensures
        positive_count_upto(guess, result, c, n) > 0,
    decreases n,
{
    if q < n - 1 {
        lemma_positive_count_witness(guess, result, c, n - 1, q);
    }
}

/// A positive count of `c` has a positive position holding `c`.
pub proof fn lemma_positive_count_has_witness(guess: Seq<char>, result: Seq<LetterResult>, c: char, n: int)
    requires
        positive_count_upto(guess, result, c, n) > 0,
    ensures
        seen_positive(guess, result, c, n),
    decreases n,
{
    if n > 0 && !(guess[n - 1] == c && is_positive(result[n - 1])) {
        lemma_positive_count_has_witness(guess, result, c, n - 1);
    }
}

/// First pass: the exact-position matches are Correct, every other position Absent.
pub open spec fn exact_pass(secret: Seq<char>, guess: Seq<char>) -> Seq<LetterResult> {
    Seq::new(5, |i: int| if guess[i] == secret[i] { LetterResult::Correct } else { LetterResult::Absent })
}

/// The secret slots that the first pass consumes.
pub open spec fn exact_used(secret: Seq<char>, guess: Seq<char>) -> Seq<bool> {
    Seq::new(5, |i: int| guess[i] == secret[i])
}

/// The first secret slot at or after `j` that is not consumed and holds `c`; 5 if there is none.
pub open spec fn free_slot(secret: Seq<char>, used: Seq<bool>, c: char, j: int) -> int
    decreases 5 - j,
{
    if j >= 5 {
        5
    } else if !used[j] && secret[j] == c {
        j
    } else {
        free_slot(secret, used, c, j + 1)
    }
}

/// Second pass, from guess position `i` on: each position that is not Correct takes the
/// first free secret slot holding its letter and becomes Misplaced, or stays Absent.
pub open spec fn misplaced_pass(
    secret: Seq<char>,
    guess: Seq<char>,
    res: Seq<LetterResult>,
    used: Seq<bool>,
    i: int,
) -> (Seq<LetterResult>, Seq<bool>)
    decreases 5 - i,
{
    if i >= 5 {
        (res, used)
    } else if res[i] == LetterResult::Correct {
        misplaced_pass(secret, guess, res, used, i + 1)
    } else {
        let j = free_slot(secret, used, guess[i], 0);
        if j < 5 {
            misplaced_pass(secret, guess, res.update(i, LetterResult::Misplaced), used.update(j, true), i + 1)
        } else {
            misplaced_pass(secret, guess, res, used, i + 1)
        }
    }
}

/// The feedback that `guess` receives when the secret is `secret`.
pub open spec fn score(secret: Seq<char>, guess: Seq<char>) -> Seq<LetterResult> {
    misplaced_pass(secret, guess, exact_pass(secret, guess), exact_used(secret, guess), 0).0
}

/// Scores `guess` against the secret `solution`: an exact pass marks the letters in
/// place Correct and consumes their slots; a second pass, left to right, marks a letter
/// Misplaced when a slot of the secret holding it is still free (and consumes the first
/// such slot), and Absent otherwise.
pub fn take_guess(solution: &Word, guess: &Word) -> (r: [LetterResult; 5])
    ensures
        r@ == score(solution@, guess@),
{
    let mut result = [
        LetterResult::Absent,
        LetterResult::Absent,
        LetterResult::Absent,
        LetterResult::Absent,
        LetterResult::Absent,
    ];
    let mut solution_used = [false, false, false, false, false];
    let mut i: usize = 0;
    while i < 5
        invariant
            0 <= i <= 5,
            forall|k: int| 0 <= k < i ==> result@[k] == exact_pass(solution@, guess@)[k],
            forall|k: int| i <= k < 5 ==> result@[k] == LetterResult::Absent,
            forall|k: int| 0 <= k < i ==> solution_used@[k] == exact_used(solution@, guess@)[k],
            forall|k: int| i <= k < 5 ==> !solution_used@[k],
        decreases 5 - i,
    {
        if guess[i] == solution[i] {
            result[i] = LetterResult::Correct;
            solution_used[i] = true;
        }
        i += 1;
    }
    assert(result@ =~= exact_pass(solution@, guess@));
    assert(solution_used@ =~= exact_used(solution@, guess@));
    let mut i: usize = 0;
    while i < 5
        invariant
            0 <= i <= 5,
            result@.len() == 5,
            solution_used@.len() == 5,
            misplaced_pass(solution@, guess@, result@, solution_used@, i as int) == misplaced_pass(
                solution@,
                guess@,
                exact_pass(solution@, guess@),
                exact_used(solution@, guess@),
                0,
            ),
        decreases 5 - i,
    {
        if result[i] != LetterResult::Correct {
            let c = guess[i];
            let mut j: usize = 0;
            while j < 5
                invariant
                    0 <= j <= 5,
                    solution_used@.len() == 5,
                    free_slot(solution@, solution_used@, c, 0) == free_slot(
                        solution@,
                        solution_used@,
                        c,
                        j as int,
                    ),
                ensures
                    j <= 5,
                    free_slot(solution@, solution_used@, c, 0) == j,
                decreases 5 - j,
            {
                if !solution_used[j] && solution[j] == c {
                    break;
                }
                j += 1;
            }
            if j < 5 {
                result[i] = LetterResult::Misplaced;
                solution_used[j] = true;
            }
        }
        i += 1;
    }
    result
}

/// Number of consumed secret slots below `n` that hold `c`.
pub open spec fn used_count_upto(secret: Seq<char>, used: Seq<bool>, c: char, n: int) -> nat
    decreases n,
{
    if n <= 0 {
        0
    } else {
        used_count_upto(secret, used, c, n - 1) + if used[n - 1] && secret[n - 1] == c {
            1nat
        } else {
            0nat
        }
    }
}

proof fn lemma_free_slot(secret: Seq<char>, used: Seq<bool>, c: char, j: int)
    requires
        0 <= j <= 5,
    ensures
        j <= free_slot(secret, used, c, j) <= 5,
        free_slot(secret, used, c, j) < 5 ==> !used[free_slot(secret, used, c, j)]
            && secret[free_slot(secret, used, c, j)] == c,
        free_slot(secret, used, c, j) == 5 ==> forall|k: int|
            j <= k < 5 ==> !(!used[k] && secret[k] == c),
    decreases 5 - j,
{
    if j < 5 {
        lemma_free_slot(secret, used, c, j + 1);
    }
}

proof fn lemma_positive_count_update(
    guess: Seq<char>,
    res: Seq<LetterResult>,
    i: int,
    v: LetterResult,
    c: char,
    n: int,
)
    requires
        0 <= i < res.len(),
        0 <= n <= res.len(),
        !is_positive(res[i]),
        is_positive(v),
    ensures
        positive_count_upto(guess, res.update(i, v), c, n) == positive_count_upto(guess, res, c, n)
            + if i < n && guess[i] == c {
            1nat
        } else {
            0nat
        },
    decreases n,
{
    if n > 0 {
        lemma_positive_count_update(guess, res, i, v, c, n - 1);
    }
}

proof fn lemma_used_count_update(secret: Seq<char>, used: Seq<bool>, k: int, c: char, n: int)
    requires
        0 <= k < used.len(),
        0 <= n <= used.len(),
        !used[k],
    ensures
        used_count_upto(secret, used.update(k, true), c, n) == used_count_upto(secret, used, c, n)
            + if k < n && secret[k] == c {
            1nat
        } else {
            0nat
        },
    decreases n,
{
    if n > 0 {
        lemma_used_count_update(secret, used, k, c, n - 1);
    }
}

proof fn lemma_exact_counts(secret: Seq<char>, guess: Seq<char>, c: char, n: int)
    requires
        0 <= n <= 5,
        secret.len() == 5,
        guess.len() == 5,
    ensures
        positive_count_upto(guess, exact_pass(secret, guess), c, n) == used_count_upto(
            secret,
            exact_used(secret, guess),
            c,
            n,
        ),
    decreases n,
{
    if n > 0 {
        lemma_exact_counts(secret, guess, c, n - 1);
    }
}

proof fn lemma_used_count_bound(secret: Seq<char>, used: Seq<bool>, c: char, n: int)
    requires
        0 <= n <= secret.len(),
    ensures
        used_count_upto(secret, used, c, n) <= letter_count(secret.subrange(0, n), c),
    decreases n,
{
    if n > 0 {
        lemma_used_count_bound(secret, used, c, n - 1);
        assert(secret.subrange(0, n).drop_last() =~= secret.subrange(0, n - 1));
    }
}

/// What the second pass keeps true from position `i` on: Correct marks exactly the letters
/// in place; every consumed slot is answered by a positive position with its letter; every
/// Absent position left behind found all slots of its letter consumed; and each letter has as
/// many positive positions as consumed slots.
proof fn lemma_misplaced_pass(
    secret: Seq<char>,
    guess: Seq<char>,
    res: Seq<LetterResult>,
    used: Seq<bool>,
    i: int,
)
    requires
        0 <= i <= 5,
        secret.len() == 5,
        guess.len() == 5,
        res.len() == 5,
        used.len() == 5,
        forall|p: int| 0 <= p < 5 ==> (res[p] == LetterResult::Correct <==> guess[p] == secret[p]),
        forall|p: int| i <= p < 5 ==> res[p] != LetterResult::Misplaced,
        forall|j: int|
            0 <= j < 5 && #[trigger] used[j] ==> exists|q: int|
                0 <= q < 5 && guess[q] == secret[j] && is_positive(res[q]),
        forall|p: int, j: int|
            #![trigger res[p], used[j]]
            0 <= p < i && res[p] == LetterResult::Absent && 0 <= j < 5 && secret[j] == guess[p]
                ==> used[j],
        forall|c: char| #[trigger] positive_count(guess, res, c) == used_count_upto(secret, used, c, 5),
    ensures
        ({
            let (r, u) = misplaced_pass(secret, guess, res, used, i);
            &&& r.len() == 5
            &&& u.len() == 5
            &&& forall|p: int| 0 <= p < 5 ==> (r[p] == LetterResult::Correct <==> guess[p] == secret[p])
            &&& forall|j: int|
                0 <= j < 5 && #[trigger] u[j] ==> exists|q: int|
                    0 <= q < 5 && guess[q] == secret[j] && is_positive(r[q])
            &&& forall|p: int, j: int|
                #![trigger r[p], u[j]]
                0 <= p < 5 && r[p] == LetterResult::Absent && 0 <= j < 5 && secret[j] == guess[p]
                    ==> u[j]
            &&& forall|c: char| #[trigger] positive_count(guess, r, c) == used_count_upto(secret, u, c, 5)
        }),
    decreases 5 - i,
{
    if i < 5 {
        if res[i] == LetterResult::Correct {
            lemma_misplaced_pass(secret, guess, res, used, i + 1);
        } else {
            let k = free_slot(secret, used, guess[i], 0);
            lemma_free_slot(secret, used, guess[i], 0);
            if k < 5 {
                let res2 = res.update(i, LetterResult::Misplaced);
                let used2 = used.update(k, true);
                assert forall|j: int| 0 <= j < 5 && #[trigger] used2[j] implies exists|q: int|
                    0 <= q < 5 && guess[q] == secret[j] && is_positive(res2[q]) by {
                    if j == k {
                        assert(guess[i] == secret[j] && is_positive(res2[i]));
                    } else {
                        assert(used[j]);
                        let q = choose|q: int| 0 <= q < 5 && guess[q] == secret[j] && is_positive(res[q]);
                        assert(is_positive(res2[q]));
                    }
                }
                assert forall|c: char| #[trigger] positive_count(guess, res2, c) == used_count_upto(secret, used2, c, 5) by {
                    lemma_positive_count_update(guess, res, i, LetterResult::Misplaced, c, 5);
                    lemma_used_count_update(secret, used, k, c, 5);
                    assert(positive_count(guess, res, c) == used_count_upto(secret, used, c, 5));
                }
                assert forall|p: int, j: int|
                    #![trigger res2[p], used2[j]]
                    0 <= p < i + 1 && res2[p] == LetterResult::Absent && 0 <= j < 5 && secret[j] == guess[p]
                        implies used2[j] by {
                    assert(p != i);
                    assert(used[j]);
                }
                lemma_misplaced_pass(secret, guess, res2, used2, i + 1);
            } else {
                assert forall|p: int, j: int|
                    #![trigger res[p], used[j]]
                    0 <= p < i + 1 && res[p] == LetterResult::Absent && 0 <= j < 5 && secret[j] == guess[p]
                        implies used[j] by {
                    if p == i {
                        assert(!(!used[j] && secret[j] == guess[i]));
                    }
                }
                lemma_misplaced_pass(secret, guess, res, used, i + 1);
            }
        }
    }
}

/// Facts of the feedback rule: a position is Correct exactly where the guess and the secret
/// agree; an Absent letter that the secret holds somewhere has a positive position elsewhere
/// in the guess; and no letter has more positive positions than the secret holds it.
pub proof fn lemma_score_facts(secret: Word, guess: Word)
    ensures
        forall|p: int|
            0 <= p < 5 ==> (#[trigger] score(secret@, guess@)[p] == LetterResult::Correct <==> guess@[p]
                == secret@[p]),
        forall|p: int, j: int|
            0 <= p < 5 && 0 <= j < 5 && #[trigger] score(secret@, guess@)[p] == LetterResult::Absent
                && #[trigger] secret@[j] == guess@[p] ==> positive_count(
                guess@,
                score(secret@, guess@),
                guess@[p],
            ) > 0,
        forall|c: char| #[trigger] positive_count(guess@, score(secret@, guess@), c) <= letter_count(secret@, c),
{
    let s = secret@;
    let g = guess@;
    let res = exact_pass(s, g);
    let used = exact_used(s, g);
    assert forall|c: char| #[trigger] positive_count(g, res, c) == used_count_upto(s, used, c, 5) by {
        lemma_exact_counts(s, g, c, 5);
    }
    assert forall|j: int| 0 <= j < 5 && #[trigger] used[j] implies exists|q: int|
        0 <= q < 5 && g[q] == s[j] && is_positive(res[q]) by {
        assert(g[j] == s[j] && is_positive(res[j]));
    }
    lemma_misplaced_pass(s, g, res, used, 0);
    let (r, u) = misplaced_pass(s, g, res, used, 0);
    assert forall|p: int, j: int|
        0 <= p < 5 && 0 <= j < 5 && #[trigger] r[p] == LetterResult::Absent && #[trigger] s[j] == g[p]
            implies positive_count(g, r, g[p]) > 0 by {
        assert(u[j]);
        let q = choose|q: int| 0 <= q < 5 && g[q] == s[j] && is_positive(r[q]);
        lemma_positive_count_witness(g, r, g[p], 5, q);
    }
    assert forall|c: char| #[trigger] positive_count(g, r, c) <= letter_count(s, c) by {
        lemma_used_count_bound(s, u, c, 5);
        assert(s.subrange(0, 5) =~= s);
    }
}

} // verus!
