//! Integer scores of guesses over a candidate set.
//!
//! Scores rest on a table `t` where `t[c]` stands for `c * log2(c)` in fixed point (with
//! `t[0] == 0`); the caller builds it, for every count up to the size of the word list.
//! With `n` candidates, the binary entropy of a letter present in `k` of them, times `n`, is
//! `t[n] - t[k] - t[n - k]`; and the entropy of a partition of the candidates into classes of
//! sizes `c_i` is `log2(n) - (sum of t[c_i]) / n`, so the guess with the smallest sum splits
//! them best.
use vstd::prelude::*;

use crate::feedback::{score, take_guess, LetterResult, Word};

verus! {

/// Whether `i` is the first position of a largest value of `s`.
pub open spec fn is_first_max(s: Seq<int>, i: int) -> bool {
    &&& 0 <= i < s.len()
    &&& forall|j: int| 0 <= j < s.len() ==> s[j] <= s[i]
    &&& forall|j: int| 0 <= j < i ==> s[j] < s[i]
}

/// Whether `i` is the first position of a smallest value of `s`.
pub open spec fn is_first_min(s: Seq<int>, i: int) -> bool {
    &&& 0 <= i < s.len()
    &&& forall|j: int| 0 <= j < s.len() ==> s[i] <= s[j]
    &&& forall|j: int| 0 <= j < i ==> s[i] < s[j]
}

/// Number of words of `cands` that hold the letter `l` at least once.
pub open spec fn presence(cands: Seq<Word>, l: char) -> nat {
    cands.filter(|w: Word| w@.contains(l)).len()
}

/// Whether the letter at position `p` of `w` is its first occurrence.
pub open spec fn first_occurrence(w: Seq<char>, p: int) -> bool {
    forall|q: int| 0 <= q < p ==> w[q] != w[p]
}

/// Whether `l` occurs among the first `p` letters of `w`.
pub open spec fn letter_before(w: Seq<char>, p: int, l: char) -> bool {
    exists|k: int| 0 <= k < p && #[trigger] w[k] == l
}

/// Whether `freqs` lists exactly the letters that occur in `cands`, each once, with the
/// (positive) number of words of `cands` that hold it.
pub open spec fn is_presence_of(freqs: Seq<(char, usize)>, cands: Seq<Word>) -> bool {
    &&& forall|i: int, j: int|
        0 <= i < freqs.len() && 0 <= j < freqs.len() && i != j ==> #[trigger] freqs[i].0
            != #[trigger] freqs[j].0
    &&& forall|i: int| 0 <= i < freqs.len() ==> #[trigger] freqs[i].1 == presence(cands, freqs[i].0)
    &&& forall|i: int| 0 <= i < freqs.len() ==> #[trigger] freqs[i].1 > 0
    &&& forall|l: char|
        (forall|i: int| 0 <= i < freqs.len() ==> #[trigger] freqs[i].0 != l) ==> presence(cands, l) == 0
}

proof fn lemma_presence_push(cands: Seq<Word>, w: Word, l: char)
    ensures
        presence(cands.push(w), l) == presence(cands, l) + if w@.contains(l) {
            1nat
        } else {
            0nat
        },
        presence(cands, l) <= cands.len(),
{
    cands.lemma_filter_push(w, |x: Word| x@.contains(l));
    cands.lemma_filter_len(|x: Word| x@.contains(l));
}

/// For each letter that occurs in `candidates`, the number of candidates that hold it.
pub fn letter_presence(candidates: &Vec<Word>) -> (r: Vec<(char, usize)>)
    ensures
        is_presence_of(r@, candidates@),
        candidates@.len() == 0 ==> r@.len() == 0,
{
    let mut freqs: Vec<(char, usize)> = Vec::new();
    let mut i: usize = 0;
    while i < candidates.len()
        invariant
            0 <= i <= candidates@.len(),
            is_presence_of(freqs@, candidates@.subrange(0, i as int)),
        decreases candidates@.len() - i,
    {
        let w = candidates[i];
        let ghost pre = candidates@.subrange(0, i as int);
        proof {
            assert(candidates@.subrange(0, i as int + 1) =~= pre.push(w));
        }
        let mut p: usize = 0;
        while p < 5
            invariant
                0 <= p <= 5,
                0 <= i < candidates@.len() <= usize::MAX,
                pre.len() == i,
                forall|a: int, b: int|
                    0 <= a < freqs@.len() && 0 <= b < freqs@.len() && a != b ==> #[trigger] freqs@[a].0
                        != #[trigger] freqs@[b].0,
                forall|a: int| 0 <= a < freqs@.len() ==> #[trigger] freqs@[a].1 > 0,
                forall|a: int|
                    0 <= a < freqs@.len() ==> #[trigger] freqs@[a].1 == presence(pre, freqs@[a].0)
                        + if letter_before(w@, p as int, freqs@[a].0) {
                        1nat
                    } else {
                        0nat
                    },
                forall|l: char|
                    #![trigger presence(pre, l)]
                    #![trigger letter_before(w@, p as int, l)]
                    (forall|a: int| 0 <= a < freqs@.len() ==> #[trigger] freqs@[a].0 != l) ==> presence(pre, l)
                        == 0 && !letter_before(w@, p as int, l),
            decreases 5 - p,
        {
            let l = w[p];
            let ghost before = freqs@;
            let mut seen = false;
            let mut q: usize = 0;
            while q < p
                invariant
                    0 <= q <= p < 5,
                    seen == letter_before(w@, q as int, l),
                    l == w@[p as int],
                decreases p - q,
            {
                if w[q] == l {
                    seen = true;
                }
                q += 1;
            }
            if !seen {
                let mut a: usize = 0;
                while a < freqs.len()
                    invariant
                        0 <= a <= freqs@.len(),
                        forall|b: int| 0 <= b < a ==> freqs@[b].0 != l,
                        freqs@ == before,
                    ensures
                        a <= freqs@.len(),
                        a < freqs@.len() ==> freqs@[a as int].0 == l,
                        forall|b: int| 0 <= b < a ==> freqs@[b].0 != l,
                    decreases freqs@.len() - a,
                {
                    if freqs[a].0 == l {
                        break;
                    }
                    a += 1;
                }
                if a < freqs.len() {
                    proof {
                        lemma_presence_push(pre, w, l);
                    }
                    let n = freqs[a].1;
                    assert(n == presence(pre, l));
                    freqs[a] = (l, n + 1);
                } else {
                    freqs.push((l, 1));
                    proof {
                        assert(freqs@[before.len() as int].0 == l);
                    }
                }
            }
            p += 1;
            proof {
                assert forall|x: char|
                    #![trigger presence(pre, x)]
                    #![trigger letter_before(w@, p as int, x)]
                    (forall|a: int| 0 <= a < freqs@.len() ==> #[trigger] freqs@[a].0 != x) implies presence(pre, x)
                        == 0 && !letter_before(w@, p as int, x) by {
                    if x == l {
                        if !seen {
                            assert(exists|a: int| 0 <= a < freqs@.len() && freqs@[a].0 == x);
                        } else {
                            assert(letter_before(w@, p - 1, l));
                            assert(exists|a: int| 0 <= a < before.len() && before[a].0 == x);
                            let a = choose|a: int| 0 <= a < before.len() && before[a].0 == x;
                            assert(freqs@[a].0 == x);
                        }
                    } else {
                        assert forall|a: int| 0 <= a < before.len() implies #[trigger] before[a].0 != x by {
                            assert(freqs@[a].0 == before[a].0);
                        }
                        if letter_before(w@, p as int, x) {
                            let k = choose|k: int| 0 <= k < p && #[trigger] w@[k] == x;
                            assert(k < p - 1);
                            assert(letter_before(w@, p - 1, x));
                        }
                    }
                }
            }
        }
        proof {
            assert forall|l: char| #[trigger] presence(candidates@.subrange(0, i as int + 1), l) == presence(pre, l)
                + if w@.contains(l) {
                1nat
            } else {
                0nat
            } by {
                lemma_presence_push(pre, w, l);
            }
        }
        i += 1;
    }
    assert(candidates@.subrange(0, candidates@.len() as int) =~= candidates@);
    if candidates.len() == 0 && freqs.len() > 0 {
        assert(freqs@[0].1 == presence(candidates@, freqs@[0].0));
        assert(candidates@.filter(|w: Word| w@.contains(freqs@[0].0)) =~= Seq::<Word>::empty()) by {
            reveal(Seq::filter);
        }
    }
    freqs
}

/// The count that `freqs` gives for `l`, or 0 where it gives none.
pub open spec fn lookup(freqs: Seq<(char, usize)>, l: char) -> int {
    if exists|i: int| 0 <= i < freqs.len() && freqs[i].0 == l {
        freqs[choose|i: int| 0 <= i < freqs.len() && freqs[i].0 == l].1 as int
    } else {
        0
    }
}

/// Whether no letter appears twice in `freqs`.
pub open spec fn distinct_letters(freqs: Seq<(char, usize)>) -> bool {
    forall|i: int, j: int|
        0 <= i < freqs.len() && 0 <= j < freqs.len() && i != j ==> #[trigger] freqs[i].0 != #[trigger] freqs[j].0
}

/// The binary entropy, times `n` and in table units, of a letter present in `k` of `n` words.
pub open spec fn info_term(t: Seq<u64>, n: int, k: int) -> int {
    t[n] as int - t[k] as int - t[n - k] as int
}

/// The sum of `info_term` over the distinct letters among the first `m` of `w`, where a letter
/// `l` is present in `count(l)` of `n` words.
pub open spec fn letter_score_sum(t: Seq<u64>, n: int, w: Seq<char>, count: spec_fn(char) -> int, m: int) -> int
    decreases m,
{
    if m <= 0 {
        0
    } else {
        letter_score_sum(t, n, w, count, m - 1) + if first_occurrence(w, m - 1) {
            info_term(t, n, count(w[m - 1]))
        } else {
            0
        }
    }
}

/// The letter-frequency score of `w` over the candidates `cands`, times their number: each
/// distinct letter of `w` counts once, by the binary entropy of its presence among `cands`.
pub open spec fn heuristic_score(t: Seq<u64>, cands: Seq<Word>, w: Seq<char>) -> int {
    letter_score_sum(t, cands.len() as int, w, |l: char| presence(cands, l) as int, 5)
}

/// The letter-frequency scores of each of `cands`, in order.
pub open spec fn heuristic_scores(t: Seq<u64>, cands: Seq<Word>) -> Seq<int> {
    Seq::new(cands.len(), |i: int| heuristic_score(t, cands, cands[i]@))
}

/// The same score read from a table of presence counts `freqs` over `n` words.
pub open spec fn score_from_counts(t: Seq<u64>, freqs: Seq<(char, usize)>, n: int, w: Seq<char>) -> int {
    letter_score_sum(t, n, w, |l: char| lookup(freqs, l), 5)
}

/// Presence counts read from `freqs` give the score over the candidates they were counted on.
pub proof fn lemma_counts_give_score(t: Seq<u64>, freqs: Seq<(char, usize)>, cands: Seq<Word>, w: Seq<char>)
    requires
        is_presence_of(freqs, cands),
    ensures
        score_from_counts(t, freqs, cands.len() as int, w) == heuristic_score(t, cands, w),
{
    let f1 = |l: char| lookup(freqs, l);
    let f2 = |l: char| presence(cands, l) as int;
    assert forall|l: char| #[trigger] f1(l) == f2(l) by {
        if exists|i: int| 0 <= i < freqs.len() && freqs[i].0 == l {
            let i = choose|i: int| 0 <= i < freqs.len() && freqs[i].0 == l;
            assert(freqs[i].1 == presence(cands, freqs[i].0));
        }
    }
    assert(f1 =~= f2);
}

/// The count that `freqs` gives for `l`, or 0.
fn lookup_count(freqs: &Vec<(char, usize)>, l: char) -> (r: usize)
    requires
        distinct_letters(freqs@),
    ensures
        r == lookup(freqs@, l),
{
    let mut i: usize = 0;
    while i < freqs.len()
        invariant
            0 <= i <= freqs@.len(),
            distinct_letters(freqs@),
            forall|k: int| 0 <= k < i ==> freqs@[k].0 != l,
        decreases freqs@.len() - i,
    {
        if freqs[i].0 == l {
            proof {
                let j = choose|j: int| 0 <= j < freqs@.len() && freqs@[j].0 == l;
                assert(freqs@[i as int].0 == freqs@[j].0);
                assert(j == i);
            }
            return freqs[i].1;
        }
        i += 1;
    }
    0
}

/// The letter-frequency score of `word` (see `score_from_counts`), where `frequencies` gives
/// for each letter the number of the `total` candidates that hold it.
pub fn score_with_counts(word: &Word, frequencies: &Vec<(char, usize)>, total: usize, table: &Vec<u64>) -> (r: i128)
    requires
        total < table@.len(),
        distinct_letters(frequencies@),
        forall|i: int| 0 <= i < frequencies@.len() ==> #[trigger] frequencies@[i].1 <= total,
    ensures
        r == score_from_counts(table@, frequencies@, total as int, word@),
{
    let ghost count = |l: char| lookup(frequencies@, l);
    let mut sum: i128 = 0;
    let mut p: usize = 0;
    while p < 5
        invariant
            0 <= p <= 5,
            total < table@.len(),
            distinct_letters(frequencies@),
            forall|i: int| 0 <= i < frequencies@.len() ==> #[trigger] frequencies@[i].1 <= total,
            count == (|l: char| lookup(frequencies@, l)),
            sum == letter_score_sum(table@, total as int, word@, count, p as int),
            -p * 0x4_0000_0000_0000_0000 <= sum <= p * 0x4_0000_0000_0000_0000,
        decreases 5 - p,
    {
        let l = word[p];
        let mut first = true;
        let mut q: usize = 0;
        while q < p
            invariant
                0 <= q <= p < 5,
                l == word@[p as int],
                first == (forall|k: int| 0 <= k < q ==> word@[k] != l),
            decreases p - q,
        {
            if word[q] == l {
                first = false;
            }
            q += 1;
        }
        if first {
            let k = lookup_count(frequencies, l);
            proof {
                if exists|i: int| 0 <= i < frequencies@.len() && frequencies@[i].0 == l {
                    let i = choose|i: int| 0 <= i < frequencies@.len() && frequencies@[i].0 == l;
                    assert(frequencies@[i].1 <= total);
                }
            }
            let term = table[total] as i128 - table[k] as i128 - table[total - k] as i128;
            sum = sum + term;
        }
        p += 1;
    }
    sum
}

/// The base-3 digit of a status.
pub open spec fn status_digit(r: LetterResult) -> int {
    match r {
        LetterResult::Correct => 0,
        LetterResult::Misplaced => 1,
        LetterResult::Absent => 2,
    }
}

/// A feedback pattern as a number below 243: its statuses as base-3 digits, first position lowest.
pub open spec fn pattern_code(r: Seq<LetterResult>) -> int {
    status_digit(r[0]) + 3 * status_digit(r[1]) + 9 * status_digit(r[2]) + 27 * status_digit(r[3])
        + 81 * status_digit(r[4])
}

/// Number of candidates that would answer `guess` with the pattern numbered `code`.
pub open spec fn class_size(cands: Seq<Word>, guess: Seq<char>, code: int) -> nat {
    cands.filter(|c: Word| pattern_code(score(c@, guess)) == code).len()
}

/// The sum of `t[size]` over the non-empty pattern classes numbered below `m`.
pub open spec fn partition_cost_upto(t: Seq<u64>, cands: Seq<Word>, guess: Seq<char>, m: int) -> int
    decreases m,
{
    if m <= 0 {
        0
    } else {
        partition_cost_upto(t, cands, guess, m - 1) + if class_size(cands, guess, m - 1) > 0 {
            t[class_size(cands, guess, m - 1) as int] as int
        } else {
            0
        }
    }
}

/// The cost of `guess` over the candidates: the sum of `t[size]` over the classes of
/// candidates that would answer it with the same pattern. Less cost is more information.
pub open spec fn partition_cost(t: Seq<u64>, cands: Seq<Word>, guess: Seq<char>) -> int {
    partition_cost_upto(t, cands, guess, 243)
}

/// The partition cost of each of `words` over the candidates `cands`, in order.
pub open spec fn partition_costs(t: Seq<u64>, cands: Seq<Word>, words: Seq<Word>) -> Seq<int> {
    Seq::new(words.len(), |i: int| partition_cost(t, cands, words[i]@))
}

fn digit(r: LetterResult) -> (d: usize)
    ensures
        d == status_digit(r),
{
    match r {
        LetterResult::Correct => 0,
        LetterResult::Misplaced => 1,
        LetterResult::Absent => 2,
    }
}

fn encode_pattern(r: &[LetterResult; 5]) -> (code: usize)
    ensures
        code == pattern_code(r@),
        code < 243,
{
    digit(r[0]) + 3 * digit(r[1]) + 9 * digit(r[2]) + 27 * digit(r[3]) + 81 * digit(r[4])
}

proof fn lemma_class_size_push(cands: Seq<Word>, c: Word, guess: Seq<char>, code: int)
    ensures
        class_size(cands.push(c), guess, code) == class_size(cands, guess, code) + if pattern_code(
            score(c@, guess),
        ) == code {
            1nat
        } else {
            0nat
        },
        class_size(cands, guess, code) <= cands.len(),
{
    cands.lemma_filter_push(c, |x: Word| pattern_code(score(x@, guess)) == code);
    cands.lemma_filter_len(|x: Word| pattern_code(score(x@, guess)) == code);
}

/// The partition cost of `guess` over `candidates` (see `partition_cost`).
pub fn guess_cost(guess: &Word, candidates: &Vec<Word>, table: &Vec<u64>) -> (r: u128)
    requires
        candidates@.len() < table@.len(),
    ensures
        r == partition_cost(table@, candidates@, guess@),
{
    let mut counts: Vec<usize> = Vec::new();
    let mut code: usize = 0;
    while code < 243
        invariant
            0 <= code <= 243,
            counts@.len() == code,
            forall|k: int| 0 <= k < code ==> counts@[k] == 0,
        decreases 243 - code,
    {
        counts.push(0);
        code += 1;
    }
    let mut i: usize = 0;
    while i < candidates.len()
        invariant
            0 <= i <= candidates@.len(),
            counts@.len() == 243,
            forall|k: int| 0 <= k < 243 ==> #[trigger] counts@[k] == class_size(candidates@.subrange(0, i as int), guess@, k),
        decreases candidates@.len() - i,
    {
        let candidate = candidates[i];
        let pattern = take_guess(&candidate, guess);
        let code = encode_pattern(&pattern);
        proof {
            let pre = candidates@.subrange(0, i as int);
            assert(candidates@.subrange(0, i as int + 1) =~= pre.push(candidate));
            assert forall|k: int| 0 <= k < 243 implies #[trigger] class_size(pre.push(candidate), guess@, k)
                == class_size(pre, guess@, k) + if k == code {
                1nat
            } else {
                0nat
            } by {
                lemma_class_size_push(pre, candidate, guess@, k);
            }
        }
        let n = counts[code];
        counts[code] = n + 1;
        i += 1;
    }
    assert(candidates@.subrange(0, candidates@.len() as int) =~= candidates@);
    let mut sum: u128 = 0;
    let mut code: usize = 0;
    while code < 243
        invariant
            0 <= code <= 243,
            counts@.len() == 243,
            candidates@.len() < table@.len(),
            forall|k: int| 0 <= k < 243 ==> #[trigger] counts@[k] == class_size(candidates@, guess@, k),
            sum == partition_cost_upto(table@, candidates@, guess@, code as int),
            sum <= code * 0x1_0000_0000_0000_0000,
        decreases 243 - code,
    {
        let n = counts[code];
        proof {
            lemma_class_size_push(candidates@, candidates@[0], guess@, code as int);
        }
        if n > 0 {
            sum = sum + table[n] as u128;
        }
        code += 1;
    }
    sum
}

} // verus!
