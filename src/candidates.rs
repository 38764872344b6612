//! The words that are still worth guessing.
use vstd::prelude::*;

use crate::feedback::Word;
use crate::knowledge::Knowledge;
use crate::letters::lowercase_letters;

verus! {

/// Whether `words` holds the word `w`.
pub open spec fn holds_word(words: Seq<Word>, w: Seq<char>) -> bool {
    exists|k: int| 0 <= k < words.len() && #[trigger] words[k]@ == w
}

/// Whether the two words are letter for letter the same.
pub fn same_word(a: &Word, b: &Word) -> (r: bool)
    ensures
        r == (a@ == b@),
{
    let mut i: usize = 0;
    while i < 5
        invariant
            0 <= i <= 5,
            forall|k: int| 0 <= k < i ==> a@[k] == b@[k],
        decreases 5 - i,
    {
        if a[i] != b[i] {
            return false;
        }
        i += 1;
    }
    assert(a@ =~= b@);
    true
}

/// Whether `words` holds `w`.
pub fn contains_word(words: &Vec<Word>, w: &Word) -> (r: bool)
    ensures
        r == holds_word(words@, w@),
{
    let mut i: usize = 0;
    while i < words.len()
        invariant
            0 <= i <= words@.len(),
            forall|k: int| 0 <= k < i ==> words@[k]@ != w@,
        decreases words@.len() - i,
    {
        if same_word(&words[i], w) {
            return true;
        }
        i += 1;
    }
    false
}

/// Whether `w` is a candidate: not marked invalid, and in agreement with `knowledge`.
pub open spec fn is_candidate(knowledge: Knowledge, invalid: Seq<Word>, w: Word) -> bool {
    !holds_word(invalid, w@) && knowledge.admits(w@)
}

/// The candidates among `wordlist`, in list order.
pub open spec fn candidates_of(wordlist: Seq<Word>, knowledge: Knowledge, invalid: Seq<Word>) -> Seq<Word> {
    wordlist.filter(|w: Word| is_candidate(knowledge, invalid, w))
}

/// The words of `wordlist` that are not marked invalid, in list order.
pub open spec fn valid_words(wordlist: Seq<Word>, invalid: Seq<Word>) -> Seq<Word> {
    wordlist.filter(|w: Word| !holds_word(invalid, w@))
}

/// Every candidate agrees with the knowledge and is not marked invalid.
pub proof fn lemma_candidate_holds(wordlist: Seq<Word>, knowledge: Knowledge, invalid: Seq<Word>, i: int)
    requires
        0 <= i < candidates_of(wordlist, knowledge, invalid).len(),
    ensures
        is_candidate(knowledge, invalid, candidates_of(wordlist, knowledge, invalid)[i]),
{
    wordlist.lemma_filter_pred(|w: Word| is_candidate(knowledge, invalid, w), i);
}

/// No valid word is marked invalid.
pub proof fn lemma_valid_holds(wordlist: Seq<Word>, invalid: Seq<Word>, i: int)
    requires
        0 <= i < valid_words(wordlist, invalid).len(),
    ensures
        !holds_word(invalid, valid_words(wordlist, invalid)[i]@),
{
    wordlist.lemma_filter_pred(|w: Word| !holds_word(invalid, w@), i);
}

/// Every candidate is a word of the list.
pub proof fn lemma_candidate_in_list(wordlist: Seq<Word>, knowledge: Knowledge, invalid: Seq<Word>, i: int)
    requires
        0 <= i < candidates_of(wordlist, knowledge, invalid).len(),
    ensures
        wordlist.contains(candidates_of(wordlist, knowledge, invalid)[i]),
{
    let cp = |w: Word| is_candidate(knowledge, invalid, w);
    let c = wordlist.filter(cp);
    assert(c.contains(c[i]));
    wordlist.lemma_filter_contains_rev(cp, c[i]);
}

/// Every valid word is a word of the list.
pub proof fn lemma_valid_in_list(wordlist: Seq<Word>, invalid: Seq<Word>, i: int)
    requires
        0 <= i < valid_words(wordlist, invalid).len(),
    ensures
        wordlist.contains(valid_words(wordlist, invalid)[i]),
{
    let vp = |w: Word| !holds_word(invalid, w@);
    let v = wordlist.filter(vp);
    assert(v.contains(v[i]));
    wordlist.lemma_filter_contains_rev(vp, v[i]);
}

proof fn lemma_filter_shrinks(s: Seq<Word>, p: spec_fn(Word) -> bool, q: spec_fn(Word) -> bool, x: Word)
    requires
        forall|w: Word| #[trigger] q(w) ==> p(w),
    ensures
        s.filter(q).len() <= s.filter(p).len(),
        s.contains(x) && p(x) && !q(x) ==> s.filter(q).len() < s.filter(p).len(),
    decreases s.len(),
{
    if s.len() > 0 {
        let init = s.drop_last();
        lemma_filter_shrinks(init, p, q, x);
        assert(init.push(s.last()) =~= s);
        init.lemma_filter_push(s.last(), p);
        init.lemma_filter_push(s.last(), q);
        if s.contains(x) && p(x) && !q(x) && s.last() != x {
            let k = choose|k: int| 0 <= k < s.len() && s[k] == x;
            assert(init[k] == x);
        }
    }
}

/// Marking a valid word of the list invalid leaves fewer valid words.
pub proof fn lemma_mark_shrinks_valid(wordlist: Seq<Word>, invalid: Seq<Word>, w: Word)
    requires
        wordlist.contains(w),
        !holds_word(invalid, w@),
    ensures
        valid_words(wordlist, invalid.push(w)).len() < valid_words(wordlist, invalid).len(),
{
    let p = |v: Word| !holds_word(invalid, v@);
    let q = |v: Word| !holds_word(invalid.push(w), v@);
    assert forall|v: Word| #[trigger] q(v) implies p(v) by {
        if holds_word(invalid, v@) {
            let k = choose|k: int| 0 <= k < invalid.len() && #[trigger] invalid[k]@ == v@;
            assert(invalid.push(w)[k]@ == v@);
        }
    }
    assert(invalid.push(w)[invalid.len() as int]@ == w@);
    lemma_filter_shrinks(wordlist, p, q, w);
}

/// Every candidate is a valid word.
pub proof fn lemma_candidate_is_valid(wordlist: Seq<Word>, knowledge: Knowledge, invalid: Seq<Word>, i: int)
    requires
        0 <= i < candidates_of(wordlist, knowledge, invalid).len(),
    ensures
        valid_words(wordlist, invalid).contains(candidates_of(wordlist, knowledge, invalid)[i]),
{
    let cp = |w: Word| is_candidate(knowledge, invalid, w);
    let vp = |w: Word| !holds_word(invalid, w@);
    let c = wordlist.filter(cp);
    let w = c[i];
    wordlist.lemma_filter_pred(cp, i);
    assert(c.contains(w));
    wordlist.lemma_filter_contains_rev(cp, w);
    let k = choose|k: int| 0 <= k < wordlist.len() && wordlist[k] == w;
    wordlist.lemma_filter_contains(vp, k);
}

/// The words of `wordlist` made of lowercase letters `a` to `z` only, in list order: the
/// candidates before anything is known.
pub open spec fn fresh_candidates(wordlist: Seq<Word>) -> Seq<Word> {
    wordlist.filter(|w: Word| forall|p: int| 0 <= p < 5 ==> lowercase_letters().contains(#[trigger] w@[p]))
}

/// Before any feedback and any invalid word, the candidates are the lowercase words of
/// the list, whatever came before.
pub proof fn lemma_fresh_candidates(wordlist: Seq<Word>, knowledge: Knowledge, invalid: Seq<Word>)
    requires
        knowledge.is_fresh(),
        invalid.len() == 0,
    ensures
        candidates_of(wordlist, knowledge, invalid) == fresh_candidates(wordlist),
{
    let f1 = |w: Word| is_candidate(knowledge, invalid, w);
    let f2 = |w: Word| forall|p: int| 0 <= p < 5 ==> lowercase_letters().contains(#[trigger] w@[p]);
    assert forall|w: Word| #[trigger] f1(w) == f2(w) by {
        if f2(w) {
            assert(knowledge.admits(w@));
        }
    }
    assert(f1 =~= f2);
}

/// The candidates among `wordlist`, in list order.
pub fn filter_candidates(wordlist: &Vec<Word>, knowledge: &Knowledge, invalid: &Vec<Word>) -> (r: Vec<Word>)
    ensures
        r@ == candidates_of(wordlist@, *knowledge, invalid@),
{
    let ghost pred = |w: Word| is_candidate(*knowledge, invalid@, w);
    let mut r: Vec<Word> = Vec::new();
    let mut i: usize = 0;
    while i < wordlist.len()
        invariant
            0 <= i <= wordlist@.len(),
            pred == (|w: Word| is_candidate(*knowledge, invalid@, w)),
            r@ == wordlist@.subrange(0, i as int).filter(pred),
        decreases wordlist@.len() - i,
    {
        let w = wordlist[i];
        proof {
            assert(wordlist@.subrange(0, i as int + 1) =~= wordlist@.subrange(0, i as int).push(w));
            wordlist@.subrange(0, i as int).lemma_filter_push(w, pred);
            assert(pred(w) == is_candidate(*knowledge, invalid@, w));
        }
        if !contains_word(invalid, &w) && knowledge.matches(&w) {
            r.push(w);
        }
        i += 1;
    }
    assert(wordlist@.subrange(0, wordlist@.len() as int) =~= wordlist@);
    r
}

} // verus!
