//! Letters and words as text.
use vstd::prelude::*;

use crate::feedback::Word;

verus! {

/// The first character of the uppercase mapping of `c`.
pub uninterp spec fn uppercase_of(c: char) -> char;

/// Relies on std's `char::to_uppercase`: its first character, which for `a` to `z` is `A`
/// to `Z`.
#[verifier::external_body]
fn first_uppercase(c: char) -> (r: char)
    ensures
        r == uppercase_of(c),
        'a' <= c && c <= 'z' ==> r as u32 == c as u32 - 32,
{
    c.to_uppercase().next().unwrap_or(c)
}

/// The letter as shown on a tile: its uppercase form, except `ß`, which stays as it is
/// (its uppercase form has two letters).
pub fn uppercase_display(c: char) -> (r: char)
    ensures
        r == if c == 'ß' {
            c
        } else {
            uppercase_of(c)
        },
{
    if c == 'ß' {
        c
    } else {
        first_uppercase(c)
    }
}

/// The word spelled by `chars`, when they are exactly five.
pub fn word_from_chars(chars: &Vec<char>) -> (r: Option<Word>)
    ensures
        r is Some <==> chars@.len() == 5,
        match r {
            Some(w) => w@ == chars@,
            None => true,
        },
{
    if chars.len() != 5 {
        return None;
    }
    let w = [chars[0], chars[1], chars[2], chars[3], chars[4]];
    assert(w@ =~= chars@);
    Some(w)
}

/// The words among `lines` (each a line of a word list, as characters): the lines of five
/// characters, in order; other lines are skipped.
pub fn parse_wordlist(lines: &Vec<Vec<char>>) -> (r: Vec<Word>)
    ensures
        r@.map_values(|w: Word| w@) == lines@.map_values(|l: Vec<char>| l@).filter(|l: Seq<char>| l.len() == 5),
{
    let ghost views = lines@.map_values(|l: Vec<char>| l@);
    let ghost five = |l: Seq<char>| l.len() == 5;
    let mut words: Vec<Word> = Vec::new();
    let mut i: usize = 0;
    while i < lines.len()
        invariant
            0 <= i <= lines@.len(),
            views == lines@.map_values(|l: Vec<char>| l@),
            five == (|l: Seq<char>| l.len() == 5),
            words@.map_values(|w: Word| w@) == views.subrange(0, i as int).filter(five),
        decreases lines@.len() - i,
    {
        proof {
            assert(views.subrange(0, i as int + 1) =~= views.subrange(0, i as int).push(lines@[i as int]@));
            views.subrange(0, i as int).lemma_filter_push(lines@[i as int]@, five);
        }
        let ghost before = words@;
        match word_from_chars(&lines[i]) {
            Some(w) => {
                words.push(w);
                assert(words@.map_values(|w: Word| w@) =~= before.map_values(|w: Word| w@).push(w@));
            },
            None => {},
        }
        i += 1;
    }
    assert(views.subrange(0, lines@.len() as int) =~= views);
    words
}

} // verus!
