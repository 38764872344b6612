use wordle_ai::{take_guess, EntropyGuesser, LetterResult};

const SCALE: f64 = 4294967296.0;

/// `c * log2(c)` in fixed point, for every count up to `n`.
fn xlogx_table(n: usize) -> Vec<u64> {
    (0..=n)
        .map(|c| {
            let x = c as f64;
            if c < 2 { 0 } else { (x * x.log2() * SCALE).round() as u64 }
        })
        .collect()
}

#[test]
fn entropy_short_circuits_on_two_candidates() {
    let wordlist = vec![
        ['a', 'p', 'p', 'l', 'e'],
        ['a', 'b', 'o', 'u', 't'],
        ['h', 'e', 'l', 'l', 'o'],
        ['a', 'l', 'o', 'u', 'd'],
    ];
    let mut ai = EntropyGuesser::new(wordlist.clone());
    ai.update(['h', 'e', 'l', 'l', 'o'], take_guess(&['a', 'b', 'o', 'u', 't'], &['h', 'e', 'l', 'l', 'o']));
    let candidates = ai.get_candidates();
    assert_eq!(candidates, vec![['a', 'b', 'o', 'u', 't']]);
    assert_eq!(ai.make_guess(&xlogx_table(4)), Some(['a', 'b', 'o', 'u', 't']));

    let ai = EntropyGuesser::new(vec![['z', 'z', 'z', 'z', 'z'], ['y', 'y', 'y', 'y', 'y']]);
    assert_eq!(ai.make_guess(&xlogx_table(2)), Some(['z', 'z', 'z', 'z', 'z']));
}

#[test]
fn entropy_prefers_the_splitting_word() {
    // three candidates that only a word outside them tells apart
    let wordlist = vec![
        ['b', 'a', 'k', 'e', 'r'],
        ['c', 'a', 'k', 'e', 'r'],
        ['d', 'a', 'k', 'e', 'r'],
        ['b', 'c', 'd', 'x', 'x'],
    ];
    let mut ai = EntropyGuesser::new(wordlist.clone());
    ai.mark_invalid(['q', 'q', 'q', 'q', 'q']);
    // rule the last word out as a candidate, but not as a guess
    ai.update(['x', 'q', 'q', 'q', 'q'], [LetterResult::Absent; 5]);
    assert_eq!(ai.get_candidates().len(), 3);
    assert_eq!(ai.make_guess(&xlogx_table(4)), Some(['b', 'c', 'd', 'x', 'x']));
}

#[test]
fn entropy_ties_go_to_the_first_word() {
    let wordlist = vec![
        ['a', 'a', 'a', 'a', 'a'],
        ['b', 'b', 'b', 'b', 'b'],
        ['c', 'c', 'c', 'c', 'c'],
    ];
    let ai = EntropyGuesser::new(wordlist.clone());
    // each word splits the three into one and two
    assert_eq!(ai.make_guess(&xlogx_table(3)), Some(wordlist[0]));
}

#[test]
fn entropy_skips_invalid_words() {
    let wordlist = vec![
        ['b', 'a', 'k', 'e', 'r'],
        ['c', 'a', 'k', 'e', 'r'],
        ['d', 'a', 'k', 'e', 'r'],
        ['b', 'c', 'd', 'x', 'x'],
    ];
    let mut ai = EntropyGuesser::new(wordlist.clone());
    ai.update(['x', 'q', 'q', 'q', 'q'], [LetterResult::Absent; 5]);
    ai.mark_invalid(['b', 'c', 'd', 'x', 'x']);
    assert_eq!(ai.make_guess(&xlogx_table(4)), Some(wordlist[0]));
}

#[test]
fn entropy_empty_candidates_give_nothing() {
    let mut ai = EntropyGuesser::new(vec![['a', 'b', 'c', 'd', 'e']]);
    ai.mark_invalid(['a', 'b', 'c', 'd', 'e']);
    assert_eq!(ai.make_guess(&xlogx_table(1)), None);
}
