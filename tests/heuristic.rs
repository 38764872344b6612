use wordle_ai::{HeuristicGuesser, LetterResult};

const SCALE: f64 = 4294967296.0;

/// `c * log2(c)` in fixed point, for every count up to `n`.
fn xlogx_table(n: usize) -> Vec<u64> {
    (0..=n)
        .map(|c| {
            let x = c as f64;
            if c < 2 { 0 } else { (x * x.log2() * SCALE).round() as u64 }
        })
        .collect()
}

fn as_bits(score: i128, total: usize) -> f64 {
    score as f64 / (total as f64 * SCALE)
}

#[test]
fn test_calculate_letter_frequencies() {
    let wordlist = vec![
        ['a', 'p', 'p', 'l', 'e'],
        ['a', 'b', 'o', 'u', 't'],
        ['h', 'e', 'l', 'l', 'o'],
    ];
    let ai = HeuristicGuesser::new(wordlist.clone());
    let counts = ai.calculate_letter_frequencies(&wordlist);
    let frequency = |c: char| {
        let (_, n) = counts.iter().find(|(l, _)| *l == c).unwrap();
        *n as f64 / wordlist.len() as f64
    };

    assert!((frequency('a') - 2.0 / 3.0).abs() < 0.01);
    assert!((frequency('e') - 2.0 / 3.0).abs() < 0.01);
    assert!((frequency('l') - 2.0 / 3.0).abs() < 0.01);
    assert!((frequency('p') - 1.0 / 3.0).abs() < 0.01);
}

#[test]
fn test_score_word() {
    let wordlist = vec![['a', 'b', 'c', 'd', 'e']];
    let ai = HeuristicGuesser::new(wordlist);

    // frequencies 0.5 for a, b, c and 1.0 for d, e: counts over two words
    let frequencies = vec![('a', 1), ('b', 1), ('c', 1), ('d', 2), ('e', 2)];
    let table = xlogx_table(2);

    let word = ['a', 'b', 'c', 'd', 'e'];
    let score = as_bits(ai.score_word(&word, &frequencies, 2, &table), 2);

    assert!((score - 3.0).abs() < 0.01);
}

#[test]
fn test_score_word_deduplicates() {
    let wordlist = vec![['a', 'p', 'p', 'l', 'e']];
    let ai = HeuristicGuesser::new(wordlist);

    let frequencies = vec![('a', 1), ('p', 1), ('l', 1), ('e', 1)];
    let table = xlogx_table(2);

    let word = ['a', 'p', 'p', 'l', 'e'];
    let score = as_bits(ai.score_word(&word, &frequencies, 2, &table), 2);

    // four distinct letters, not five
    assert!((score - 4.0).abs() < 0.01);
}

#[test]
fn score_word_exact_units() {
    let ai = HeuristicGuesser::new(vec![]);
    let table = xlogx_table(4);
    // a letter in half of four words: 4 * H(1/2) = 4 bits, i.e. t[4] - 2 * t[2]
    let frequencies = vec![('a', 2)];
    let score = ai.score_word(&['a', 'a', 'a', 'a', 'a'], &frequencies, 4, &table);
    assert_eq!(score, (table[4] - 2 * table[2]) as i128);
    assert_eq!(score, 4 * (1i128 << 32));
    // a letter missing from the counts scores nothing
    let score = ai.score_word(&['z', 'z', 'z', 'z', 'z'], &frequencies, 4, &table);
    assert_eq!(score, 0);
}

#[test]
fn test_heuristic_guesser_picks_best_word() {
    let wordlist = vec![['a', 'a', 'a', 'b', 'c'], ['a', 'a', 'a', 'x', 'y']];
    let ai = HeuristicGuesser::new(wordlist.clone());
    let table = xlogx_table(wordlist.len());

    let guess = ai.make_guess(&table);

    assert!(guess.is_some());
    let result = guess.unwrap();
    assert!(wordlist.contains(&result));
}

#[test]
fn ties_go_to_the_first_candidate() {
    let wordlist = vec![['a', 'a', 'a', 'b', 'c'], ['a', 'a', 'a', 'x', 'y']];
    let ai = HeuristicGuesser::new(wordlist.clone());
    let table = xlogx_table(wordlist.len());
    assert_eq!(ai.make_guess(&table), Some(wordlist[0]));
}

#[test]
fn best_split_wins() {
    // 'e' is in two of four words: the word holding it and four other letters of its own
    // scores highest
    let wordlist = vec![
        ['q', 'q', 'q', 'q', 'q'],
        ['e', 'a', 'b', 'c', 'd'],
        ['e', 'f', 'g', 'h', 'i'],
        ['j', 'k', 'm', 'n', 'o'],
    ];
    let ai = HeuristicGuesser::new(wordlist.clone());
    let table = xlogx_table(wordlist.len());
    assert_eq!(ai.make_guess(&table), Some(wordlist[1]));
}

#[test]
fn test_heuristic_guesser_filters_candidates() {
    let wordlist = vec![
        ['a', 'p', 'p', 'l', 'e'],
        ['a', 'b', 'o', 'u', 't'],
        ['h', 'e', 'l', 'l', 'o'],
    ];
    let mut ai = HeuristicGuesser::new(wordlist);

    let guess = ['a', 'p', 'p', 'l', 'e'];
    let result = [
        LetterResult::Correct,
        LetterResult::Absent,
        LetterResult::Absent,
        LetterResult::Absent,
        LetterResult::Absent,
    ];
    ai.update(guess, result);

    let candidates = ai.get_candidates();
    assert_eq!(candidates.len(), 1);
    assert!(candidates.contains(&['a', 'b', 'o', 'u', 't']));
}

#[test]
fn test_heuristic_guesser_mark_invalid() {
    let wordlist = vec![['a', 'p', 'p', 'l', 'e'], ['a', 'b', 'o', 'u', 't']];
    let mut ai = HeuristicGuesser::new(wordlist);

    ai.mark_invalid(['a', 'p', 'p', 'l', 'e']);

    let candidates = ai.get_candidates();
    assert_eq!(candidates.len(), 1);
    assert!(candidates.contains(&['a', 'b', 'o', 'u', 't']));
}

#[test]
fn test_heuristic_guesser_reset() {
    let wordlist = vec![['a', 'p', 'p', 'l', 'e'], ['h', 'e', 'l', 'l', 'o']];
    let mut ai = HeuristicGuesser::new(wordlist.clone());

    ai.update(['a', 'p', 'p', 'l', 'e'], [LetterResult::Correct; 5]);
    ai.mark_invalid(['h', 'e', 'l', 'l', 'o']);
    ai.reset();

    let candidates = ai.get_candidates();
    assert_eq!(candidates.len(), 2);
}

#[test]
fn heuristic_empty_list_gives_nothing() {
    let ai = HeuristicGuesser::new(vec![]);
    assert_eq!(ai.make_guess(&xlogx_table(0)), None);
}

#[test]
fn frequencies_list_only_present_letters() {
    let ai = HeuristicGuesser::new(vec![]);
    assert!(ai.calculate_letter_frequencies(&vec![]).is_empty());
    let counts = ai.calculate_letter_frequencies(&vec![['a', 'a', 'b', 'b', 'c'], ['c', 'd', 'd', 'd', 'd']]);
    let mut sorted = counts.clone();
    sorted.sort();
    assert_eq!(sorted, vec![('a', 1), ('b', 1), ('c', 2), ('d', 1)]);
}
