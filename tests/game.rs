use wordle_ai::feedback::{cycle_feedback, feedback_from_chars};
use wordle_ai::game::{Game, GameError, GuessResult, WordListError};
use wordle_ai::strategy::simulate_game;
use wordle_ai::text::{parse_wordlist, uppercase_display, word_from_chars};
use wordle_ai::{create_ai, AIType, LetterResult};

use LetterResult::{Absent, Correct, Misplaced};

fn xlogx_table(n: usize) -> Vec<u64> {
    (0..=n)
        .map(|c| {
            let x = c as f64;
            if c < 2 { 0 } else { (x * x.log2() * 4294967296.0).round() as u64 }
        })
        .collect()
}

#[test]
fn empty_dictionary_is_an_error() {
    assert!(matches!(Game::new(6, vec![]), Err(WordListError::WordListEmpty)));
}

#[test]
fn single_word_game_is_won_at_once() {
    let w = ['c', 'r', 'a', 'n', 'e'];
    let mut game = Game::new(6, vec![w]).unwrap();
    assert_eq!(game.attempts(), 0);
    assert!(matches!(game.take_guess(&w), Ok(GuessResult::Won(r)) if r == [LetterResult::Correct; 5]));
    assert_eq!(game.attempts(), 1);
}

#[test]
fn unknown_words_are_refused_and_not_counted() {
    let mut game = Game::new(6, vec![['c', 'r', 'a', 'n', 'e']]).unwrap();
    assert!(matches!(game.take_guess(&['z', 'z', 'z', 'z', 'z']), Err(GameError::WordNotInList)));
    assert_eq!(game.attempts(), 0);
    assert!(game.has_attempts_left());
}

#[test]
fn last_attempt_loses() {
    let secret = ['c', 'r', 'a', 'n', 'e'];
    let other = ['s', 'l', 'a', 't', 'e'];
    // draw until the secret is the first word
    let mut game = loop {
        let g = Game::new(2, vec![secret, other]).unwrap();
        let mut copy = g.clone_game();
        if matches!(copy.take_guess(&secret), Ok(GuessResult::Won(_))) {
            break g;
        }
    };
    assert!(matches!(game.take_guess(&other), Ok(GuessResult::Continue(_))));
    match game.take_guess(&other) {
        Ok(GuessResult::Lost { last_guess, solution }) => {
            assert_eq!(solution, secret);
            assert_eq!(
                last_guess,
                [LetterResult::Absent, LetterResult::Absent, LetterResult::Correct, LetterResult::Absent, LetterResult::Correct]
            );
        }
        _ => panic!("expected a loss"),
    }
    assert!(!game.has_attempts_left());
    assert_eq!(game.max_attempts(), 2);
}

#[test]
fn simulated_games_end() {
    let words = vec![
        ['c', 'r', 'a', 'n', 'e'],
        ['s', 'l', 'a', 't', 'e'],
        ['t', 'r', 'a', 'c', 'e'],
        ['b', 'r', 'i', 'c', 'k'],
    ];
    let table = xlogx_table(words.len());
    for ai_type in [AIType::Random, AIType::RandomUpdates, AIType::Heuristic, AIType::Entropy] {
        let game = Game::new(6, words.clone()).unwrap();
        let mut ai = create_ai(ai_type, words.clone());
        let n = simulate_game(&mut ai, &game, &table);
        // four words and six attempts: every strategy finds the secret
        let n = n.unwrap();
        assert!((1..=4).contains(&n));
    }
}

#[test]
fn strategy_with_words_outside_the_dictionary() {
    let dictionary = vec![['c', 'r', 'a', 'n', 'e']];
    let game = Game::new(6, dictionary).unwrap();
    let words = vec![['z', 'z', 'z', 'z', 'z'], ['c', 'r', 'a', 'n', 'e']];
    let table = xlogx_table(words.len());
    let mut ai = create_ai(AIType::Entropy, words);
    // two candidates: the first is guessed and refused, which counts, then the secret
    assert_eq!(simulate_game(&mut ai, &game, &table), Some(2));
}

#[test]
fn word_list_lines() {
    let lines: Vec<Vec<char>> = ["crane", "toolong", "", "slate", "abc"].iter().map(|l| l.chars().collect()).collect();
    assert_eq!(parse_wordlist(&lines), vec![['c', 'r', 'a', 'n', 'e'], ['s', 'l', 'a', 't', 'e']]);
    assert_eq!(word_from_chars(&"äpfel".chars().collect()), Some(['ä', 'p', 'f', 'e', 'l']));
    assert_eq!(word_from_chars(&vec!['a']), None);
}

#[test]
fn tiles_show_uppercase() {
    assert_eq!(uppercase_display('a'), 'A');
    assert_eq!(uppercase_display('z'), 'Z');
    assert_eq!(uppercase_display('ä'), 'Ä');
    assert_eq!(uppercase_display('ß'), 'ß');
    assert_eq!(uppercase_display('Q'), 'Q');
}

#[test]
fn feedback_letters() {
    assert_eq!(
        feedback_from_chars(&"cmaac".chars().collect()),
        Some([LetterResult::Correct, LetterResult::Misplaced, LetterResult::Absent, LetterResult::Absent, LetterResult::Correct])
    );
    assert_eq!(feedback_from_chars(&"cmaa".chars().collect()), None);
    assert_eq!(feedback_from_chars(&"cmaax".chars().collect()), None);
}

#[test]
fn tile_status_cycles() {
    assert_eq!(cycle_feedback(None, true), Misplaced);
    assert_eq!(cycle_feedback(Some(Absent), true), Misplaced);
    assert_eq!(cycle_feedback(Some(Misplaced), true), Correct);
    assert_eq!(cycle_feedback(Some(Correct), true), Absent);
    assert_eq!(cycle_feedback(None, false), Absent);
    assert_eq!(cycle_feedback(Some(Absent), false), Correct);
    assert_eq!(cycle_feedback(Some(Misplaced), false), Absent);
    assert_eq!(cycle_feedback(Some(Correct), false), Misplaced);
}
