use wordle_ai::{take_guess, LetterResult};

use LetterResult::{Absent, Correct, Misplaced};

#[test]
fn test_take_guess() {
    let solution = ['a', 'b', 'c', 'd', 'e'];
    let guess = ['a', 'c', 'e', 'd', 'f'];
    let result = take_guess(&solution, &guess);
    assert_eq!(result, [Correct, Misplaced, Misplaced, Correct, Absent]);
}

#[test]
fn test_take_guess_double_letters() {
    let solution = ['a', 'a', 'b', 'c', 'd'];
    let guess = ['a', 'b', 'a', 'c', 'a'];
    let result = take_guess(&solution, &guess);
    assert_eq!(result, [Correct, Misplaced, Misplaced, Correct, Absent]);
}

#[test]
fn test_take_guess_double_letters_at_start_and_end() {
    let solution = ['a', 'x', 'a', 'x', 'a'];
    let guess = ['a', 'a', 'y', 'a', 'a'];
    let result = take_guess(&solution, &guess);
    assert_eq!(result, [Correct, Misplaced, Absent, Absent, Correct]);
}

#[test]
fn repeated_letters_score_left_to_right() {
    let secret = ['a', 'x', 'a', 'x', 'a'];
    let guess = ['a', 'b', 'a', 'c', 'a'];
    // every 'a' of the guess is in place here
    assert_eq!(take_guess(&secret, &guess), [Correct, Absent, Correct, Absent, Correct]);
    let guess = ['b', 'a', 'a', 'a', 'c'];
    assert_eq!(take_guess(&secret, &guess), [Absent, Misplaced, Correct, Misplaced, Absent]);
}

#[test]
fn exact_match_is_all_correct() {
    let w = ['c', 'r', 'a', 'n', 'e'];
    assert_eq!(take_guess(&w, &w), [Correct; 5]);
}

#[test]
fn disjoint_words_are_all_absent() {
    assert_eq!(take_guess(&['a', 'b', 'c', 'd', 'e'], &['f', 'g', 'h', 'i', 'j']), [Absent; 5]);
}
