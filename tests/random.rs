use wordle_ai::{LetterResult, RandomGuesser, RandomWithUpdates};

#[test]
fn test_random_guesser_makes_guesses() {
    let wordlist = vec![
        ['h', 'e', 'l', 'l', 'o'],
        ['w', 'o', 'r', 'l', 'd'],
        ['t', 'e', 's', 't', 's'],
    ];
    let mut guesser = RandomGuesser::with_seed(wordlist.clone(), 42);

    let guess1 = guesser.make_guess();
    assert!(guess1.is_some());

    let guess2 = guesser.make_guess();
    assert!(guess2.is_some());

    let guess3 = guesser.make_guess();
    assert!(guess3.is_some());

    let guess4 = guesser.make_guess();
    assert!(guess4.is_none());
}

#[test]
fn test_random_guesser_no_duplicates() {
    let wordlist = vec![
        ['h', 'e', 'l', 'l', 'o'],
        ['w', 'o', 'r', 'l', 'd'],
        ['t', 'e', 's', 't', 's'],
    ];
    let mut guesser = RandomGuesser::with_seed(wordlist.clone(), 42);

    let guess1 = guesser.make_guess().unwrap();
    let guess2 = guesser.make_guess().unwrap();
    let guess3 = guesser.make_guess().unwrap();

    assert_ne!(guess1, guess2);
    assert_ne!(guess2, guess3);
    assert_ne!(guess1, guess3);

    assert!(wordlist.contains(&guess1));
    assert!(wordlist.contains(&guess2));
    assert!(wordlist.contains(&guess3));
}

#[test]
fn test_random_guesser_reset() {
    let wordlist = vec![['h', 'e', 'l', 'l', 'o'], ['w', 'o', 'r', 'l', 'd']];
    let mut guesser = RandomGuesser::with_seed(wordlist.clone(), 42);

    guesser.make_guess();
    guesser.make_guess();

    assert!(guesser.make_guess().is_none());

    guesser.reset();
    assert!(guesser.make_guess().is_some());
}

#[test]
fn test_random_guesser_ignores_update() {
    let wordlist = vec![
        ['h', 'e', 'l', 'l', 'o'],
        ['w', 'o', 'r', 'l', 'd'],
        ['t', 'e', 's', 't', 's'],
    ];
    let mut guesser = RandomGuesser::with_seed(wordlist.clone(), 42);

    let guess1 = guesser.make_guess().unwrap();

    guesser.update(guess1, [LetterResult::Absent; 5]);

    let guess2 = guesser.make_guess();
    assert!(guess2.is_some());
}

#[test]
fn random_guesser_skips_invalid_words() {
    let wordlist = vec![['h', 'e', 'l', 'l', 'o'], ['w', 'o', 'r', 'l', 'd']];
    let mut guesser = RandomGuesser::new(wordlist.clone());
    guesser.mark_invalid(['h', 'e', 'l', 'l', 'o']);
    assert_eq!(guesser.make_guess(), Some(['w', 'o', 'r', 'l', 'd']));
    assert_eq!(guesser.make_guess(), None);
}

#[test]
fn same_seed_same_guesses() {
    let wordlist: Vec<[char; 5]> = (0..20u8).map(|i| ['a', 'b', 'c', 'd', (b'a' + i) as char]).collect();
    let mut a = RandomGuesser::with_seed(wordlist.clone(), 7);
    let mut b = RandomGuesser::with_seed(wordlist.clone(), 7);
    for _ in 0..20 {
        assert_eq!(a.make_guess(), b.make_guess());
    }
}

#[test]
fn random_with_updates_draws_the_only_candidate() {
    let wordlist = vec![['a', 'p', 'p', 'l', 'e'], ['a', 'b', 'o', 'u', 't']];
    let mut ai = RandomWithUpdates::with_seed(wordlist, 42);
    ai.update(['e', 'e', 'e', 'e', 'e'], [LetterResult::Absent; 5]);
    // 'e' is gone: only "about" is left, so every draw gives it
    for _ in 0..5 {
        assert_eq!(ai.make_guess(), Some(['a', 'b', 'o', 'u', 't']));
    }
}

#[test]
fn test_random_with_updates_filters_candidates() {
    let wordlist = vec![
        ['a', 'p', 'p', 'l', 'e'],
        ['a', 'b', 'o', 'u', 't'],
        ['h', 'e', 'l', 'l', 'o'],
    ];
    let mut ai = RandomWithUpdates::with_seed(wordlist, 42);

    let guess = ['a', 'p', 'p', 'l', 'e'];
    let result = [
        LetterResult::Correct,
        LetterResult::Absent,
        LetterResult::Absent,
        LetterResult::Absent,
        LetterResult::Absent,
    ];
    ai.update(guess, result);

    let candidates = ai.get_candidates();
    assert_eq!(candidates.len(), 1);
    assert!(candidates.contains(&['a', 'b', 'o', 'u', 't']));
    assert!(!candidates.contains(&['a', 'p', 'p', 'l', 'e']));
    assert!(!candidates.contains(&['h', 'e', 'l', 'l', 'o']));
}

#[test]
fn test_random_with_updates_mark_invalid() {
    let wordlist = vec![['a', 'p', 'p', 'l', 'e'], ['a', 'b', 'o', 'u', 't']];
    let mut ai = RandomWithUpdates::with_seed(wordlist, 42);

    ai.mark_invalid(['a', 'p', 'p', 'l', 'e']);

    let candidates = ai.get_candidates();
    assert_eq!(candidates.len(), 1);
    assert!(candidates.contains(&['a', 'b', 'o', 'u', 't']));
}

#[test]
fn test_random_with_updates_reset() {
    let wordlist = vec![['a', 'p', 'p', 'l', 'e'], ['h', 'e', 'l', 'l', 'o']];
    let mut ai = RandomWithUpdates::with_seed(wordlist.clone(), 42);

    ai.update(['a', 'p', 'p', 'l', 'e'], [LetterResult::Correct; 5]);
    ai.mark_invalid(['h', 'e', 'l', 'l', 'o']);
    ai.reset();

    let candidates = ai.get_candidates();
    assert_eq!(candidates.len(), 2);
}

#[test]
fn random_with_updates_draws_candidates_only() {
    let wordlist: Vec<[char; 5]> = (0..10u8).map(|i| [(b'a' + i) as char, 'x', 'y', 'z', 'w']).collect();
    let mut ai = RandomWithUpdates::new(wordlist.clone());
    ai.mark_invalid(wordlist[0]);
    for _ in 0..30 {
        let g = ai.make_guess().unwrap();
        assert!(g != wordlist[0] && wordlist.contains(&g));
    }
}
