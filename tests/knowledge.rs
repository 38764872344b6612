use wordle_ai::{take_guess, Knowledge, LetterResult};

#[test]
fn test_knowledge_correct_letter() {
    let mut knowledge = Knowledge::new();
    let guess = ['a', 'b', 'c', 'd', 'e'];
    let result = [
        LetterResult::Correct,
        LetterResult::Absent,
        LetterResult::Absent,
        LetterResult::Absent,
        LetterResult::Absent,
    ];
    knowledge.update(guess, result);

    assert_eq!(knowledge.possible_letters[0].len(), 1);
    assert!(knowledge.possible_letters[0].contains(&'a'));

    assert!(knowledge.must_contain.get(&'a') == Some(&1));
}

#[test]
fn test_knowledge_misplaced_letter() {
    let mut knowledge = Knowledge::new();
    let guess = ['a', 'b', 'c', 'd', 'e'];
    let result = [
        LetterResult::Misplaced,
        LetterResult::Absent,
        LetterResult::Absent,
        LetterResult::Absent,
        LetterResult::Absent,
    ];
    knowledge.update(guess, result);

    assert!(!knowledge.possible_letters[0].contains(&'a'));
    assert!(knowledge.must_contain.get(&'a') == Some(&1));
    assert!(knowledge.possible_letters[1].contains(&'a'));
}

#[test]
fn test_knowledge_absent_letter() {
    let mut knowledge = Knowledge::new();
    let guess = ['z', 'b', 'c', 'd', 'e'];
    let result = [LetterResult::Absent; 5];
    knowledge.update(guess, result);

    for pos in 0..5 {
        assert!(!knowledge.possible_letters[pos].contains(&'z'));
    }
}

#[test]
fn test_knowledge_matches() {
    let mut knowledge = Knowledge::new();

    knowledge.possible_letters[0].clear();
    knowledge.possible_letters[0].insert('a');
    knowledge.must_contain.insert('e', 1);

    assert!(knowledge.matches(&['a', 'p', 'p', 'l', 'e']));
    assert!(!knowledge.matches(&['b', 'p', 'p', 'l', 'e']));
    assert!(!knowledge.matches(&['a', 'b', 'o', 'u', 't']));
}

#[test]
fn fresh_knowledge_admits_lowercase_words_only() {
    let knowledge = Knowledge::new();
    for p in 0..5 {
        assert_eq!(knowledge.possible_letters[p].len(), 26);
    }
    assert!(knowledge.matches(&['z', 'e', 'b', 'r', 'a']));
    assert!(!knowledge.matches(&['Z', 'e', 'b', 'r', 'a']));
}

#[test]
fn updates_never_widen() {
    let mut knowledge = Knowledge::new();
    let steps = [
        (['c', 'r', 'a', 'n', 'e'], take_guess(&['a', 'b', 'b', 'e', 'y'], &['c', 'r', 'a', 'n', 'e'])),
        (['b', 'e', 'a', 'd', 's'], take_guess(&['a', 'b', 'b', 'e', 'y'], &['b', 'e', 'a', 'd', 's'])),
        (['a', 'b', 'b', 'o', 't'], [LetterResult::Correct; 5]),
    ];
    for (guess, result) in steps {
        let before: Vec<usize> = (0..5).map(|p| knowledge.possible_letters[p].len()).collect();
        let counts_before: Vec<Option<u8>> =
            ('a'..='z').map(|c| knowledge.must_contain.get(&c).copied()).collect();
        knowledge.update(guess, result);
        for p in 0..5 {
            assert!(knowledge.possible_letters[p].len() <= before[p]);
        }
        for (i, c) in ('a'..='z').enumerate() {
            if let Some(old) = counts_before[i] {
                assert!(*knowledge.must_contain.get(&c).unwrap() >= old);
            }
        }
    }
}

#[test]
fn true_feedback_keeps_the_secret() {
    let secrets = [['a', 'x', 'a', 'x', 'a'], ['a', 'b', 'b', 'e', 'y'], ['s', 'p', 'e', 'e', 'd']];
    let guesses = [['a', 'b', 'a', 'c', 'a'], ['e', 'e', 'r', 'i', 'e'], ['b', 'o', 'b', 'b', 'y']];
    for secret in secrets {
        let mut knowledge = Knowledge::new();
        for guess in guesses {
            knowledge.update(guess, take_guess(&secret, &guess));
            assert!(knowledge.matches(&secret));
        }
    }
}

#[test]
fn repeated_letter_absent_is_not_a_full_exclusion() {
    let mut knowledge = Knowledge::new();
    let guess = ['a', 'b', 'a', 'c', 'a'];
    let secret = ['a', 'x', 'a', 'x', 'a'];
    knowledge.update(guess, take_guess(&secret, &guess));
    assert!(knowledge.matches(&secret));
    // an Absent 'a' among positive ones only rules 'a' out where it stood
    let mut k2 = Knowledge::new();
    k2.update(
        ['a', 'a', 'y', 'a', 'a'],
        [LetterResult::Correct, LetterResult::Misplaced, LetterResult::Absent, LetterResult::Absent, LetterResult::Correct],
    );
    assert!(k2.possible_letters[2].contains(&'a'));
    assert!(!k2.possible_letters[3].contains(&'a'));
    assert!(k2.must_contain.get(&'a') == Some(&3));
    assert!(k2.matches(&secret));
}

#[test]
fn correct_position_survives_later_absent() {
    let mut knowledge = Knowledge::new();
    knowledge.update(['s', 'a', 'l', 'e', 's'], [
        LetterResult::Correct,
        LetterResult::Absent,
        LetterResult::Absent,
        LetterResult::Absent,
        LetterResult::Absent,
    ]);
    assert!(knowledge.fixed_positions[0]);
    assert!(knowledge.possible_letters[0].contains(&'s'));
    assert!(!knowledge.possible_letters[4].contains(&'s'));
    assert!(!knowledge.possible_letters[2].contains(&'a'));
}

#[test]
fn contradictory_correct_does_not_widen() {
    let mut knowledge = Knowledge::new();
    knowledge.update(['a', 'b', 'c', 'd', 'e'], [LetterResult::Absent; 5]);
    assert!(!knowledge.possible_letters[0].contains(&'a'));
    let before = knowledge.possible_letters[0].len();
    // 'a' was ruled out at the first position: a Correct 'a' there leaves nothing possible
    knowledge.update(['a', 'f', 'g', 'h', 'i'], [
        LetterResult::Correct,
        LetterResult::Absent,
        LetterResult::Absent,
        LetterResult::Absent,
        LetterResult::Absent,
    ]);
    assert_eq!(knowledge.possible_letters[0].len(), 0);
    assert!(knowledge.possible_letters[0].len() <= before);
    assert!(!knowledge.matches(&['a', 'x', 'y', 'z', 'w']));
}
