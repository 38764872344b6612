use wordle_ai::{create_ai, take_guess, AIType, HeuristicGuesser, LetterResult};

const SCALE: f64 = 4294967296.0;

fn xlogx_table(n: usize) -> Vec<u64> {
    (0..=n)
        .map(|c| {
            let x = c as f64;
            if c < 2 { 0 } else { (x * x.log2() * SCALE).round() as u64 }
        })
        .collect()
}

const ALL: [AIType; 4] = [AIType::Random, AIType::RandomUpdates, AIType::Heuristic, AIType::Entropy];

#[test]
fn names() {
    assert_eq!(AIType::Random.name(), "Random Guesser");
    assert_eq!(AIType::RandomUpdates.name(), "Random with Updates");
    assert_eq!(AIType::Heuristic.name(), "Heuristic Guesser");
    assert_eq!(AIType::Entropy.name(), "Entropy Guesser");
}

#[test]
fn filtering_after_apple_leaves_about() {
    let wordlist = vec![['a', 'p', 'p', 'l', 'e'], ['a', 'b', 'o', 'u', 't'], ['h', 'e', 'l', 'l', 'o']];
    let mut ai = HeuristicGuesser::new(wordlist);
    ai.update(['a', 'p', 'p', 'l', 'e'], [
        LetterResult::Correct,
        LetterResult::Absent,
        LetterResult::Absent,
        LetterResult::Absent,
        LetterResult::Absent,
    ]);
    assert_eq!(ai.get_candidates(), vec![['a', 'b', 'o', 'u', 't']]);
}

#[test]
fn every_strategy_is_exhausted_by_invalid_words() {
    let wordlist = vec![['a', 'p', 'p', 'l', 'e'], ['a', 'b', 'o', 'u', 't']];
    let table = xlogx_table(wordlist.len());
    for ai_type in ALL {
        let mut ai = create_ai(ai_type, wordlist.clone());
        assert_eq!(ai.ai_type(), ai_type);
        for w in &wordlist {
            ai.mark_invalid(*w);
        }
        assert_eq!(ai.make_guess(&table), None);
    }
}

#[test]
fn reset_behaves_as_new() {
    let wordlist = vec![
        ['c', 'r', 'a', 'n', 'e'],
        ['s', 'l', 'a', 't', 'e'],
        ['t', 'r', 'a', 'c', 'e'],
        ['b', 'r', 'i', 'c', 'k'],
    ];
    let table = xlogx_table(wordlist.len());
    for ai_type in [AIType::Heuristic, AIType::Entropy] {
        let mut used = create_ai(ai_type, wordlist.clone());
        let g = used.make_guess(&table).unwrap();
        used.update(g, take_guess(&['b', 'r', 'i', 'c', 'k'], &g));
        used.mark_invalid(['s', 'l', 'a', 't', 'e']);
        used.reset();
        let mut fresh = create_ai(ai_type, wordlist.clone());
        assert_eq!(used.make_guess(&table), fresh.make_guess(&table));
    }
    let mut used = create_ai(AIType::Random, wordlist.clone());
    while used.make_guess(&table).is_some() {}
    used.reset();
    let mut seen = Vec::new();
    while let Some(g) = used.make_guess(&table) {
        seen.push(g);
    }
    seen.sort();
    let mut all = wordlist.clone();
    all.sort();
    assert_eq!(seen, all);
}

#[test]
fn strategies_solve_a_small_puzzle() {
    let wordlist = vec![
        ['c', 'r', 'a', 'n', 'e'],
        ['s', 'l', 'a', 't', 'e'],
        ['t', 'r', 'a', 'c', 'e'],
        ['b', 'r', 'i', 'c', 'k'],
        ['p', 'r', 'i', 'c', 'k'],
        ['t', 'r', 'i', 'c', 'k'],
    ];
    let table = xlogx_table(wordlist.len());
    let secret = ['t', 'r', 'i', 'c', 'k'];
    for ai_type in [AIType::RandomUpdates, AIType::Heuristic, AIType::Entropy] {
        let mut ai = create_ai(ai_type, wordlist.clone());
        let mut solved = false;
        for _ in 0..6 {
            let g = ai.make_guess(&table).unwrap();
            let r = take_guess(&secret, &g);
            if r == [LetterResult::Correct; 5] {
                solved = true;
                break;
            }
            ai.update(g, r);
        }
        assert!(solved, "{:?}", ai_type);
    }
}
