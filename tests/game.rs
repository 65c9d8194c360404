use just_one::games::just_one::{GameData, InvalidMove, JustOneMove, RoundState};

fn s(x: &str) -> String {
    x.to_string()
}

fn game() -> GameData {
    GameData::new(vec![s("A"), s("B"), s("C")], vec![s("w1"), s("w2")])
}

#[test]
fn new_game_starts_first_round_with_first_player() {
    let g = game();
    assert_eq!(g.round, 1);
    assert_eq!(g.rounds.len(), 1);
    assert_eq!(g.rounds[0].guesser, "A");
    assert_eq!(g.rounds[0].cur_state, RoundState::GivingHints);
    let mut words = g.words.clone();
    words.sort();
    assert_eq!(words, vec![s("w1"), s("w2")]);
    assert_eq!(g.rounds[0].word, g.words[0]);
}

#[test]
fn next_round_succeeds_in_any_state() {
    let mut g = game();
    assert!(g.make_move(&s("B"), Ok(JustOneMove::NextRound)).is_ok());
    assert_eq!(g.round, 2);
    assert_eq!(g.rounds[1].guesser, "B");
    assert_eq!(g.rounds[0].cur_state, RoundState::GivingHints);
    assert!(g.make_move(&s("A"), Ok(JustOneMove::NextRound)).is_ok());
    assert!(g.make_move(&s("A"), Ok(JustOneMove::NextRound)).is_ok());
    assert_eq!(g.rounds.len(), 4);
    assert_eq!(g.rounds[2].guesser, "C");
    assert_eq!(g.rounds[3].guesser, "A");
    assert_eq!(g.rounds[2].word, g.rounds[0].word);
    assert_eq!(g.rounds[3].word, g.rounds[1].word);
    assert_ne!(g.rounds[0].word, g.rounds[1].word);
}

#[test]
fn undecodable_move_is_reported() {
    let mut g = game();
    match g.make_move(&s("B"), Err(s("missing field"))) {
        Err(InvalidMove::CouldNotParse { msg }) => assert_eq!(msg, "missing field"),
        other => panic!("unexpected {:?}", other),
    }
}

#[test]
fn moves_go_to_the_current_round() {
    let mut g = game();
    g.make_move(&s("A"), Ok(JustOneMove::NextRound)).unwrap();
    assert!(matches!(
        g.make_move(&s("B"), Ok(JustOneMove::Hint(s("x")))),
        Err(InvalidMove::NotYourTurn { .. })
    ));
    g.make_move(&s("A"), Ok(JustOneMove::Hint(s("x")))).unwrap();
    g.make_move(&s("C"), Ok(JustOneMove::Hint(s("X")))).unwrap();
    assert_eq!(g.rounds[1].cur_state, RoundState::RemovingDuplicates);
    assert!(g.rounds[0].hints.is_empty());
    g.make_move(&s("A"), Ok(JustOneMove::SetUnique { hint_id: s("C") })).unwrap();
    g.make_move(&s("C"), Ok(JustOneMove::SetDuplicate { hint_id: s("A") })).unwrap();
    g.make_move(&s("C"), Ok(JustOneMove::RevealHints)).unwrap();
    let word = g.rounds[1].word.to_uppercase();
    g.make_move(&s("B"), Ok(JustOneMove::Guess(s("nope")))).unwrap();
    g.make_move(&s("A"), Ok(JustOneMove::CorrectGuess)).unwrap();
    assert!(g.rounds[1].guesses[0].is_correct);
    g.make_move(&s("A"), Ok(JustOneMove::WrongGuess)).unwrap();
    assert!(!g.rounds[1].guesses[0].is_correct);
    g.make_move(&s("B"), Ok(JustOneMove::Guess(word))).unwrap();
    assert_eq!(g.rounds[1].cur_state, RoundState::RoundFinished);
}

#[test]
fn game_view_redacts_only_the_current_round() {
    let mut g = game();
    g.make_move(&s("B"), Ok(JustOneMove::Hint(s("h")))).unwrap();
    g.make_move(&s("B"), Ok(JustOneMove::NextRound)).unwrap();
    let v = g.filter("A");
    assert_eq!(v.rounds.len(), 2);
    assert_eq!(v.rounds[0].word, g.rounds[0].word);
    assert_eq!(v.rounds[0].hints[0].1.val, "h");
    assert_eq!(v.rounds[1].word, g.rounds[1].word);
    let v = g.filter("B");
    assert_eq!(v.rounds[1].word, "");
    assert_eq!(v.round, 2);
    assert!(v.words.is_empty());
}
