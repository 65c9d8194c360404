use just_one::games::just_one::round::duplicate_flags;
use just_one::games::just_one::{InvalidMove, RoundData, RoundState};

fn s(x: &str) -> String {
    x.to_string()
}

fn abc_round() -> RoundData {
    RoundData::new(vec![s("A"), s("B"), s("C")], s("A"), s("Apple"))
}

fn hint_of<'a>(r: &'a RoundData, user: &str) -> (&'a str, bool) {
    let e = r.hints.iter().find(|e| e.0 == user).expect("hint present");
    (e.1.val.as_str(), e.1.duplicate)
}

#[test]
fn same_hint_in_two_cases_is_duplicate_and_hidden_from_guesser() {
    let mut r = abc_round();
    assert!(r.give_hint(&s("B"), s("Apple")).is_ok());
    assert_eq!(r.cur_state, RoundState::GivingHints);
    assert!(r.give_hint(&s("C"), s("apple")).is_ok());
    assert_eq!(hint_of(&r, "B"), ("Apple", true));
    assert_eq!(hint_of(&r, "C"), ("apple", true));
    assert_eq!(r.cur_state, RoundState::RemovingDuplicates);

    let a_view = r.filter("A");
    assert_eq!(hint_of(&a_view, "B"), ("", true));
    assert_eq!(hint_of(&a_view, "C"), ("", true));
    assert_eq!(a_view.word, "");

    let c_view = r.filter("C");
    assert_eq!(hint_of(&c_view, "B"), ("Apple", true));
    assert_eq!(hint_of(&c_view, "C"), ("apple", true));
    assert_eq!(c_view.word, "Apple");
    assert_eq!(r.word, "Apple");
}

#[test]
fn distinct_hints_are_unique_and_round_advances() {
    let mut r = abc_round();
    assert!(r.give_hint(&s("B"), s("apple")).is_ok());
    assert!(r.give_hint(&s("C"), s("banana")).is_ok());
    assert_eq!(hint_of(&r, "B"), ("apple", false));
    assert_eq!(hint_of(&r, "C"), ("banana", false));
    assert_eq!(r.cur_state, RoundState::RemovingDuplicates);
}

#[test]
fn guesser_cannot_hint() {
    let mut r = abc_round();
    assert!(matches!(r.give_hint(&s("A"), s("x")), Err(InvalidMove::NotYourTurn { .. })));
    assert!(r.hints.is_empty());
}

#[test]
fn hint_outside_hint_phase_is_refused() {
    let mut r = abc_round();
    r.done_removing_dupes("B").unwrap();
    assert!(matches!(r.give_hint(&s("B"), s("x")), Err(InvalidMove::WrongState { .. })));
}

#[test]
fn repeated_hint_overwrites() {
    let mut r = abc_round();
    r.give_hint(&s("B"), s("one")).unwrap();
    r.give_hint(&s("B"), s("two")).unwrap();
    assert_eq!(r.hints.len(), 1);
    assert_eq!(hint_of(&r, "B"), ("two", false));
    assert_eq!(r.cur_state, RoundState::GivingHints);
}

#[test]
fn state_advances_on_user_count_not_content() {
    let mut r = RoundData::new(vec![s("A"), s("B"), s("C"), s("D")], s("A"), s("w"));
    r.give_hint(&s("B"), s("same")).unwrap();
    r.give_hint(&s("B"), s("SAME")).unwrap();
    r.give_hint(&s("C"), s("same")).unwrap();
    assert_eq!(r.cur_state, RoundState::GivingHints);
    r.give_hint(&s("D"), s("other")).unwrap();
    assert_eq!(r.cur_state, RoundState::RemovingDuplicates);
    assert_eq!(hint_of(&r, "B"), ("SAME", true));
    assert_eq!(hint_of(&r, "D"), ("other", false));
}

#[test]
fn manual_marks_are_reset_by_next_hint() {
    let mut r = RoundData::new(vec![s("A"), s("B"), s("C"), s("D")], s("A"), s("w"));
    r.give_hint(&s("B"), s("cat")).unwrap();
    r.set_duplicate("C", "B").unwrap();
    assert_eq!(hint_of(&r, "B"), ("cat", true));
    r.give_hint(&s("C"), s("dog")).unwrap();
    assert_eq!(hint_of(&r, "B"), ("cat", false));
    r.give_hint(&s("D"), s("Dog")).unwrap();
    r.set_unique("B", "C").unwrap();
    assert_eq!(hint_of(&r, "C"), ("dog", false));
    assert_eq!(hint_of(&r, "D"), ("Dog", true));
}

#[test]
fn marking_needs_a_hint_and_a_non_guesser() {
    let mut r = abc_round();
    assert!(matches!(r.set_duplicate("B", "C"), Err(InvalidMove::InvalidUser { .. })));
    r.give_hint(&s("C"), s("x")).unwrap();
    assert!(matches!(r.set_unique("A", "C"), Err(InvalidMove::NotYourTurn { .. })));
    assert!(r.set_duplicate("B", "C").is_ok());
    assert_eq!(hint_of(&r, "C"), ("x", true));
}

#[test]
fn guess_matches_word_ignoring_case() {
    let mut r = abc_round();
    r.done_removing_dupes("B").unwrap();
    assert_eq!(r.cur_state, RoundState::Guessing);
    r.guess("A", s("pear")).unwrap();
    assert_eq!(r.cur_state, RoundState::Guessing);
    assert_eq!(r.guesses.len(), 1);
    assert!(!r.guesses[0].is_correct);
    r.guess("A", s("APPLE")).unwrap();
    assert_eq!(r.cur_state, RoundState::RoundFinished);
    assert_eq!(r.guesses.len(), 2);
    assert_eq!(r.guesses[1].val, "APPLE");
    assert!(r.guesses[1].is_correct);
    assert!(!r.guesses[1].user_check);
}

#[test]
fn only_guesser_guesses_and_only_while_guessing() {
    let mut r = abc_round();
    assert!(matches!(r.guess("B", s("apple")), Err(InvalidMove::NotYourTurn { .. })));
    assert!(matches!(r.guess("A", s("apple")), Err(InvalidMove::WrongState { .. })));
    assert!(r.guesses.is_empty());
}

#[test]
fn reveal_is_accepted_in_any_phase_but_not_from_guesser() {
    let mut r = abc_round();
    assert!(matches!(r.done_removing_dupes("A"), Err(InvalidMove::NotYourTurn { .. })));
    assert_eq!(r.cur_state, RoundState::GivingHints);
    r.done_removing_dupes("C").unwrap();
    assert_eq!(r.cur_state, RoundState::Guessing);
}

#[test]
fn judging_a_guess() {
    let mut r = abc_round();
    assert!(matches!(r.set_guess_correctness("A", true), Err(InvalidMove::NotYourTurn { .. })));
    assert!(matches!(r.set_guess_correctness("B", true), Err(InvalidMove::WrongState { .. })));
    r.done_removing_dupes("B").unwrap();
    assert!(matches!(r.set_guess_correctness("B", true), Err(InvalidMove::WrongState { .. })));
    r.guess("A", s("apples")).unwrap();
    r.set_guess_correctness("B", true).unwrap();
    assert!(r.guesses[0].is_correct);
    assert!(r.guesses[0].user_check);
    assert_eq!(r.cur_state, RoundState::Guessing);
}

#[test]
fn guesser_view_during_guessing_shows_unique_hints_only() {
    let mut r = RoundData::new(vec![s("A"), s("B"), s("C"), s("D")], s("A"), s("w"));
    r.give_hint(&s("B"), s("x")).unwrap();
    r.give_hint(&s("C"), s("X")).unwrap();
    r.give_hint(&s("D"), s("y")).unwrap();
    r.done_removing_dupes("B").unwrap();
    let v = r.filter("A");
    assert_eq!(hint_of(&v, "B"), ("", true));
    assert_eq!(hint_of(&v, "C"), ("", true));
    assert_eq!(hint_of(&v, "D"), ("y", false));
    assert_eq!(v.word, "");
    r.guess("A", s("W")).unwrap();
    let v = r.filter("A");
    assert_eq!(v.word, "w");
    assert_eq!(v.guesses.len(), 1);
    let b = r.filter("B");
    assert_eq!(hint_of(&b, "C"), ("X", true));
}

#[test]
fn duplicate_flags_counts_equal_texts() {
    let v = vec![s("a"), s("b"), s("a"), s("c")];
    assert_eq!(duplicate_flags(&v), vec![true, false, true, false]);
    assert_eq!(duplicate_flags(&Vec::new()), Vec::<bool>::new());
}

#[test]
fn guess_against_given_lower_case_forms() {
    let mut r = abc_round();
    r.done_removing_dupes("B").unwrap();
    r.guess_folded("A", s("Pear"), &s("pear"), &s("apple")).unwrap();
    assert_eq!(r.cur_state, RoundState::Guessing);
    assert!(!r.guesses[0].is_correct);
    assert!(matches!(
        r.guess_folded("C", s("x"), &s("x"), &s("x")),
        Err(InvalidMove::NotYourTurn { .. })
    ));
    r.guess_folded("A", s("Whatever"), &s("same"), &s("same")).unwrap();
    assert_eq!(r.cur_state, RoundState::RoundFinished);
    assert_eq!(r.guesses[1].val, "Whatever");
    assert!(r.guesses[1].is_correct);
}
