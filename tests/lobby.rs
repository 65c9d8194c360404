use just_one::games::just_one::JustOneMove;
use just_one::games::GameType;
use just_one::lobby::{InMsg, Lobby, LobbyInMsg, LobbyOutMsg, LobbyState, OutMsg};

fn s(x: &str) -> String {
    x.to_string()
}

fn msg(uid: &str, cmd: LobbyInMsg) -> InMsg {
    InMsg { uid: s(uid), cmd }
}

fn lobby() -> Lobby {
    Lobby::new(s("room"), vec![s("w1"), s("w2"), s("w3")])
}

fn is_error_to(out: &[OutMsg], uid: &str) -> bool {
    out.len() == 1 && out[0].to == uid && matches!(out[0].msg, LobbyOutMsg::Error { .. })
}

#[test]
fn join_broadcasts_members_and_tells_game() {
    let mut l = lobby();
    let members = vec![s("A"), s("B")];
    let out = l.handle_msg(msg("B", LobbyInMsg::Join { user_id: s("B") }), &members);
    assert_eq!(out.len(), 3);
    for (i, m) in members.iter().enumerate() {
        assert_eq!(&out[i].to, m);
        match &out[i].msg {
            LobbyOutMsg::Members(v) => assert_eq!(v, &members),
            _ => panic!("expected members"),
        }
    }
    assert_eq!(out[2].to, "B");
    assert!(matches!(out[2].msg, LobbyOutMsg::SelectedGame(GameType::JustOne)));
}

#[test]
fn requests_outside_a_game() {
    let mut l = lobby();
    let members = vec![s("A"), s("B")];
    assert_eq!(l.state(), LobbyState::InLobby);
    let out = l.handle_msg(msg("A", LobbyInMsg::GameMove { action: Ok(JustOneMove::NextRound) }), &members);
    assert!(is_error_to(&out, "A"));
    assert!(l.handle_msg(msg("A", LobbyInMsg::Leave), &members).is_empty());
    let out = l.handle_msg(msg("B", LobbyInMsg::GetUsers), &members);
    assert_eq!(out.len(), 1);
    assert_eq!(out[0].to, "B");
    assert!(matches!(&out[0].msg, LobbyOutMsg::Members(v) if v == &members));
    let out = l.handle_msg(msg("B", LobbyInMsg::GetGameData), &members);
    assert!(matches!(out[0].msg, LobbyOutMsg::SelectedGame(GameType::JustOne)));
}

#[test]
fn start_broadcasts_each_members_view() {
    let mut l = lobby();
    let members = vec![s("A"), s("B")];
    let out = l.handle_msg(msg("B", LobbyInMsg::Start), &members);
    assert_eq!(l.state(), LobbyState::InGame);
    assert_eq!(out.len(), 2);
    match (&out[0].msg, &out[1].msg) {
        (LobbyOutMsg::GameState(a), LobbyOutMsg::GameState(b)) => {
            assert_eq!(out[0].to, "A");
            assert_eq!(a.rounds[0].word, "");
            assert_ne!(b.rounds[0].word, "");
        }
        _ => panic!("expected game states"),
    }
    let out = l.handle_msg(msg("B", LobbyInMsg::Start), &members);
    assert!(is_error_to(&out, "B"));
}

#[test]
fn refused_move_goes_only_to_sender() {
    let mut l = lobby();
    let members = vec![s("A"), s("B"), s("C")];
    l.handle_msg(msg("A", LobbyInMsg::Start), &members);
    let out = l.handle_msg(msg("A", LobbyInMsg::GameMove { action: Ok(JustOneMove::Hint(s("x"))) }), &members);
    assert!(is_error_to(&out, "A"));
    match &out[0].msg {
        LobbyOutMsg::Error { msg } => assert!(msg.starts_with("Invalid Move: ")),
        _ => panic!("expected error"),
    }
    let out = l.handle_msg(msg("B", LobbyInMsg::GameMove { action: Err(s("bad")) }), &members);
    assert!(matches!(&out[0].msg, LobbyOutMsg::Error { msg } if msg == "Invalid Move: bad"));
    let out = l.handle_msg(msg("B", LobbyInMsg::GameMove { action: Ok(JustOneMove::Hint(s("x"))) }), &members);
    assert_eq!(out.len(), 3);
    match &out[1].msg {
        LobbyOutMsg::GameState(g) => assert_eq!(g.rounds[0].hints[0].1.val, "x"),
        _ => panic!("expected game state"),
    }
    match &out[0].msg {
        LobbyOutMsg::GameState(g) => assert_eq!(g.rounds[0].hints[0].1.val, ""),
        _ => panic!("expected game state"),
    }
}
