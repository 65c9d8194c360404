use just_one::lobby_manager::{LobbyError, LobbyManager};

fn s(x: &str) -> String {
    x.to_string()
}

#[test]
fn admission_follows_room_lifecycle() {
    let mut m = LobbyManager::new();
    assert_eq!(m.add_user(&s("r"), &s("u")), Err(LobbyError::LobbyDoesNotExist));
    m.create_lobby(s("r"));
    assert_eq!(m.add_user(&s("r"), &s("u")), Ok(()));
    assert_eq!(m.add_user(&s("r"), &s("u")), Err(LobbyError::UserAlreadyConnected));
    assert_eq!(m.disconnect_user(&s("r"), &s("u")), Ok(()));
    assert_eq!(m.add_user(&s("r"), &s("u")), Err(LobbyError::LobbyDoesNotExist));
    m.create_lobby(s("r"));
    assert_eq!(m.add_user(&s("r"), &s("u")), Ok(()));
}

#[test]
fn disconnected_member_may_return() {
    let mut m = LobbyManager::new();
    m.create_lobby(s("r"));
    m.add_user(&s("r"), &s("a")).unwrap();
    m.add_user(&s("r"), &s("b")).unwrap();
    assert_eq!(m.disconnect_user(&s("r"), &s("a")), Ok(()));
    assert_eq!(m.lobbies.len(), 1);
    assert_eq!(m.lobbies[0].users.len(), 2);
    assert!(!m.lobbies[0].users[0].is_conn);
    assert_eq!(m.add_user(&s("r"), &s("a")), Ok(()));
    assert_eq!(m.lobbies[0].users.len(), 2);
    assert!(m.lobbies[0].users[0].is_conn);
}

#[test]
fn disconnect_errors() {
    let mut m = LobbyManager::new();
    assert_eq!(m.disconnect_user(&s("r"), &s("a")), Err(LobbyError::LobbyDoesNotExist));
    m.create_lobby(s("r"));
    m.create_lobby(s("r"));
    assert_eq!(m.lobbies.len(), 1);
    assert_eq!(m.disconnect_user(&s("r"), &s("a")), Err(LobbyError::UserDoesNotExist));
}
