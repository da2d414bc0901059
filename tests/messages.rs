use lobby_server::error::Error;
use lobby_server::game::Player;
use lobby_server::messages::{ClientMessage, Reply};
use lobby_server::session::Address;
use lobby_server::state::AppState;

fn new_socket(port: u16) -> Address {
    Address::new(0xffff_7f00_0001, port)
}

fn connect(state: &mut AppState, port: u16, nickname: &str) -> String {
    let msg = ClientMessage::Connection { nickname: Some(String::from(nickname)), access_token: None };
    match msg.process(state, new_socket(port)) {
        Ok(Reply::Session(s)) => {
            assert_eq!(s.nickname, Some(String::from(nickname)));
            s.access_token
        }
        other => panic!("unexpected reply {:?}", other),
    }
}

#[test]
fn test_multiple_new_connections() {
    let mut state = AppState::new();
    let t1 = connect(&mut state, 1111, "keedrin");
    let t2 = connect(&mut state, 2222, "keedrin2");
    assert_eq!(state.session(&t1).unwrap().nickname, Some(String::from("keedrin")));
    assert_eq!(state.session(&t2).unwrap().nickname, Some(String::from("keedrin2")));
    assert!(state.session_count() == 2);

    let code = match ClientMessage::CreateLobby.process(&mut state, new_socket(1111)) {
        Ok(Reply::Lobby { code, joined: false }) => code,
        other => panic!("unexpected reply {:?}", other),
    };
    let reply = ClientMessage::JoinLobby { code: code.clone() }.process(&mut state, new_socket(2222)).unwrap();
    assert!(reply.notifies());
    assert_eq!(state.lobby(&code).unwrap().player_count(), 2);
}

#[test]
fn requests_from_an_unknown_address_fail() {
    let mut state = AppState::new();
    let r = ClientMessage::CreateLobby.process(&mut state, new_socket(9));
    assert!(matches!(r, Err(Error::UnknownAddress)));
    let r = ClientMessage::Nickname { nickname: String::from("x") }.process(&mut state, new_socket(9));
    assert!(matches!(r, Err(Error::UnknownAddress)));
}

#[test]
fn reconnect_by_token_through_requests() {
    let mut state = AppState::new();
    let t = connect(&mut state, 1111, "a");
    let msg = ClientMessage::Connection { nickname: None, access_token: Some(t.clone()) };
    match msg.process(&mut state, new_socket(3333)) {
        Ok(Reply::Session(s)) => {
            assert_eq!(s.access_token, t);
            assert_eq!(s.nickname, Some(String::from("a")));
            assert_eq!(s.socket.port(), 3333);
        }
        other => panic!("unexpected reply {:?}", other),
    }
    let bad = ClientMessage::Connection { nickname: None, access_token: Some(String::from("zzz")) };
    assert!(matches!(bad.process(&mut state, new_socket(4444)), Err(Error::UnknownToken)));
    assert_eq!(state.session_count(), 1);
}

#[test]
fn game_through_requests() {
    let mut state = AppState::new();
    let t1 = connect(&mut state, 1, "a");
    let _t2 = connect(&mut state, 2, "b");
    let code = match ClientMessage::CreateLobby.process(&mut state, new_socket(1)) {
        Ok(Reply::Lobby { code, .. }) => code,
        other => panic!("unexpected reply {:?}", other),
    };
    ClientMessage::JoinLobby { code: code.clone() }.process(&mut state, new_socket(2)).unwrap();
    let started = ClientMessage::StartGame.process(&mut state, new_socket(1)).unwrap();
    assert!(!started.notifies());
    assert!(matches!(started, Reply::StartGame { code: ref c } if *c == code));
    let first = state.lobby(&code).unwrap().symbol_of(&t1).unwrap();
    let (mover, waiter) = if first == Player::X { (1, 2) } else { (2, 1) };
    assert!(matches!(
        ClientMessage::OnHover { position: 3 }.process(&mut state, new_socket(waiter)),
        Err(Error::NotYourTurn)
    ));
    match (ClientMessage::OnHover { position: 3 }).process(&mut state, new_socket(mover)) {
        Ok(r @ Reply::Hover { .. }) => {
            assert!(r.notifies());
            assert!(matches!(r, Reply::Hover { symbol: Player::X, position: 3, .. }));
        }
        other => panic!("unexpected reply {:?}", other),
    }
    match (ClientMessage::Move { position: 3 }).process(&mut state, new_socket(mover)) {
        Ok(Reply::Move { board, .. }) => assert_eq!(board[3], Some(Player::X)),
        other => panic!("unexpected reply {:?}", other),
    }
    assert!(matches!(
        ClientMessage::Move { position: 3 }.process(&mut state, new_socket(waiter)),
        Err(Error::CellOccupied)
    ));
}

#[test]
fn start_request_with_one_occupant_leaves_no_game() {
    let mut state = AppState::new();
    connect(&mut state, 1, "a");
    let code = match ClientMessage::CreateLobby.process(&mut state, new_socket(1)) {
        Ok(Reply::Lobby { code, .. }) => code,
        other => panic!("unexpected reply {:?}", other),
    };
    assert!(ClientMessage::StartGame.process(&mut state, new_socket(1)).is_ok());
    assert!(state.lobby(&code).unwrap().game.is_none());
    assert!(matches!(
        (ClientMessage::Move { position: 0 }).process(&mut state, new_socket(1)),
        Err(Error::GameNotStarted)
    ));
    assert!(matches!(
        (ClientMessage::OnHover { position: 0 }).process(&mut state, new_socket(1)),
        Err(Error::GameNotStarted)
    ));
}

#[test]
fn requests_outside_a_lobby_fail_with_not_in_lobby() {
    let mut state = AppState::new();
    let t = connect(&mut state, 1, "a");
    assert!(matches!(ClientMessage::StartGame.process(&mut state, new_socket(1)), Err(Error::NotInLobby)));
    assert!(matches!((ClientMessage::Move { position: 0 }).process(&mut state, new_socket(1)), Err(Error::NotInLobby)));
    assert_eq!(state.session_count(), 1);
    assert_eq!(state.session_at(new_socket(1)), Some(t));
}
