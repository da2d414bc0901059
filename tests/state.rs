use lobby_server::error::Error;
use lobby_server::game::Player;
use lobby_server::session::{Address, Session};
use lobby_server::state::AppState;

fn new_socket(port: u16) -> Address {
    Address::new(0xffff_7f00_0001, port)
}

#[test]
fn state_test_new_session() {
    let mut state: AppState = AppState::new();
    let token = state.new_session(new_socket(1111), Some(String::from("keedrin")));
    let session = state.session(&token).unwrap();

    assert_eq!(session.socket.port(), 1111);
    assert_eq!(session.nickname, Some("keedrin".to_string()));
}

#[test]
fn test_move_session() {
    let mut state: AppState = AppState::new();
    let (address, new_address, different_address) = (new_socket(1111), new_socket(2222), new_socket(3333));
    let first_token = state.new_session(address, Some(String::from("keedrin")));
    let first_connection = state.session(&first_token).unwrap().snapshot();
    let second_connection = state.move_session(new_address, &first_connection.access_token).unwrap();

    let different_token = state.new_session(different_address, Some(String::from("keedrin")));
    let different_connection = state.session(&different_token).unwrap().snapshot();

    assert_eq!(first_connection.socket, address);
    assert_ne!(first_connection.socket, new_address);
    assert_ne!(first_connection.socket, different_address);

    assert_eq!(second_connection.socket, new_address);
    assert_ne!(second_connection.socket, address);
    assert_ne!(second_connection.socket, different_address);

    assert_eq!(first_connection.access_token, second_connection.access_token);
    assert_ne!(first_connection.access_token, different_connection.access_token);
}

#[test]
fn state_test_new_lobby() {
    let mut state: AppState = AppState::new();
    let token = state.new_session(new_socket(1111), Some(String::from("player")));
    let code = state.new_lobby(&token).unwrap();

    assert!(state.lobby(&code).is_some());
    assert!(state.lobby_of(&token).is_some());

    assert!(state.lobby("random_code").is_none());
    assert!(state.lobby_of("random_token").is_none());
    assert_eq!(state.lobby(&code).unwrap().code, code);
    assert_eq!(state.lobby_of(&token), Some(code.clone()));
    assert!(state.lobby(&code).unwrap().has_player(&token));
}

#[test]
fn test_join_lobby_and_leaves_previous_lobby() {
    let mut state: AppState = AppState::new();
    let player = state.new_session(new_socket(1111), Some(String::from("player")));
    let friend = state.new_session(new_socket(2222), Some(String::from("friend")));
    let player_lobby_code = state.new_lobby(&player).unwrap();
    let friend_lobby_code = state.new_lobby(&friend).unwrap();

    assert_eq!(state.lobby_count(), 2);
    assert_eq!(state.lobby(&player_lobby_code).unwrap().player_count(), 1);
    assert_eq!(state.lobby(&friend_lobby_code).unwrap().player_count(), 1);

    assert!(state.lobby(&player_lobby_code).is_some());
    assert!(state.lobby(&friend_lobby_code).is_some());
    assert!(state.lobby_of(&player).is_some());
    assert!(state.lobby_of(&friend).is_some());

    assert_eq!(state.lobby(&player_lobby_code).unwrap().code, player_lobby_code);
    assert_eq!(state.lobby(&friend_lobby_code).unwrap().code, friend_lobby_code);
    assert_eq!(state.lobby_of(&player), Some(player_lobby_code.clone()));
    assert_eq!(state.lobby_of(&friend), Some(friend_lobby_code.clone()));

    state.join_lobby(&friend_lobby_code, &player).unwrap();

    assert_eq!(state.lobby_count(), 1);
    assert!(state.lobby(&player_lobby_code).is_none());
    assert!(state.lobby(&friend_lobby_code).is_some());
    assert_eq!(state.lobby(&friend_lobby_code).unwrap().code, friend_lobby_code);
    assert_eq!(state.lobby_of(&player), Some(friend_lobby_code.clone()));
    assert_eq!(state.lobby_of(&friend), Some(friend_lobby_code.clone()));
    let lobby = state.lobby(&friend_lobby_code).unwrap();
    assert_eq!(lobby.player_count(), 2);
}

#[test]
fn test_leave_lobby() {
    let mut state: AppState = AppState::new();
    let player = state.new_session(new_socket(1111), Some(String::from("player")));
    let friend = state.new_session(new_socket(2222), Some(String::from("friend")));
    let player_lobby_code = state.new_lobby(&player).unwrap();
    let friend_lobby_code = state.new_lobby(&friend).unwrap();

    assert_eq!(state.lobby_count(), 2);
    assert_eq!(state.lobby(&player_lobby_code).unwrap().player_count(), 1);
    assert_eq!(state.lobby(&friend_lobby_code).unwrap().player_count(), 1);

    assert!(state.lobby(&player_lobby_code).is_some());
    assert!(state.lobby(&friend_lobby_code).is_some());
    assert!(state.lobby_of(&player).is_some());
    assert!(state.lobby_of(&friend).is_some());

    assert_eq!(state.lobby(&player_lobby_code).unwrap().code, player_lobby_code);
    assert_eq!(state.lobby(&friend_lobby_code).unwrap().code, friend_lobby_code);
    assert_eq!(state.lobby_of(&player), Some(player_lobby_code.clone()));
    assert_eq!(state.lobby_of(&friend), Some(friend_lobby_code.clone()));

    state.join_lobby(&friend_lobby_code, &player).unwrap();

    assert_eq!(state.lobby_count(), 1);
    assert!(state.lobby(&player_lobby_code).is_none());
    assert!(state.lobby(&friend_lobby_code).is_some());
    assert_eq!(state.lobby(&friend_lobby_code).unwrap().code, friend_lobby_code);
    assert_eq!(state.lobby_of(&player), Some(friend_lobby_code.clone()));
    assert_eq!(state.lobby_of(&friend), Some(friend_lobby_code.clone()));

    assert_eq!(state.lobby(&friend_lobby_code).unwrap().player_count(), 2);
    state.leave_lobby(&player);
    assert_eq!(state.lobby(&friend_lobby_code).unwrap().player_count(), 1);
    state.leave_lobby(&friend);
    assert!(state.lobby(&friend_lobby_code).is_none());
    assert_eq!(state.lobby_count(), 0);
    assert!(state.lobby_of(&friend).is_none());
    assert!(state.lobby_of(&player).is_none());
}

#[test]
fn scenario_two_sessions_play() {
    let mut state = AppState::new();
    let s1 = state.new_session(new_socket(1111), Some(String::from("a")));
    let code = state.create_lobby(&s1, "4821", Player::X).unwrap();
    assert_eq!(code, "4821");
    let s2 = state.new_session(new_socket(2222), Some(String::from("b")));
    state.join_lobby("4821", &s2).unwrap();
    {
        let lobby = state.lobby("4821").unwrap();
        assert_eq!(lobby.player_count(), 2);
        let a = lobby.symbol_of(&s1).unwrap();
        let b = lobby.symbol_of(&s2).unwrap();
        assert_ne!(a, b);
        assert_eq!(a, Player::X);
    }
    state.start_game(&s1).unwrap();
    {
        let game = state.lobby("4821").unwrap().game.unwrap();
        assert!(game.board.iter().all(|c| c.is_none()));
        assert_eq!(game.current_player, Player::X);
    }
    let board = state.play(&s1, 0).unwrap();
    assert_eq!(board[0], Some(Player::X));
    assert_eq!(state.lobby("4821").unwrap().game.unwrap().current_player, Player::O);
    assert_eq!(state.play(&s2, 0), Err(Error::CellOccupied));
    assert_eq!(state.play(&s1, 4), Err(Error::NotYourTurn));
    assert_eq!(state.lobby("4821").unwrap().game.unwrap().board[4], None);
}

#[test]
fn scenario_second_create_deletes_the_first_lobby() {
    let mut state = AppState::new();
    let s1 = state.new_session(new_socket(1111), None);
    assert_eq!(state.create_lobby(&s1, "4821", Player::O).unwrap(), "4821");
    assert_eq!(state.create_lobby(&s1, "7790", Player::O).unwrap(), "7790");
    assert!(state.lobby("4821").is_none());
    assert!(state.lobby("7790").is_some());
    assert_eq!(state.lobby_count(), 1);
    assert_eq!(state.lobby_of(&s1), Some(String::from("7790")));
    assert_eq!(state.join_lobby("4821", &s1), Err(Error::UnknownLobby));
}

#[test]
fn joining_elsewhere_decrements_a_shared_lobby() {
    let mut state = AppState::new();
    let a = state.new_session(new_socket(1), None);
    let b = state.new_session(new_socket(2), None);
    let c = state.new_session(new_socket(3), None);
    state.create_lobby(&a, "1000", Player::X).unwrap();
    state.join_lobby("1000", &b).unwrap();
    state.create_lobby(&c, "2000", Player::X).unwrap();
    assert_eq!(state.lobby("1000").unwrap().player_count(), 2);
    state.join_lobby("2000", &b).unwrap();
    assert_eq!(state.lobby("1000").unwrap().player_count(), 1);
    assert!(state.lobby("1000").unwrap().has_player(&a));
    assert_eq!(state.lobby("2000").unwrap().player_count(), 2);
    assert_eq!(state.lobby_of(&b), Some(String::from("2000")));
    assert_eq!(state.lobby_of(&a), Some(String::from("1000")));
}

#[test]
fn a_session_is_in_one_lobby_at_a_time() {
    let mut state = AppState::new();
    let a = state.new_session(new_socket(1), None);
    let b = state.new_session(new_socket(2), None);
    let c = state.new_session(new_socket(3), None);
    state.create_lobby(&b, "1111", Player::X).unwrap();
    state.create_lobby(&c, "2222", Player::X).unwrap();
    state.join_lobby("1111", &a).unwrap();
    state.join_lobby("2222", &a).unwrap();
    assert!(!state.lobby("1111").unwrap().has_player(&a));
    assert!(state.lobby("2222").unwrap().has_player(&a));
    assert_eq!(state.lobby_of(&a), Some(String::from("2222")));
    state.new_lobby(&a).unwrap();
    assert!(!state.lobby("2222").unwrap().has_player(&a));
    let code = state.lobby_of(&a).unwrap();
    assert!(state.lobby(&code).unwrap().has_player(&a));
}

#[test]
fn rejoining_own_lobby_changes_nothing() {
    let mut state = AppState::new();
    let a = state.new_session(new_socket(1), None);
    state.create_lobby(&a, "3333", Player::O).unwrap();
    assert_eq!(state.join_lobby("3333", &a), Ok(()));
    assert_eq!(state.lobby("3333").unwrap().player_count(), 1);
    assert_eq!(state.lobby("3333").unwrap().symbol_of(&a), Some(Player::O));
}

#[test]
fn full_lobby_refuses_and_keeps_the_joiner_where_it_was() {
    let mut state = AppState::new();
    let a = state.new_session(new_socket(1), None);
    let b = state.new_session(new_socket(2), None);
    let c = state.new_session(new_socket(3), None);
    state.create_lobby(&a, "1000", Player::X).unwrap();
    state.join_lobby("1000", &b).unwrap();
    state.create_lobby(&c, "2000", Player::X).unwrap();
    assert_eq!(state.join_lobby("1000", &c), Err(Error::LobbyFull));
    assert_eq!(state.lobby_of(&c), Some(String::from("2000")));
    assert_eq!(state.lobby("1000").unwrap().player_count(), 2);
    let l = state.lobby("1000").unwrap();
    assert_ne!(l.symbol_of(&a), l.symbol_of(&b));
}

#[test]
fn resume_keeps_nickname_and_membership() {
    let mut state = AppState::new();
    let t = state.new_session(new_socket(1111), Some(String::from("nick")));
    state.create_lobby(&t, "5555", Player::X).unwrap();
    let s = state.move_session(new_socket(2222), &t).unwrap();
    assert_eq!(s.access_token, t);
    assert_eq!(s.nickname, Some(String::from("nick")));
    assert_eq!(s.socket, new_socket(2222));
    assert_eq!(state.lobby_of(&t), Some(String::from("5555")));
    assert_eq!(state.session_at(new_socket(2222)), Some(t.clone()));
    assert_eq!(state.session_at(new_socket(1111)), None);
}

#[test]
fn resume_with_unknown_token_fails_and_creates_nothing() {
    let mut state = AppState::new();
    state.new_session(new_socket(1111), None);
    assert_eq!(state.session_count(), 1);
    assert!(matches!(state.move_session(new_socket(2222), "nope"), Err(Error::UnknownToken)));
    assert_eq!(state.session_count(), 1);
    assert_eq!(state.session_at(new_socket(2222)), None);
}

#[test]
fn resume_keeps_another_sessions_attachment() {
    let mut state = AppState::new();
    let a = state.new_session(new_socket(1), None);
    let b = state.new_session(new_socket(1), None);
    assert_eq!(state.session_at(new_socket(1)), Some(b.clone()));
    state.move_session(new_socket(2), &a).unwrap();
    assert_eq!(state.session_at(new_socket(1)), Some(b));
    assert_eq!(state.session_at(new_socket(2)), Some(a));
}

#[test]
fn rename_is_seen_through_every_lookup() {
    let mut state = AppState::new();
    let t = state.new_session(new_socket(1), Some(String::from("old")));
    let s = state.rename(&t, "new").unwrap();
    assert_eq!(s.nickname, Some(String::from("new")));
    assert_eq!(state.session(&t).unwrap().nickname, Some(String::from("new")));
    assert!(matches!(state.rename("nope", "x"), Err(Error::UnknownToken)));
}

#[test]
fn taken_candidate_falls_back_to_least_free_code() {
    let mut state = AppState::new();
    let a = state.new_session(new_socket(1), None);
    let b = state.new_session(new_socket(2), None);
    let c = state.new_session(new_socket(3), None);
    assert_eq!(state.create_lobby(&a, "0000", Player::X).unwrap(), "0000");
    assert_eq!(state.create_lobby(&b, "0000", Player::X).unwrap(), "0001");
    assert_eq!(state.create_lobby(&c, "not a code", Player::X).unwrap(), "0002");
}

#[test]
fn drawn_lobby_codes_are_distinct() {
    let mut state = AppState::new();
    let mut codes = Vec::new();
    for i in 0..200u16 {
        let t = state.new_session(new_socket(i), None);
        codes.push(state.new_lobby(&t).unwrap());
    }
    assert_eq!(state.lobby_count(), 200);
    codes.sort();
    codes.dedup();
    assert_eq!(codes.len(), 200);
}

#[test]
fn colliding_token_is_extended() {
    let mut state = AppState::new();
    let first = Session { access_token: String::from("abc"), nickname: None, socket: new_socket(1) };
    assert_eq!(state.insert_session(first), "abc");
    let longer = Session { access_token: String::from("abcdefgh"), nickname: None, socket: new_socket(2) };
    assert_eq!(state.insert_session(longer), "abcdefgh");
    let clash = Session { access_token: String::from("abc"), nickname: None, socket: new_socket(3) };
    let t = state.insert_session(clash);
    assert_eq!(t, "abc0abcdefgh");
    assert_eq!(state.session_count(), 3);
    assert_eq!(state.session_at(new_socket(3)), Some(t));
}

#[test]
fn errors_for_unknown_sessions_and_lobbies() {
    let mut state = AppState::new();
    let t = state.new_session(new_socket(1), None);
    assert_eq!(state.new_lobby("nope"), Err(Error::UnknownToken));
    assert_eq!(state.create_lobby("nope", "1234", Player::X), Err(Error::UnknownToken));
    assert_eq!(state.join_lobby("1234", "nope"), Err(Error::UnknownToken));
    assert_eq!(state.join_lobby("1234", &t), Err(Error::UnknownLobby));
    assert_eq!(state.start_game(&t), Err(Error::NotInLobby));
    assert_eq!(state.play(&t, 0), Err(Error::NotInLobby));
    assert_eq!(state.hover(&t), Err(Error::NotInLobby));
    assert_eq!(state.start_game("nope"), Err(Error::UnknownToken));
    assert_eq!(state.lobby_count(), 0);
}

#[test]
fn moves_before_start_are_refused() {
    let mut state = AppState::new();
    let a = state.new_session(new_socket(1), None);
    let b = state.new_session(new_socket(2), None);
    state.create_lobby(&a, "1234", Player::X).unwrap();
    assert_eq!(state.start_game(&a), Ok(()));
    assert!(state.lobby("1234").unwrap().game.is_none());
    assert_eq!(state.play(&a, 0), Err(Error::GameNotStarted));
    assert_eq!(state.hover(&a), Err(Error::GameNotStarted));
    state.join_lobby("1234", &b).unwrap();
    state.start_game(&b).unwrap();
    assert_eq!(state.hover(&a), Ok(Player::X));
    assert_eq!(state.hover(&b), Err(Error::NotYourTurn));
    assert_eq!(state.play(&a, 9), Err(Error::OutOfBounds));
    assert!(state.play(&a, 8).is_ok());
    assert_eq!(state.hover(&b), Ok(Player::O));
}
