use lobby_server::error::Error;
use lobby_server::game::{Game, Player};

#[test]
fn test_board() {
    let mut game: Game = Game::new();
    assert_eq!(game.current_player, Player::X);
    assert!(game.board.iter().all(|x| x.is_none()));
    let _ = game.move_player(Player::X, 0);
    assert_eq!(game.board[0], Some(Player::X));
    let _ = game.move_player(Player::O, 4);
    assert_eq!(game.board[4], Some(Player::O));
    let _ = game.move_player(Player::X, 8);
    assert_eq!(game.board[8], Some(Player::X));
    let _ = game.move_player(Player::O, 2);
    assert_eq!(game.board[2], Some(Player::O));
    let _ = game.move_player(Player::X, 6);
    assert_eq!(game.board[6], Some(Player::X));
    let _ = game.move_player(Player::O, 7);
    assert_eq!(game.board[7], Some(Player::O));
    let _ = game.move_player(Player::X, 3);
    assert_eq!(game.board[3], Some(Player::X));
}

#[test]
fn move_returns_board_and_flips_turn() {
    let mut game = Game::new();
    let board = game.move_player(Player::X, 4).unwrap();
    assert_eq!(board[4], Some(Player::X));
    assert_eq!(board.iter().filter(|c| c.is_some()).count(), 1);
    assert_eq!(game.current_player, Player::O);
    assert_eq!(*game.get_board(), board);
    game.move_player(Player::O, 0).unwrap();
    assert_eq!(game.current_player, Player::X);
}

#[test]
fn move_to_taken_cell_is_refused() {
    let mut game = Game::new();
    game.move_player(Player::X, 0).unwrap();
    assert_eq!(game.move_player(Player::O, 0), Err(Error::CellOccupied));
    assert_eq!(game.move_player(Player::X, 0), Err(Error::CellOccupied));
    assert_eq!(game.current_player, Player::O);
    assert_eq!(game.board[0], Some(Player::X));
}

#[test]
fn move_out_of_turn_is_refused() {
    let mut game = Game::new();
    assert_eq!(game.move_player(Player::O, 4), Err(Error::NotYourTurn));
    assert!(game.board.iter().all(|x| x.is_none()));
    assert_eq!(game.current_player, Player::X);
}

#[test]
fn move_off_the_board_is_refused() {
    let mut game = Game::new();
    assert_eq!(game.move_player(Player::X, 9), Err(Error::OutOfBounds));
    assert_eq!(game.move_player(Player::X, 10), Err(Error::OutOfBounds));
    assert_eq!(game.move_player(Player::O, 100), Err(Error::OutOfBounds));
    assert!(game.board.iter().all(|x| x.is_none()));
}

#[test]
fn bounds_are_checked_before_occupancy_and_turn() {
    let mut game = Game::new();
    game.move_player(Player::X, 8).unwrap();
    assert_eq!(game.move_player(Player::X, 8), Err(Error::CellOccupied));
    assert_eq!(game.move_player(Player::X, 11), Err(Error::OutOfBounds));
}

#[test]
fn full_board_does_not_end_the_game() {
    let mut game = Game::new();
    let order = [0usize, 1, 2, 4, 3, 5, 7, 6, 8];
    let mut p = Player::X;
    for pos in order {
        game.move_player(p, pos).unwrap();
        p = p.other();
    }
    assert!(game.board.iter().all(|x| x.is_some()));
    assert_eq!(game.current_player, Player::O);
    assert_eq!(game.move_player(Player::O, 0), Err(Error::CellOccupied));
}

#[test]
fn line_of_three_keeps_accepting_moves() {
    let mut game = Game::new();
    game.move_player(Player::X, 0).unwrap();
    game.move_player(Player::O, 3).unwrap();
    game.move_player(Player::X, 1).unwrap();
    game.move_player(Player::O, 4).unwrap();
    game.move_player(Player::X, 2).unwrap();
    assert!(game.move_player(Player::O, 5).is_ok());
}

#[test]
fn default_game_is_fresh() {
    let game = Game::default();
    assert_eq!(game.current_player, Player::X);
    assert!(game.board.iter().all(|x| x.is_none()));
}

#[test]
fn symbol_labels_and_complements() {
    assert_eq!(Player::X.label(), "X");
    assert_eq!(Player::O.label(), "O");
    assert_eq!(Player::X.other(), Player::O);
    assert_eq!(Player::O.other(), Player::X);
}
