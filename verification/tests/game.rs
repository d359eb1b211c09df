use chess_core::error::Error;
use chess_core::game::Game;
use chess_core::game::State;
use chess_core::piece::Piece;
use chess_core::player::Player;

#[test]
fn new_game_lists_all_pieces() {
    let game = Game::new();
    assert!(matches!(game.get_state(), State::SelectPiece));
    assert_eq!(game.get_current_player(), Player::White);
    assert_eq!(game.get_white_positions().len(), 16);
    assert_eq!(game.get_black_positions().len(), 16);
    assert!(game
        .get_white_positions()
        .contains(&(Piece::King, 4, 0)));
    assert!(game
        .get_black_positions()
        .contains(&(Piece::Queen, 3, 7)));
}

#[test]
fn methods_demand_the_right_state() {
    let mut game = Game::new();
    assert_eq!(game.select_move(0, 0), Err(Error::InvalidState));
    assert_eq!(game.get_moves().err(), Some(Error::InvalidState));
    assert_eq!(game.get_selected_pos(), Err(Error::InvalidState));
    assert_eq!(game.select_piece(8, 0), Err(Error::InvalidPosition));
    assert_eq!(game.select_piece(1, 1), Ok(()));
    assert!(matches!(game.get_state(), State::SelectMove));
    assert_eq!(game.select_piece(1, 1), Err(Error::InvalidState));
    assert_eq!(game.select_move(0, 9), Err(Error::InvalidPosition));
}

#[test]
fn selecting_an_empty_square_keeps_selecting() {
    let mut game = Game::new();
    assert_eq!(game.select_piece(4, 4), Ok(()));
    assert!(matches!(game.get_state(), State::SelectPiece));
    // an opposing piece is not selectable either
    assert_eq!(game.select_piece(4, 6), Ok(()));
    assert!(matches!(game.get_state(), State::SelectPiece));
}

#[test]
fn a_full_turn_flips_the_player() {
    let mut game = Game::new();
    assert_eq!(game.select_piece(1, 1), Ok(()));
    assert_eq!(game.get_selected_pos(), Ok((1, 1)));
    let moves = game.get_moves().unwrap().to_vec();
    assert!(moves.contains(&(1, 2)));
    assert!(moves.contains(&(1, 3)));
    assert_eq!(moves.len(), 2);
    assert_eq!(game.select_move(1, 3), Ok(()));
    assert!(matches!(game.get_state(), State::SelectPiece));
    assert_eq!(game.get_current_player(), Player::Black);
    assert!(game
        .get_white_positions()
        .contains(&(Piece::Pawn, 1, 3)));
}

#[test]
fn an_illegal_destination_just_deselects() {
    let mut game = Game::new();
    assert_eq!(game.select_piece(1, 1), Ok(()));
    assert_eq!(game.select_move(7, 7), Ok(()));
    assert!(matches!(game.get_state(), State::SelectPiece));
    assert_eq!(game.get_current_player(), Player::White);
}

#[test]
fn reset_restores_the_opening() {
    let mut game = Game::new();
    game.select_piece(1, 1).unwrap();
    game.select_move(1, 3).unwrap();
    game.reset();
    assert!(matches!(game.get_state(), State::SelectPiece));
    assert_eq!(game.get_current_player(), Player::White);
    assert_eq!(game.get_white_positions().len(), 16);
}

fn play(game: &mut Game, from: (u8, u8), to: (u8, u8)) {
    game.select_piece(from.0, from.1).unwrap();
    game.select_move(to.0, to.1).unwrap();
}

#[test]
fn the_quickest_mate_ends_the_game() {
    let mut game = Game::new();
    play(&mut game, (5, 1), (5, 2));
    play(&mut game, (4, 6), (4, 4));
    play(&mut game, (6, 1), (6, 3));
    assert!(matches!(game.get_state(), State::SelectPiece));
    play(&mut game, (3, 7), (7, 3));
    assert!(matches!(game.get_state(), State::CheckMate));
    assert_eq!(game.get_current_player(), Player::White);
}

#[test]
fn a_capture_removes_the_piece_from_the_listing() {
    let mut game = Game::new();
    play(&mut game, (4, 1), (4, 3));
    play(&mut game, (3, 6), (3, 4));
    // the e4 pawn takes on d5
    play(&mut game, (4, 3), (3, 4));
    assert_eq!(game.get_black_positions().len(), 15);
    assert_eq!(game.get_white_positions().len(), 16);
    assert!(game
        .get_white_positions()
        .contains(&(Piece::Pawn, 3, 4)));
}
