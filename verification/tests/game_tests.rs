use chess::game::{Game, GameEvent, GameState};
use chess::pos::Pos;
use chess::side::Side;
use chess::unit::Unit;

fn sq(s: &str) -> Pos {
    Pos::from_text(s).unwrap()
}

#[test]
fn test_new_game() {
    let game = Game::new();
    assert_eq!(game.get_current_turn(), Side::White);
    assert!(matches!(game.get_game_state(), GameState::Playing));
    assert_eq!(game.unit_pos, None);
    assert_eq!(game.target_pos, None);
}

#[test]
fn test_controller_idle() {
    let mut game = Game::new();
    assert_eq!(game.game_controller(), GameEvent::Idle);
    assert_eq!(game.get_current_turn(), Side::White);
}

#[test]
fn test_turn_enforcement() {
    let mut game = Game::new();
    // selecting a black piece while White is to move clears the selection
    // and mutates nothing
    game.unit_pos = Some(sq("E7"));
    assert_eq!(game.game_controller(), GameEvent::NotYourTurn);
    assert_eq!(game.unit_pos, None);
    assert_eq!(game.get_current_turn(), Side::White);
    assert_eq!(
        game.board_state.get_unit(&sq("E7")),
        Some(Unit::Pawn(Side::Black, false))
    );
}

#[test]
fn test_select_empty_square() {
    let mut game = Game::new();
    game.unit_pos = Some(sq("E4"));
    assert_eq!(game.game_controller(), GameEvent::EmptySquare);
    assert_eq!(game.unit_pos, None);
    assert_eq!(game.get_current_turn(), Side::White);
}

#[test]
fn test_select_own_piece() {
    let mut game = Game::new();
    game.unit_pos = Some(sq("E2"));
    assert_eq!(game.game_controller(), GameEvent::Selected);
    assert_eq!(game.unit_pos, Some(sq("E2")));
}

#[test]
fn test_full_move_flips_turn() {
    let mut game = Game::new();
    game.unit_pos = Some(sq("E2"));
    assert_eq!(game.game_controller(), GameEvent::Selected);
    game.target_pos = Some(sq("E4"));
    assert_eq!(game.game_controller(), GameEvent::Moved);
    assert_eq!(game.get_current_turn(), Side::Black);
    assert_eq!(game.unit_pos, None);
    assert_eq!(game.target_pos, None);
    assert_eq!(
        game.board_state.get_unit(&sq("E4")),
        Some(Unit::Pawn(Side::White, true))
    );
    assert_eq!(game.board_state.get_unit(&sq("E2")), None);
}

#[test]
fn test_rejected_move_keeps_turn() {
    let mut game = Game::new();
    game.unit_pos = Some(sq("A1"));
    assert_eq!(game.game_controller(), GameEvent::Selected);
    game.target_pos = Some(sq("A5"));
    assert_eq!(game.game_controller(), GameEvent::Rejected);
    assert_eq!(game.get_current_turn(), Side::White);
    assert_eq!(
        game.board_state.get_unit(&sq("A1")),
        Some(Unit::Rook(Side::White, false))
    );
    assert_eq!(game.board_state.get_unit(&sq("A5")), None);
}
