use chess::board::Board;
use chess::pos::Pos;
use chess::side::Side;
use chess::unit::Unit;

fn sq(s: &str) -> Pos {
    Pos::from_text(s).unwrap()
}

/// The whole grid, for byte-for-byte comparisons around rejected moves.
fn snapshot(board: &Board) -> Vec<Option<Unit>> {
    let mut all = Vec::new();
    for y in 0..8i8 {
        for x in 0..8i8 {
            all.push(board.get_unit(&Pos::new(x, y)));
        }
    }
    all
}

#[test]
fn test_initial_layout() {
    let board = Board::new();
    assert_eq!(board.get_unit(&sq("A8")), Some(Unit::Rook(Side::Black, false)));
    assert_eq!(board.get_unit(&sq("B8")), Some(Unit::Knight(Side::Black)));
    assert_eq!(board.get_unit(&sq("C8")), Some(Unit::Bishop(Side::Black)));
    assert_eq!(board.get_unit(&sq("D8")), Some(Unit::Queen(Side::Black)));
    assert_eq!(board.get_unit(&sq("E8")), Some(Unit::King(Side::Black, false)));
    assert_eq!(board.get_unit(&sq("H8")), Some(Unit::Rook(Side::Black, false)));
    assert_eq!(board.get_unit(&sq("D7")), Some(Unit::Pawn(Side::Black, false)));
    assert_eq!(board.get_unit(&sq("E1")), Some(Unit::King(Side::White, false)));
    assert_eq!(board.get_unit(&sq("D1")), Some(Unit::Queen(Side::White)));
    assert_eq!(board.get_unit(&sq("G2")), Some(Unit::Pawn(Side::White, false)));
    assert_eq!(board.get_unit(&sq("E4")), None);
    assert_eq!(board.get_unit(&sq("A5")), None);
}

#[test]
fn test_set_and_remove() {
    let mut board = Board::new();
    board.set_unit(Unit::Queen(Side::White), sq("D4"));
    assert_eq!(board.get_unit(&sq("D4")), Some(Unit::Queen(Side::White)));
    board.remove_unit(&sq("D4"));
    assert_eq!(board.get_unit(&sq("D4")), None);
}

#[test]
fn test_pawn_single_and_double_advance() {
    let mut board = Board::new();
    assert!(board.step_unit(&sq("E2"), &sq("E4")));
    assert_eq!(board.get_unit(&sq("E4")), Some(Unit::Pawn(Side::White, true)));
    assert_eq!(board.get_unit(&sq("E2")), None);

    assert!(board.step_unit(&sq("E7"), &sq("E6")));
    assert_eq!(board.get_unit(&sq("E6")), Some(Unit::Pawn(Side::Black, true)));
}

#[test]
fn test_pawn_double_advance_needs_unmoved_pawn() {
    let mut board = Board::new();
    assert!(board.step_unit(&sq("E2"), &sq("E3")));
    // the pawn has moved: a double advance from E3 is rejected
    assert!(!board.step_unit(&sq("E3"), &sq("E5")));
    assert_eq!(board.get_unit(&sq("E3")), Some(Unit::Pawn(Side::White, true)));
    assert_eq!(board.get_unit(&sq("E5")), None);
}

#[test]
fn test_pawn_cannot_move_backward() {
    let mut board = Board::new();
    assert!(board.step_unit(&sq("E2"), &sq("E4")));
    let before = snapshot(&board);
    assert!(!board.step_unit(&sq("E4"), &sq("E3")));
    assert_eq!(snapshot(&board), before);
}

#[test]
fn test_pawn_capture_diagonal() {
    let mut board = Board::new();
    assert!(board.step_unit(&sq("E2"), &sq("E4")));
    assert!(board.step_unit(&sq("D7"), &sq("D5")));
    assert!(board.step_unit(&sq("E4"), &sq("D5")));
    assert_eq!(board.get_unit(&sq("D5")), Some(Unit::Pawn(Side::White, true)));
    assert_eq!(board.get_unit(&sq("E4")), None);
}

#[test]
fn test_pawn_cannot_capture_straight() {
    let mut board = Board::new();
    assert!(board.step_unit(&sq("E2"), &sq("E4")));
    assert!(board.step_unit(&sq("E7"), &sq("E5")));
    let before = snapshot(&board);
    assert!(!board.step_unit(&sq("E4"), &sq("E5")));
    assert_eq!(snapshot(&board), before);
}

#[test]
fn test_knight_moves_over_pieces() {
    let mut board = Board::new();
    assert!(board.step_unit(&sq("B1"), &sq("C3")));
    assert_eq!(board.get_unit(&sq("C3")), Some(Unit::Knight(Side::White)));
    assert_eq!(board.get_unit(&sq("B1")), None);
}

#[test]
fn test_sliders_blocked_by_path() {
    let mut board = Board::new();
    let before = snapshot(&board);
    // every slider is boxed in at the start
    assert!(!board.step_unit(&sq("A1"), &sq("A5")));
    assert!(!board.step_unit(&sq("C1"), &sq("F4")));
    assert!(!board.step_unit(&sq("D1"), &sq("D6")));
    assert_eq!(snapshot(&board), before);
}

#[test]
fn test_rook_and_bishop_and_queen_move() {
    let mut board = Board::new();
    assert!(board.step_unit(&sq("A2"), &sq("A4")));
    assert!(board.step_unit(&sq("A1"), &sq("A3")));
    assert_eq!(board.get_unit(&sq("A3")), Some(Unit::Rook(Side::White, true)));
    assert!(board.step_unit(&sq("D2"), &sq("D3")));
    assert!(board.step_unit(&sq("C1"), &sq("F4")));
    assert_eq!(board.get_unit(&sq("F4")), Some(Unit::Bishop(Side::White)));
    assert!(board.step_unit(&sq("D1"), &sq("D2")));
    assert_eq!(board.get_unit(&sq("D2")), Some(Unit::Queen(Side::White)));
}

#[test]
fn test_geometry_rejected_unchanged() {
    let mut board = Board::new();
    let before = snapshot(&board);
    // a displacement outside each piece's geometry is rejected outright
    assert!(!board.step_unit(&sq("A1"), &sq("B3")));
    assert!(!board.step_unit(&sq("C1"), &sq("C3")));
    assert!(!board.step_unit(&sq("B1"), &sq("B3")));
    assert!(!board.step_unit(&sq("E1"), &sq("E3")));
    assert!(!board.step_unit(&sq("E2"), &sq("F3")));
    assert!(!board.step_unit(&sq("D1"), &sq("E3")));
    assert_eq!(snapshot(&board), before);
}

#[test]
fn test_rejection_is_idempotent() {
    let mut board = Board::new();
    let before = snapshot(&board);
    assert!(!board.step_unit(&sq("A1"), &sq("A5")));
    let after_first = snapshot(&board);
    assert!(!board.step_unit(&sq("A1"), &sq("A5")));
    assert_eq!(after_first, before);
    assert_eq!(snapshot(&board), before);
}

#[test]
fn test_round_trip_restores_occupancy() {
    let mut board = Board::new();
    let before = snapshot(&board);
    assert!(board.step_unit(&sq("B1"), &sq("C3")));
    assert!(board.step_unit(&sq("C3"), &sq("B1")));
    // the knight carries no moved-flag, so the grid is exactly restored
    assert_eq!(snapshot(&board), before);
}

#[test]
fn test_en_passant() {
    let mut board = Board::new();
    board.remove_unit(&sq("E2"));
    board.set_unit(Unit::Pawn(Side::White, true), sq("E5"));
    board.remove_unit(&sq("D7"));
    board.set_unit(Unit::Pawn(Side::Black, true), sq("D5"));

    assert!(board.step_unit(&sq("E5"), &sq("D6")));
    assert_eq!(board.get_unit(&sq("D5")), None);
    assert_eq!(board.get_unit(&sq("E5")), None);
    assert_eq!(board.get_unit(&sq("D6")), Some(Unit::Pawn(Side::White, true)));
}

#[test]
fn test_castling_kingside() {
    let mut board = Board::new();
    board.remove_unit(&sq("F1"));
    board.remove_unit(&sq("G1"));

    assert!(board.step_unit(&sq("E1"), &sq("G1")));
    assert_eq!(board.get_unit(&sq("G1")), Some(Unit::King(Side::White, true)));
    assert_eq!(board.get_unit(&sq("F1")), Some(Unit::Rook(Side::White, true)));
    assert_eq!(board.get_unit(&sq("E1")), None);
    assert_eq!(board.get_unit(&sq("H1")), None);
}

#[test]
fn test_castling_queenside() {
    let mut board = Board::new();
    board.remove_unit(&sq("B1"));
    board.remove_unit(&sq("C1"));
    board.remove_unit(&sq("D1"));

    assert!(board.step_unit(&sq("E1"), &sq("C1")));
    assert_eq!(board.get_unit(&sq("C1")), Some(Unit::King(Side::White, true)));
    assert_eq!(board.get_unit(&sq("D1")), Some(Unit::Rook(Side::White, true)));
    assert_eq!(board.get_unit(&sq("E1")), None);
    assert_eq!(board.get_unit(&sq("A1")), None);
}

#[test]
fn test_castling_needs_unmoved_rook() {
    let mut board = Board::new();
    board.remove_unit(&sq("F1"));
    board.remove_unit(&sq("G1"));
    board.remove_unit(&sq("H1"));
    board.set_unit(Unit::Rook(Side::White, true), sq("H1"));
    let before = snapshot(&board);
    assert!(!board.step_unit(&sq("E1"), &sq("G1")));
    assert_eq!(snapshot(&board), before);
}

#[test]
fn test_self_check_prevented() {
    let mut board = Board::new();
    // move the black king aside, then aim a black rook down the E file,
    // leaving only a white knight on E2 to shield the white king
    board.set_unit(Unit::King(Side::Black, true), sq("A5"));
    board.remove_unit(&sq("E8"));
    board.set_unit(Unit::Rook(Side::Black, false), sq("E8"));
    board.remove_unit(&sq("E7"));
    board.remove_unit(&sq("E2"));
    board.set_unit(Unit::Knight(Side::White), sq("E2"));

    let before = snapshot(&board);
    // every knight move leaves the E file and exposes the king
    for target in ["C3", "D4", "F4", "G3"] {
        assert!(!board.step_unit(&sq("E2"), &sq(target)));
        assert_eq!(board.get_unit(&sq("E2")), Some(Unit::Knight(Side::White)));
        assert_eq!(board.get_unit(&sq(target)), None);
        assert_eq!(snapshot(&board), before);
    }
}

#[test]
fn test_promotion() {
    let mut board = Board::new();
    board.remove_unit(&sq("D7"));
    board.remove_unit(&sq("D8"));
    board.set_unit(Unit::Pawn(Side::White, true), sq("D7"));

    assert!(board.step_unit(&sq("D7"), &sq("D8")));
    assert_eq!(board.get_unit(&sq("D8")), Some(Unit::Queen(Side::White)));
    assert_eq!(board.get_unit(&sq("D7")), None);
}

#[test]
fn test_promotion_by_capture() {
    let mut board = Board::new();
    board.remove_unit(&sq("E7"));
    board.set_unit(Unit::Pawn(Side::White, true), sq("E7"));

    // capturing onto the far rank promotes as well
    assert!(board.step_unit(&sq("E7"), &sq("D8")));
    assert_eq!(board.get_unit(&sq("D8")), Some(Unit::Queen(Side::White)));
}

#[test]
fn test_cannot_capture_own_piece() {
    let mut board = Board::new();
    let before = snapshot(&board);
    assert!(!board.step_unit(&sq("A1"), &sq("A2")));
    assert_eq!(snapshot(&board), before);
}

#[test]
fn test_cannot_capture_king() {
    let mut board = Board::new();
    board.remove_unit(&sq("E7"));
    board.set_unit(Unit::Rook(Side::White, true), sq("E7"));
    // the black king on E8 can never be taken
    let before = snapshot(&board);
    assert!(!board.step_unit(&sq("E7"), &sq("E8")));
    assert_eq!(snapshot(&board), before);
}
