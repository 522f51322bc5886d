use chess::side::Side;
use chess::unit::{eq_unit_type, Unit};

#[test]
fn test_moved() {
    let unit = Unit::Pawn(Side::Black, true);
    assert!(unit.is_moved());

    let unit = unit.set_moved(false);
    assert!(!unit.is_moved());

    let unit = Unit::Knight(Side::White);
    assert!(!unit.is_moved());
}

#[test]
fn test_unit_type() {
    let unit1 = Unit::Pawn(Side::Black, true);
    let mut unit2 = Unit::Pawn(Side::Black, true);
    assert_eq!(eq_unit_type(&unit1, &unit2), true);

    unit2 = Unit::Pawn(Side::Black, false);
    assert_eq!(eq_unit_type(&unit1, &unit2), true);

    unit2 = Unit::Pawn(Side::White, true);
    assert_eq!(eq_unit_type(&unit1, &unit2), true);

    unit2 = Unit::Pawn(Side::White, false);
    assert_eq!(eq_unit_type(&unit1, &unit2), true);

    unit2 = Unit::Rook(Side::Black, true);
    assert_eq!(eq_unit_type(&unit1, &unit2), false);
}

#[test]
fn test_test_unit_type() {
    let unit1 = Unit::Pawn(Side::Black, true);
    let mut unit2 = Unit::Pawn(Side::Black, true);
    assert_eq!(eq_unit_type(&unit1, &unit2), true);

    unit2 = Unit::Pawn(Side::Black, false);
    assert_eq!(eq_unit_type(&unit1, &unit2), true);

    unit2 = Unit::Pawn(Side::White, true);
    assert_eq!(eq_unit_type(&unit1, &unit2), true);

    unit2 = Unit::Pawn(Side::White, false);
    assert_eq!(eq_unit_type(&unit1, &unit2), true);

    unit2 = Unit::Rook(Side::Black, true);
    assert_eq!(eq_unit_type(&unit1, &unit2), false);
}

#[test]
fn test_unit_ids() {
    assert_eq!(Unit::Pawn(Side::Black, false).get_id(), 0);
    assert_eq!(Unit::Bishop(Side::Black).get_id(), 1);
    assert_eq!(Unit::Knight(Side::Black).get_id(), 2);
    assert_eq!(Unit::Rook(Side::Black, true).get_id(), 3);
    assert_eq!(Unit::Queen(Side::Black).get_id(), 4);
    assert_eq!(Unit::King(Side::Black, false).get_id(), 5);
    assert_eq!(Unit::Pawn(Side::White, true).get_id(), 6);
    assert_eq!(Unit::Bishop(Side::White).get_id(), 7);
    assert_eq!(Unit::Knight(Side::White).get_id(), 8);
    assert_eq!(Unit::Rook(Side::White, false).get_id(), 9);
    assert_eq!(Unit::Queen(Side::White).get_id(), 10);
    assert_eq!(Unit::King(Side::White, true).get_id(), 11);
}

#[test]
fn test_unit_id_strings() {
    assert_eq!(Unit::Pawn(Side::Black, false).get_id_str(), "pawn_b");
    assert_eq!(Unit::Queen(Side::White).get_id_str(), "queen_w");
    assert_eq!(Unit::King(Side::Black, true).get_id_str(), "king_b");
    assert_eq!(Unit::Rook(Side::White, false).get_id_str(), "rook_w");
}

#[test]
fn test_unit_names() {
    assert_eq!(Unit::Pawn(Side::Black, false).get_name(), "Pawn");
    assert_eq!(Unit::Bishop(Side::White).get_name(), "Bishop");
    assert_eq!(Unit::King(Side::White, false).get_name(), "King");
}

#[test]
fn test_change_type() {
    let pawn = Unit::Pawn(Side::White, true);
    assert_eq!(pawn.change_type(&Unit::Queen(Side::Black)), Unit::Queen(Side::White));
    assert_eq!(pawn.change_type(&Unit::Rook(Side::Black, false)), Unit::Rook(Side::White, true));
    // retyping to a king is refused and yields a pawn again
    assert_eq!(
        pawn.change_type(&Unit::King(Side::Black, false)),
        Unit::Pawn(Side::White, true)
    );
}

#[test]
fn test_side_swap_oppose() {
    let mut side = Side::White;
    side.swap();
    assert_eq!(side, Side::Black);
    side.swap();
    assert_eq!(side, Side::White);
    assert_eq!(Side::White.oppose(), Side::Black);
    assert_eq!(Side::Black.oppose(), Side::White);
    assert_eq!(Side::Black.label(), "Black");
    assert_eq!(Side::White.label(), "White");
}
