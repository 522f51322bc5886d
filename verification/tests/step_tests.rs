use chess::board::Board;
use chess::pos::Pos;
use chess::side::Side;
use chess::step::Step;

fn sq(s: &str) -> Pos {
    Pos::from_text(s).unwrap()
}

#[test]
fn test_no_condition() {
    let step = Step::new(true);

    let step = step.evaluate(&Board::default());

    assert!(step.is_valid());
    assert_eq!(step.condition_state.step_result.group_id, Some(0));
}

#[test]
fn test_invalid() {
    let mut step = Step::new(false);

    // [Group 0:] H2 -> Pawn
    step.add_cond_pos_is_none(sq("H2"));

    let step = step.evaluate(&Board::default());

    assert!(!step.is_valid());
    assert_eq!(step.condition_state.step_result.group_id, None);
}

#[test]
fn test_invalid_base_ignores_groups() {
    let mut step = Step::new(false);

    // [Group 0:] H2 -> Pawn
    step.add_cond_pos_is_none(sq("H2"));

    // [Group 1:] D4 -> Empty; satisfiable, but the base flag is false
    step.next_group();
    step.add_cond_pos_is_none(sq("D4"));

    let step = step.evaluate(&Board::default());

    assert!(!step.is_valid());
    assert_eq!(step.condition_state.step_result.group_id, None);
}

#[test]
fn test_empty1() {
    let mut step = Step::new(true);

    // [Group 0:] D4 -> Empty
    step.add_cond_pos_is_none(sq("D4"));

    // [Group 1:] H2 -> Pawn
    step.next_group();
    step.add_cond_pos_is_none(sq("H2"));

    // [Group 2:] D8 -> Queen
    step.next_group();
    step.add_cond_pos_is_none(sq("D8"));

    let step = step.evaluate(&Board::default());

    assert!(step.is_valid());
    assert_eq!(step.condition_state.step_result.group_id, Some(0));
}

#[test]
fn test_empty2() {
    let mut step = Step::new(true);

    // [Group 0:] H2 -> Pawn
    step.add_cond_pos_is_none(sq("H2"));

    // [Group 1:] E1 -> King
    step.next_group();
    step.add_cond_pos_is_none(sq("E1"));

    // [Group 2:] D8 -> Queen
    step.next_group();
    step.add_cond_pos_is_none(sq("D8"));

    let step = step.evaluate(&Board::default());

    assert!(!step.is_valid());
    assert_eq!(step.condition_state.step_result.group_id, None);
}

#[test]
fn test_empty3() {
    let mut step = Step::new(true);

    // [Group 0:] H2 -> Pawn | A2 -> Pawn
    step.add_cond_pos_is_none(sq("H2"));
    step.add_cond_pos_is_none(sq("A2"));

    // [Group 1:] D4 -> Empty | H4 -> Empty | D4 -> Empty
    step.next_group();
    step.add_cond_pos_is_none(sq("D4"));
    step.add_cond_pos_is_none(sq("H4"));
    step.add_cond_pos_is_none(sq("D4"));

    // [Group 2:] D4 -> Empty | H4 -> Empty | A2 -> Pawn
    step.next_group();
    step.add_cond_pos_is_none(sq("D4"));
    step.add_cond_pos_is_none(sq("H4"));
    step.add_cond_pos_is_none(sq("A2"));

    let step = step.evaluate(&Board::default());

    assert!(step.is_valid());
    assert_eq!(step.condition_state.step_result.group_id, Some(1));
}

#[test]
fn test_empty_group1() {
    let mut step = Step::new(true);

    // Opening a group before any condition exists should do nothing here!
    step.next_group();

    // [Group 0:] D4 -> Empty | H2 -> Pawn | E4 -> Empty
    step.add_cond_pos_is_none(sq("D4"));
    step.add_cond_pos_is_none(sq("H2"));
    step.add_cond_pos_is_none(sq("E4"));

    // [Group 1:] D4 -> Empty | H4 -> Empty | A4 -> Empty
    step.next_group();
    step.add_cond_pos_is_none(sq("D4"));
    step.add_cond_pos_is_none(sq("H4"));
    step.add_cond_pos_is_none(sq("A4"));

    let step = step.evaluate(&Board::default());

    assert!(step.is_valid());
    assert_eq!(step.condition_state.step_result.group_id, Some(1));
}

#[test]
fn test_empty_group2() {
    let mut step = Step::new(true);

    // [Group 0:] D4 -> Empty | H2 -> Pawn | E4 -> Empty
    step.next_group();
    step.add_cond_pos_is_none(sq("D4"));
    step.add_cond_pos_is_none(sq("H2"));
    step.add_cond_pos_is_none(sq("E4"));

    // [Group 1:] D4 -> Empty | E2 -> Pawn
    step.next_group();
    step.add_cond_pos_is_none(sq("D4"));
    step.add_cond_pos_is_none(sq("E2"));

    // [Group 2:] Empty Group
    step.next_group();

    let step = step.evaluate(&Board::default());

    assert!(!step.is_valid());
    assert_eq!(step.condition_state.step_result.group_id, None);
}

#[test]
fn test_last_condition_valid() {
    let mut step = Step::new(true);

    // [Group 0:] B8 -> Black Knight
    step.add_cond_pos_is_enemy(sq("B8"), &Side::Black);

    // [Group 1:] B1 -> White Knight
    step.next_group();
    step.add_cond_pos_is_enemy_or_none(sq("B1"), &Side::White);

    // [Group 2:] F7 -> Pawn
    step.next_group();
    step.add_cond_pos_is_none(sq("F7"));

    // [Group 3:] E8 -> King
    step.next_group();
    step.add_cond_pos_not_king(sq("E8"));

    // [Group 4:] H8 -> Rook (Moved = false)
    step.next_group();
    step.add_cond_pos_not_moved(sq("H8"));

    let step = step.evaluate(&Board::default());

    assert!(step.is_valid());
    assert_eq!(step.condition_state.step_result.group_id, Some(4));
}
