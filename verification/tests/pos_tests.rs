use chess::pos::Pos;

fn sq(s: &str) -> Pos {
    Pos::from_text(s).unwrap()
}

#[test]
fn test_up() {
    assert_eq!(sq("D5"), sq("D4").up());
}

#[test]
fn test_up_left() {
    assert_eq!(sq("C5"), sq("D4").up_left());
}

#[test]
fn test_up_right() {
    assert_eq!(sq("E5"), sq("D4").up_right());
}

#[test]
fn test_down() {
    assert_eq!(sq("D3"), sq("D4").down());
}

#[test]
fn test_down_left() {
    assert_eq!(sq("C3"), sq("D4").down_left());
}

#[test]
fn test_down_right() {
    assert_eq!(sq("E3"), sq("D4").down_right());
}

#[test]
fn test_left() {
    assert_eq!(sq("C4"), sq("D4").left());
}

#[test]
fn test_right() {
    assert_eq!(sq("E4"), sq("D4").right());
}

#[test]
fn test_checked() {
    assert_eq!(sq("D8"), sq("D8").checked_up());
    assert_eq!(sq("H4"), sq("H4").checked_right());
}

#[test]
fn test_non_checked() {
    assert_eq!(Pos::new(3, -1), sq("D8").up());
    assert_eq!(Pos::new(8, 4), sq("H4").right());
}

#[test]
fn test_to1() {
    assert_eq!(sq("D2").to(&sq("D2")), vec![]);
}

#[test]
fn test_to2() {
    assert_eq!(sq("D2").to(&sq("E4")), vec![]);
}

#[test]
fn test_to3() {
    assert_eq!(sq("D5").to(&sq("G8")), vec![sq("E6"), sq("F7")]);
}

#[test]
fn test_to4() {
    assert_eq!(
        sq("H1").to(&sq("A1")),
        vec![sq("G1"), sq("F1"), sq("E1"), sq("D1"), sq("C1"), sq("B1")]
    );
}

#[test]
fn test_fromstr1() {
    assert_eq!(sq("D5"), Pos::new(3, 3));
}

#[test]
fn test_fromstr2() {
    assert_eq!(sq("E6"), Pos::new(4, 2));
}

#[test]
fn test_fromstr3() {
    assert_eq!(sq("F7"), Pos::new(5, 1));
}

#[test]
fn test_fromstr4() {
    assert_eq!(sq("G8"), Pos::new(6, 0));
}

#[test]
fn test_test_up() {
    assert_eq!(sq("D5"), sq("D4").up());
}

#[test]
fn test_test_up_left() {
    assert_eq!(sq("C5"), sq("D4").up_left());
}

#[test]
fn test_test_up_right() {
    assert_eq!(sq("E5"), sq("D4").up_right());
}

#[test]
fn test_test_down() {
    assert_eq!(sq("D3"), sq("D4").down());
}

#[test]
fn test_test_down_left() {
    assert_eq!(sq("C3"), sq("D4").down_left());
}

#[test]
fn test_test_down_right() {
    assert_eq!(sq("E3"), sq("D4").down_right());
}

#[test]
fn test_test_left() {
    assert_eq!(sq("C4"), sq("D4").left());
}

#[test]
fn test_test_right() {
    assert_eq!(sq("E4"), sq("D4").right());
}

#[test]
fn test_test_to1() {
    assert_eq!(sq("D2").to(&sq("D2")), vec![]);
}

#[test]
fn test_test_to2() {
    assert_eq!(sq("D2").to(&sq("D2")), vec![]);
}

#[test]
fn test_test_to3() {
    assert_eq!(sq("D2").to(&sq("D2")), vec![]);
}

#[test]
fn test_parse_rejects_bad_text() {
    assert_eq!(Pos::from_text(""), None);
    assert_eq!(Pos::from_text("D"), None);
    assert_eq!(Pos::from_text("D55"), None);
    assert_eq!(Pos::from_text("I1"), None);
    assert_eq!(Pos::from_text("A0"), None);
    assert_eq!(Pos::from_text("A9"), None);
    assert_eq!(Pos::from_text("5D"), None);
}

#[test]
fn test_parse_accepts_lowercase() {
    assert_eq!(Pos::from_text("d5"), Some(Pos::new(3, 3)));
    assert_eq!(Pos::from_text("h8"), Some(Pos::new(7, 0)));
    assert_eq!(Pos::from_text("a1"), Some(Pos::new(0, 7)));
}

#[test]
fn test_onboard_bounds() {
    assert!(Pos::new(0, 0).is_onboard());
    assert!(Pos::new(7, 7).is_onboard());
    assert!(!Pos::new(-1, 0).is_onboard());
    assert!(!Pos::new(0, 8).is_onboard());
}

#[test]
fn test_abs_and_sum() {
    assert_eq!(Pos::new(-3, 2).abs(), Pos::new(3, 2));
    assert_eq!(Pos::new(-3, 2).sum(), -1);
    assert_eq!(Pos::new(0, 0).sum(), 0);
}

#[test]
fn test_row_column_edges() {
    assert_eq!(sq("D4").start_row(), sq("A4"));
    assert_eq!(sq("D4").end_row(), sq("H4"));
    assert_eq!(sq("D4").start_column(), sq("D8"));
    assert_eq!(sq("D4").end_column(), sq("D1"));
}
