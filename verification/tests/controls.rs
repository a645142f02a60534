use sand_simulation::cell::{Kind, State};
use sand_simulation::controller::{CreationMode, Msg};
use sand_simulation::controls::{
    cellule_class, kind_class, kind_named, size_cursor_from, MAX_SIZE_CURSOR, MIN_SIZE_CURSOR,
};

#[test]
fn class_of_each_life_state() {
    assert_eq!(cellule_class(State::Alive), "cellule-alive");
    assert_eq!(cellule_class(State::HoverAlive), "cellule-mouse-over-alive");
    assert_eq!(cellule_class(State::HoverDead), "cellule-mouse-over-dead");
    assert_eq!(cellule_class(State::Dead), "cellule-dead");
}

#[test]
fn class_of_each_kind() {
    assert_eq!(kind_class(Some(Kind::Sand)), "sand");
    assert_eq!(kind_class(Some(Kind::Rock)), "rock");
    assert_eq!(kind_class(None), "air");
}

#[test]
fn action_of_each_mode() {
    assert!(matches!(CreationMode::Add.action(7), Msg::AddCellule(7)));
    assert!(matches!(CreationMode::Remove.action(8), Msg::RemoveCellule(8)));
    assert!(matches!(CreationMode::Toggle.action(9), Msg::ToggleCellule(9)));
}

#[test]
fn kind_of_each_name() {
    assert_eq!(kind_named("sand"), Kind::Sand);
    assert_eq!(kind_named("rock"), Kind::Rock);
    assert_eq!(kind_named(""), Kind::Sand);
    assert_eq!(kind_named("air"), Kind::Sand);
    assert_eq!(kind_named("Rock"), Kind::Sand);
    assert_eq!(kind_named("rocks"), Kind::Sand);
    assert_eq!(kind_named("roc"), Kind::Sand);
    assert_eq!(kind_named("r\u{f6}ck"), Kind::Sand);
    assert_eq!(kind_named("\u{1f5ff}ock"), Kind::Sand);
}

#[test]
fn size_of_the_cursor_from_the_control() {
    assert_eq!(MIN_SIZE_CURSOR, 1);
    assert_eq!(MAX_SIZE_CURSOR, 20);
    assert_eq!(size_cursor_from(Some(1)), 1);
    assert_eq!(size_cursor_from(Some(8)), 8);
    assert_eq!(size_cursor_from(Some(13)), 13);
    assert_eq!(size_cursor_from(Some(20)), 20);
    assert_eq!(size_cursor_from(Some(0)), 1);
    assert_eq!(size_cursor_from(Some(21)), 20);
    assert_eq!(size_cursor_from(Some(usize::MAX)), 20);
    assert_eq!(size_cursor_from(None), 8);
    assert_eq!(size_cursor_from("12".parse().ok()), 12);
    assert_eq!(size_cursor_from("twelve".parse().ok()), 8);
}
