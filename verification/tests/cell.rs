use sand_simulation::cell::{Cellule, Kind, State};

fn cell(kind: Option<Kind>, state: State, pressure: u8) -> Cellule {
    Cellule { kind, state, pressure }
}

#[test]
fn new_cell_is_dead_and_empty() {
    assert_eq!(Cellule::new(), cell(None, State::Dead, 0));
}

#[test]
fn set_alive_is_unconditional() {
    for state in [State::Dead, State::Alive, State::HoverAlive, State::HoverDead] {
        let mut c = cell(Some(Kind::Sand), state, 3);
        c.set_alive();
        assert_eq!(c, cell(Some(Kind::Sand), State::Alive, 3));
    }
}

#[test]
fn set_dead_clears_kind_and_pressure() {
    for state in [State::Dead, State::Alive, State::HoverAlive, State::HoverDead] {
        let mut c = cell(Some(Kind::Rock), state, 7);
        c.set_dead();
        assert_eq!(c, cell(None, State::Dead, 0));
    }
}

#[test]
fn set_kind_and_set_pressure_keep_the_life_state() {
    let mut c = cell(None, State::HoverDead, 0);
    c.set_kind(Kind::Rock);
    assert_eq!(c, cell(Some(Kind::Rock), State::HoverDead, 0));
    c.set_pressure(9);
    assert_eq!(c, cell(Some(Kind::Rock), State::HoverDead, 9));
    c.set_kind(Kind::Sand).set_pressure(2).set_kind(Kind::Rock);
    assert_eq!(c, cell(Some(Kind::Rock), State::HoverDead, 2));
}

#[test]
fn alive_and_hover_alive_are_alive() {
    assert!(cell(Some(Kind::Sand), State::Alive, 0).is_alive());
    assert!(cell(Some(Kind::Sand), State::HoverAlive, 0).is_alive());
    assert!(!cell(None, State::Dead, 0).is_alive());
    assert!(!cell(None, State::HoverDead, 0).is_alive());
    assert!(!cell(Some(Kind::Sand), State::Alive, 0).is_dead());
    assert!(!cell(Some(Kind::Sand), State::HoverAlive, 0).is_dead());
    assert!(cell(None, State::Dead, 0).is_dead());
    assert!(cell(None, State::HoverDead, 0).is_dead());
}

#[test]
fn mouse_over_records_the_life() {
    let mut alive = cell(Some(Kind::Sand), State::Alive, 4);
    alive.set_mouse_over();
    assert_eq!(alive, cell(Some(Kind::Sand), State::HoverAlive, 4));
    alive.set_mouse_over();
    assert_eq!(alive, cell(Some(Kind::Sand), State::HoverAlive, 4));

    let mut dead = cell(None, State::Dead, 0);
    dead.set_mouse_over();
    assert_eq!(dead, cell(None, State::HoverDead, 0));
    dead.set_mouse_over();
    assert_eq!(dead, cell(None, State::HoverDead, 0));
}

#[test]
fn mouse_out_restores_the_life() {
    let mut alive = cell(Some(Kind::Rock), State::HoverAlive, 1);
    alive.set_mouse_out();
    assert_eq!(alive, cell(Some(Kind::Rock), State::Alive, 1));
    alive.set_mouse_out();
    assert_eq!(alive, cell(Some(Kind::Rock), State::Alive, 1));

    let mut dead = cell(None, State::HoverDead, 0);
    dead.set_mouse_out();
    assert_eq!(dead, cell(None, State::Dead, 0));
    dead.set_mouse_out();
    assert_eq!(dead, cell(None, State::Dead, 0));
}

#[test]
fn hover_in_and_out_is_the_identity_on_plain_cells() {
    for start in [cell(Some(Kind::Sand), State::Alive, 5), cell(None, State::Dead, 0)] {
        let mut c = start;
        c.set_mouse_over();
        c.set_mouse_out();
        assert_eq!(c, start);
    }
}
