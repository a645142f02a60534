use rand::rngs::StdRng;
use rand::SeedableRng;
use sand_simulation::cell::{Cellule, Kind, State};
use sand_simulation::controller::{App, CreationMode, Msg, SIZE_CURSOR};
use sand_simulation::cursor::Brush;
use sand_simulation::grid::Grid;

fn ring_offsets(size: usize) -> Vec<(i32, i32)> {
    let mut offsets = Vec::new();
    for radius in 0..size {
        for rad in 0..360 {
            let angle = (rad as f64).to_radians();
            let x = (radius as f64 * angle.cos()).round() as i32;
            let y = (radius as f64 * angle.sin()).round() as i32;
            offsets.push((x, y));
        }
    }
    offsets
}

fn app(width: usize, height: usize) -> App {
    App::new(
        Grid::new(width, height).unwrap(),
        Brush::new(ring_offsets(20)).unwrap(),
        StdRng::seed_from_u64(42),
    )
}

fn fine(width: usize, height: usize) -> App {
    let mut app = app(width, height);
    assert!(!app.update(Msg::ChangeSizeCursor(1)));
    app
}

fn sand(pressure: u8) -> Cellule {
    Cellule { kind: Some(Kind::Sand), state: State::Alive, pressure }
}

fn rock() -> Cellule {
    Cellule { kind: Some(Kind::Rock), state: State::Alive, pressure: 0 }
}

fn empty() -> Cellule {
    Cellule { kind: None, state: State::Dead, pressure: 0 }
}

fn lives(app: &App) -> Vec<bool> {
    app.cellules()
        .iter()
        .map(|cell| cell.state == State::Alive || cell.state == State::HoverAlive)
        .collect()
}

#[test]
fn a_new_simulation_runs_and_adds_sand_with_a_cursor_of_eight() {
    let app = app(80, 50);
    assert_eq!(SIZE_CURSOR, 8);
    assert!(app.active());
    assert_eq!(app.size_cursor(), 8);
    assert_eq!(app.creation_mode(), CreationMode::Add);
    assert_eq!(app.kind_cell(), Kind::Sand);
    assert_eq!(app.cellules_width(), 80);
    assert_eq!(app.cellules_height(), 50);
    assert_eq!(app.cellules().len(), 4000);
    assert!(app.cellules().iter().all(|cell| *cell == empty()));
    assert_eq!(app.grid().pressure_scale(), 128);
}

#[test]
fn add_paints_the_cells_under_the_cursor() {
    let mut app = fine(5, 5);
    assert!(app.update(Msg::AddCellule(12)));
    for idx in 0..25 {
        assert_eq!(app.cellules()[idx], if idx == 12 { sand(0) } else { empty() });
    }
    // nothing changes the second time
    assert!(!app.update(Msg::AddCellule(12)));
}

#[test]
fn add_with_a_wider_cursor() {
    let mut app = app(7, 7);
    app.update(Msg::ChangeSizeCursor(2));
    assert!(app.update(Msg::AddCellule(24)));
    let painted: Vec<usize> = (0..49).filter(|idx| app.cellules()[*idx] == sand(0)).collect();
    assert_eq!(painted, vec![16, 17, 18, 23, 24, 25, 30, 31, 32]);
    assert_eq!(lives(&app).iter().filter(|alive| **alive).count(), 9);
}

#[test]
fn add_paints_the_kind_that_is_set() {
    let mut app = fine(3, 3);
    assert!(!app.update(Msg::ChangeKindCell(Kind::Rock)));
    assert_eq!(app.kind_cell(), Kind::Rock);
    assert!(app.update(Msg::AddCellule(4)));
    assert_eq!(app.cellules()[4], rock());
    assert!(!app.update(Msg::ChangeKindCell(Kind::Sand)));
    assert!(app.update(Msg::AddCellule(4)));
    assert_eq!(app.cellules()[4], sand(0));
}

#[test]
fn remove_empties_the_cells_under_the_cursor() {
    let mut app = app(5, 5);
    app.update(Msg::ChangeSizeCursor(20));
    assert!(app.update(Msg::AddCellule(12)));
    assert!(lives(&app).iter().all(|alive| *alive));
    app.update(Msg::ChangeSizeCursor(2));
    assert!(app.update(Msg::RemoveCellule(12)));
    let alive: Vec<usize> = (0..25).filter(|idx| lives(&app)[*idx]).collect();
    assert_eq!(alive, vec![0, 1, 2, 3, 4, 5, 9, 10, 14, 15, 19, 20, 21, 22, 23, 24]);
    assert_eq!(app.cellules()[12], empty());
    assert!(!app.update(Msg::RemoveCellule(12)));
}

#[test]
fn toggle_twice_restores_the_lives() {
    for size in [1, 2, 3, 8] {
        let mut app = app(9, 9);
        app.update(Msg::Pause);
        app.update(Msg::ChangeSizeCursor(3));
        app.update(Msg::AddCellule(30));
        app.update(Msg::ChangeKindCell(Kind::Rock));
        app.update(Msg::ChangeSizeCursor(size));
        let before = lives(&app);
        app.update(Msg::ToggleCellule(40));
        app.update(Msg::ToggleCellule(40));
        assert_eq!(lives(&app), before);
    }
}

#[test]
fn toggle_with_a_cursor_of_one_ring_hits_the_cell_an_even_number_of_times() {
    let mut app = fine(3, 3);
    // a dead cell is dead again after the 360 hits of one stroke
    assert!(!app.update(Msg::ToggleCellule(4)));
    assert_eq!(app.cellules()[4], empty());
    // an alive cell is alive again, with the kind that is set
    app.update(Msg::AddCellule(4));
    app.update(Msg::ChangeKindCell(Kind::Rock));
    assert!(app.update(Msg::ToggleCellule(4)));
    assert_eq!(app.cellules()[4], rock());
    assert!(!app.update(Msg::ToggleCellule(4)));
    assert_eq!(app.cellules()[4], rock());
}

#[test]
fn mouse_over_and_out() {
    let mut app = fine(3, 3);
    app.update(Msg::AddCellule(4));
    assert!(app.update(Msg::MouseOver(4)));
    assert_eq!(app.cellules()[4].state, State::HoverAlive);
    assert!(!app.update(Msg::MouseOver(4)));
    assert!(app.update(Msg::MouseOver(5)));
    assert_eq!(app.cellules()[5], Cellule { kind: None, state: State::HoverDead, pressure: 0 });
    assert!(app.update(Msg::MouseOut(4)));
    assert_eq!(app.cellules()[4], sand(0));
    assert!(app.update(Msg::MouseOut(5)));
    assert_eq!(app.cellules()[5], empty());
    assert!(!app.update(Msg::MouseOut(5)));
}

#[test]
fn a_press_on_a_hovered_cell() {
    let mut app = fine(3, 3);
    app.update(Msg::Pause);
    app.update(Msg::MouseOver(4));
    assert!(app.update(Msg::AddCellule(4)));
    assert_eq!(app.cellules()[4], sand(0));
    assert!(!app.update(Msg::MouseOut(4)));
    assert_eq!(app.cellules()[4], sand(0));
}

#[test]
fn tick_moves_the_sand() {
    let mut app = fine(5, 5);
    app.update(Msg::AddCellule(2));
    assert!(app.update(Msg::Tick));
    assert_eq!(app.cellules()[2], empty());
    assert_eq!(app.cellules()[7], sand(0));
    for _ in 0..3 {
        assert!(app.update(Msg::Tick));
    }
    assert_eq!(app.cellules()[22], sand(0));
    assert!(!app.update(Msg::Tick));
    assert_eq!(app.cellules()[22], sand(0));
}

#[test]
fn tick_does_nothing_while_paused() {
    let mut app = fine(5, 5);
    app.update(Msg::AddCellule(2));
    assert!(!app.update(Msg::Pause));
    assert!(!app.active());
    for _ in 0..3 {
        assert!(!app.update(Msg::Tick));
    }
    assert_eq!(app.cellules()[2], sand(0));
    assert!(!app.update(Msg::Play));
    assert!(app.active());
    assert!(app.update(Msg::Tick));
    assert_eq!(app.cellules()[7], sand(0));
}

#[test]
fn reset_empties_the_grid_and_runs() {
    let mut app = app(9, 9);
    app.update(Msg::AddCellule(40));
    app.update(Msg::ChangeKindCell(Kind::Rock));
    app.update(Msg::AddCellule(70));
    app.update(Msg::Tick);
    app.update(Msg::MouseOver(13));
    app.update(Msg::Pause);
    assert!(app.update(Msg::Reset));
    assert!(app.active());
    assert!(app.cellules().iter().all(|cell| *cell == empty()));
    assert_eq!(app.cellules().len(), 81);
    // the settings stay
    assert_eq!(app.kind_cell(), Kind::Rock);
    assert_eq!(app.size_cursor(), 8);
    // a reset of an empty grid changes no cell
    app.update(Msg::Pause);
    assert!(!app.update(Msg::Reset));
    assert!(app.active());
}

#[test]
fn settings_change_no_cell() {
    let mut app = app(5, 5);
    app.update(Msg::AddCellule(12));
    let before = app.cellules().clone();
    assert!(!app.update(Msg::ChangeSizeCursor(3)));
    assert_eq!(app.size_cursor(), 3);
    assert!(!app.update(Msg::ChangeSizeCursor(20)));
    assert_eq!(app.size_cursor(), 20);
    assert!(!app.update(Msg::ChangeCreationMode(CreationMode::Remove)));
    assert_eq!(app.creation_mode(), CreationMode::Remove);
    assert!(!app.update(Msg::ChangeCreationMode(CreationMode::Toggle)));
    assert_eq!(app.creation_mode(), CreationMode::Toggle);
    assert!(!app.update(Msg::ChangeKindCell(Kind::Rock)));
    assert!(!app.update(Msg::Pause));
    assert!(!app.update(Msg::Play));
    assert_eq!(*app.cellules(), before);
}

#[test]
fn the_cursor_of_the_simulation() {
    let mut app = app(5, 5);
    assert_eq!(app.cicle_cursor(12)[..360], vec![12; 360][..]);
    assert!(app.cicle_cursor(12).len() > 720);
    app.update(Msg::ChangeSizeCursor(1));
    assert_eq!(app.cicle_cursor(12), vec![12; 360]);
    app.update(Msg::ChangeSizeCursor(0));
    assert!(app.cicle_cursor(12).is_empty());
    assert!(!app.update(Msg::AddCellule(12)));
}

#[test]
fn a_cursor_larger_than_the_brush() {
    let mut app = App::new(
        Grid::new(9, 9).unwrap(),
        Brush::new(ring_offsets(2)).unwrap(),
        StdRng::seed_from_u64(1),
    );
    app.update(Msg::ChangeSizeCursor(15));
    app.update(Msg::AddCellule(40));
    assert_eq!(lives(&app).iter().filter(|alive| **alive).count(), 9);
}

#[test]
fn a_press_off_the_grid() {
    let mut app = fine(3, 3);
    assert!(!app.update(Msg::AddCellule(9)));
    assert!(!app.update(Msg::AddCellule(usize::MAX)));
    assert!(app.cellules().iter().all(|cell| *cell == empty()));
}

#[test]
fn sand_stays_sand_through_many_commands() {
    let mut app = app(20, 20);
    app.update(Msg::ChangeSizeCursor(4));
    app.update(Msg::AddCellule(50));
    let grains = lives(&app).iter().filter(|alive| **alive).count();
    for _ in 0..100 {
        app.update(Msg::Tick);
        assert_eq!(lives(&app).iter().filter(|alive| **alive).count(), grains);
    }
    // the pile has reached the floor
    assert!((380..400).any(|idx| lives(&app)[idx]));
}
