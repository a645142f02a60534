use sand_simulation::cell::{Cellule, Kind, State};
use sand_simulation::cursor::{Brush, Effect, ANGLES};
use sand_simulation::grid::Grid;

/// The offsets of `size` rings: ring `r` at `a` degrees lies at
/// `(round(r cos a), round(r sin a))`.
fn ring_offsets(size: usize) -> Vec<(i32, i32)> {
    let mut offsets = Vec::new();
    for radius in 0..size {
        for rad in 0..360 {
            let angle = (rad as f64).to_radians();
            let x = (radius as f64 * angle.cos()).round() as i32;
            let y = (radius as f64 * angle.sin()).round() as i32;
            offsets.push((x, y));
        }
    }
    offsets
}

fn brush(size: usize) -> Brush {
    Brush::new(ring_offsets(size)).unwrap()
}

fn sorted_set(cells: &[usize]) -> Vec<usize> {
    let mut set = cells.to_vec();
    set.sort();
    set.dedup();
    set
}

fn sand(pressure: u8) -> Cellule {
    Cellule { kind: Some(Kind::Sand), state: State::Alive, pressure }
}

fn empty() -> Cellule {
    Cellule { kind: None, state: State::Dead, pressure: 0 }
}

#[test]
fn a_ring_has_a_sample_for_each_degree() {
    assert_eq!(ANGLES, 360);
}

#[test]
fn brush_of_sampled_rings_is_accepted() {
    let brush = brush(20);
    assert_eq!(brush.size(), 20);
    assert_eq!(brush.offset(0, 0), (0, 0));
    assert_eq!(brush.offset(0, 359), (0, 0));
    assert_eq!(brush.offset(1, 0), (1, 0));
    assert_eq!(brush.offset(1, 90), (0, 1));
    assert_eq!(brush.offset(1, 180), (-1, 0));
    assert_eq!(brush.offset(1, 270), (0, -1));
    assert_eq!(brush.offset(1, 45), (1, 1));
    assert_eq!(brush.offset(19, 0), (19, 0));
    assert_eq!(brush.offset(10, 90), (0, 10));
    assert_eq!(brush.offset(5, 180), (-5, 0));
}

#[test]
fn brush_without_rings_is_accepted() {
    assert_eq!(Brush::new(Vec::new()).unwrap().size(), 0);
}

#[test]
fn brush_of_a_broken_ring_is_refused() {
    let mut offsets = ring_offsets(2);
    offsets.pop();
    assert!(Brush::new(offsets).is_none());
    assert!(Brush::new(vec![(0, 0); 359]).is_none());
    assert!(Brush::new(vec![(0, 0); 361]).is_none());
}

#[test]
fn brush_with_a_sample_beyond_its_radius_is_refused() {
    let mut offsets = ring_offsets(3);
    offsets[0] = (1, 0);
    assert!(Brush::new(offsets).is_none());
    let mut offsets = ring_offsets(3);
    offsets[359] = (0, -1);
    assert!(Brush::new(offsets).is_none());
    let mut offsets = ring_offsets(3);
    offsets[360] = (2, 0);
    assert!(Brush::new(offsets).is_none());
    let mut offsets = ring_offsets(3);
    offsets[1079] = (0, 3);
    assert!(Brush::new(offsets).is_none());
    let mut offsets = ring_offsets(3);
    offsets[1079] = (-2, 2);
    assert!(Brush::new(offsets).is_some());
    let mut offsets = ring_offsets(3);
    offsets[400] = (i32::MIN, 0);
    assert!(Brush::new(offsets).is_none());
}

#[test]
fn cursor_of_one_ring_hits_the_centre_with_each_sample() {
    let grid = Grid::new(5, 5).unwrap();
    let brush = brush(20);
    assert_eq!(grid.cicle_cursor(12, &brush, 1), vec![12; 360]);
    assert_eq!(grid.cicle_cursor(0, &brush, 1), vec![0; 360]);
    assert_eq!(grid.cicle_cursor(24, &brush, 1), vec![24; 360]);
}

#[test]
fn cursor_of_no_ring_is_empty() {
    let grid = Grid::new(5, 5).unwrap();
    assert_eq!(grid.cicle_cursor(12, &brush(20), 0), Vec::<usize>::new());
    assert_eq!(grid.cicle_cursor(12, &brush(0), 8), Vec::<usize>::new());
}

#[test]
fn cursor_of_two_rings_covers_the_cells_around() {
    let grid = Grid::new(5, 5).unwrap();
    let cells = grid.cicle_cursor(12, &brush(20), 2);
    assert_eq!(cells.len(), 720);
    assert_eq!(cells[..360], vec![12; 360][..]);
    assert_eq!(sorted_set(&cells), vec![6, 7, 8, 11, 12, 13, 16, 17, 18]);
    // ring 1 starts to the right and turns by way of the row below
    assert_eq!(cells[360], 13);
    assert_eq!(cells[360 + 45], 18);
    assert_eq!(cells[360 + 90], 17);
    assert_eq!(cells[360 + 180], 11);
    assert_eq!(cells[360 + 270], 7);
}

#[test]
fn cursor_of_three_rings() {
    let grid = Grid::new(7, 7).unwrap();
    let cells = sorted_set(&grid.cicle_cursor(24, &brush(20), 3));
    // ring 2 adds the cells two away in a row or a column and those a
    // knight's move away, and the corners one and a half away
    let expected: Vec<usize> = (0..49)
        .filter(|idx| {
            let di = (idx / 7) as i32 - 3;
            let dj = (idx % 7) as i32 - 3;
            di.abs() <= 2 && dj.abs() <= 2 && !(di.abs() == 2 && dj.abs() == 2)
        })
        .collect();
    assert_eq!(cells, expected);
}

#[test]
fn cursor_drops_what_falls_off_the_grid() {
    let grid = Grid::new(5, 5).unwrap();
    let brush = brush(20);
    let corner = grid.cicle_cursor(0, &brush, 2);
    assert_eq!(sorted_set(&corner), vec![0, 1, 5, 6]);
    assert!(corner.len() < 720);
    let far = grid.cicle_cursor(24, &brush, 2);
    assert_eq!(sorted_set(&far), vec![18, 19, 23, 24]);
    let edge = grid.cicle_cursor(2, &brush, 2);
    assert_eq!(sorted_set(&edge), vec![1, 2, 3, 6, 7, 8]);
    let all = grid.cicle_cursor(12, &brush, 20);
    assert_eq!(sorted_set(&all), (0..25).collect::<Vec<usize>>());
    assert!(all.iter().all(|idx| *idx < 25));
}

#[test]
fn cursor_does_not_wrap_round_the_rows() {
    let grid = Grid::new(4, 3).unwrap();
    // the cell at the right end of row 0: nothing of row 1's left end
    let cells = sorted_set(&grid.cicle_cursor(3, &brush(20), 2));
    assert_eq!(cells, vec![2, 3, 6, 7]);
    let cells = sorted_set(&grid.cicle_cursor(4, &brush(20), 2));
    assert_eq!(cells, vec![0, 1, 4, 5, 8, 9]);
}

#[test]
fn cursor_larger_than_the_brush_takes_the_whole_brush() {
    let grid = Grid::new(9, 9).unwrap();
    let small = brush(2);
    assert_eq!(grid.cicle_cursor(40, &small, 8), grid.cicle_cursor(40, &small, 2));
    assert_eq!(grid.cicle_cursor(40, &small, usize::MAX), grid.cicle_cursor(40, &small, 2));
}

#[test]
fn cursor_round_a_centre_below_the_grid() {
    let grid = Grid::new(3, 3).unwrap();
    // index 9 would be row 3, column 0
    assert_eq!(grid.cicle_cursor(9, &brush(20), 1), Vec::<usize>::new());
    assert_eq!(sorted_set(&grid.cicle_cursor(9, &brush(20), 2)), vec![6, 7]);
}

#[test]
fn cursor_on_a_grid_without_columns_is_empty() {
    let grid = Grid::new(0, 3).unwrap();
    assert_eq!(grid.cicle_cursor(0, &brush(20), 8), Vec::<usize>::new());
}

#[test]
fn cursor_follows_the_table_it_is_given() {
    let grid = Grid::new(5, 5).unwrap();
    let mut offsets = vec![(0, 0); 720];
    offsets[360] = (1, -1);
    offsets[361] = (-1, 1);
    let brush = Brush::new(offsets).unwrap();
    let cells = grid.cicle_cursor(12, &brush, 2);
    assert_eq!(cells.len(), 720);
    assert_eq!(cells[360], 8);
    assert_eq!(cells[361], 16);
    assert_eq!(cells[362], 12);
}

#[test]
fn stamp_adds() {
    let mut grid = Grid::new(3, 1).unwrap();
    grid.set_cell(1, Cellule { kind: Some(Kind::Sand), state: State::HoverAlive, pressure: 3 });
    grid.stamp(&vec![0, 1, 0], Effect::Add(Kind::Rock));
    assert_eq!(grid.cell(0), Cellule { kind: Some(Kind::Rock), state: State::Alive, pressure: 0 });
    assert_eq!(grid.cell(1), Cellule { kind: Some(Kind::Rock), state: State::Alive, pressure: 3 });
    assert_eq!(grid.cell(2), empty());
}

#[test]
fn stamp_removes() {
    let mut grid = Grid::new(3, 1).unwrap();
    grid.set_cell(1, sand(3));
    grid.set_cell(2, sand(1));
    grid.stamp(&vec![0, 1], Effect::Remove);
    assert_eq!(grid.cell(0), empty());
    assert_eq!(grid.cell(1), empty());
    assert_eq!(grid.cell(2), sand(1));
}

#[test]
fn stamp_toggles_once_for_each_hit() {
    let mut grid = Grid::new(4, 1).unwrap();
    grid.set_cell(1, sand(3));
    grid.set_cell(3, sand(2));
    // cell 0 once, cell 1 once, cell 2 twice, cell 3 twice
    grid.stamp(&vec![0, 2, 1, 3, 2, 3], Effect::Toggle(Kind::Rock));
    assert_eq!(grid.cell(0), Cellule { kind: Some(Kind::Rock), state: State::Alive, pressure: 0 });
    assert_eq!(grid.cell(1), empty());
    assert_eq!(grid.cell(2), empty());
    assert_eq!(grid.cell(3), Cellule { kind: Some(Kind::Rock), state: State::Alive, pressure: 0 });
}

#[test]
fn stamp_hovers_and_unhovers() {
    let mut grid = Grid::new(3, 1).unwrap();
    grid.set_cell(1, sand(3));
    grid.stamp(&vec![0, 1, 1], Effect::MouseOver);
    assert_eq!(grid.cell(0), Cellule { kind: None, state: State::HoverDead, pressure: 0 });
    assert_eq!(grid.cell(1), Cellule { kind: Some(Kind::Sand), state: State::HoverAlive, pressure: 3 });
    assert_eq!(grid.cell(2), empty());
    grid.stamp(&vec![0, 1, 2], Effect::MouseOut);
    assert_eq!(grid.cell(0), empty());
    assert_eq!(grid.cell(1), sand(3));
    assert_eq!(grid.cell(2), empty());
}

#[test]
fn stamp_of_no_cell_changes_nothing() {
    let mut grid = Grid::new(2, 1).unwrap();
    grid.set_cell(1, sand(3));
    grid.stamp(&Vec::new(), Effect::Remove);
    assert_eq!(grid.cell(1), sand(3));
}

#[test]
fn effect_on_a_cell() {
    let mut cell = sand(2);
    Effect::Toggle(Kind::Rock).apply(&mut cell);
    assert_eq!(cell, empty());
    Effect::Toggle(Kind::Rock).apply(&mut cell);
    assert_eq!(cell, Cellule { kind: Some(Kind::Rock), state: State::Alive, pressure: 0 });
    Effect::MouseOver.apply(&mut cell);
    assert_eq!(cell.state, State::HoverAlive);
    Effect::Add(Kind::Sand).apply(&mut cell);
    assert_eq!(cell, sand(0));
    Effect::MouseOut.apply(&mut cell);
    assert_eq!(cell, sand(0));
    Effect::Remove.apply(&mut cell);
    assert_eq!(cell, empty());
}

#[test]
fn clear_empties_every_cell() {
    let mut grid = Grid::new(3, 2).unwrap();
    grid.set_cell(0, sand(3));
    grid.set_cell(4, Cellule { kind: Some(Kind::Rock), state: State::HoverAlive, pressure: 9 });
    grid.set_cell(5, Cellule { kind: None, state: State::HoverDead, pressure: 0 });
    grid.clear();
    assert_eq!(grid.cellules().len(), 6);
    assert!(grid.cellules().iter().all(|cell| *cell == empty()));
}
