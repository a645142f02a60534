//! Falling: a sand cell above a dead cell is found in the cell below after
//! the tick, whatever else is on the board and whatever is drawn.

use crate::cell::Kind;
use crate::grid::{lemma_index_in_range, lemma_rows_apart, Board};
use crate::invariants::{lemma_fall_before_slip, lemma_visit_keeps_alive, lemma_visit_touches};
use crate::physics::{
    lemma_sand_step_shape, lemma_slip_target_free, lemma_swept_row_shape, lemma_swept_shape,
};
use vstd::prelude::*;

verus! {

/// A visit in the row of an alive cell does not touch the cell below that
/// cell: nothing falls there from another column, and nothing slips there
/// while the cell above is alive.
pub proof fn lemma_visit_spares_below(b: Board, i: int, column: int, draw: int, j: int)
    requires
        b.cells.len() == b.width * b.height,
        b.index(i, column) is Some,
        b.index(i, j) is Some,
        b.index(i + 1, j) is Some,
        column != j,
        b.cells[i * b.width + j].alive(),
    ensures
        b.visited(i, column, draw).cells[(i + 1) * b.width + j] == b.cells[(i + 1) * b.width + j],
{
    lemma_index_in_range(b, i, column);
    lemma_index_in_range(b, i, j);
    lemma_index_in_range(b, i + 1, j);
    lemma_index_in_range(b, i + 1, column);
    lemma_rows_apart(b.width as int, i + 1, j, i);
    let pressed = b.pressed(i, column);
    if pressed.slip_target(i, column, draw) is Some {
        lemma_slip_target_free(pressed, i, column, draw);
        let left = draw < 0;
        let limit: nat = if draw < 0 {
            (-draw) as nat
        } else {
            draw as nat
        };
        let reach = pressed.slip_reach(i, column, left, limit);
        let landing = Board::beside(column, left, reach as int);
        lemma_index_in_range(pressed, i + 1, landing);
        lemma_index_in_range(pressed, i, landing);
        assert(landing != j);
    }
}

/// A sweep along a row below an alive cell, or along the row of the dead cell
/// under it, touches neither of the two.
pub proof fn lemma_row_below_spares(b: Board, draws: Seq<int>, row: int, n: nat, i: int, j: int)
    requires
        b.cells.len() == b.width * b.height,
        b.index(i, j) is Some,
        b.index(i + 1, j) is Some,
        i < row < b.height,
        n <= b.width,
        b.cells[(i + 1) * b.width + j].kind != Some(Kind::Sand),
    ensures
        b.swept_row(draws, row, n).cells[i * b.width + j] == b.cells[i * b.width + j],
        b.swept_row(draws, row, n).cells[(i + 1) * b.width + j] == b.cells[(i + 1) * b.width + j],
    decreases n,
{
    if n > 0 {
        lemma_row_below_spares(b, draws, row, (n - 1) as nat, i, j);
        lemma_swept_row_shape(b, draws, row, (n - 1) as nat);
        let before = b.swept_row(draws, row, (n - 1) as nat);
        let column = n - 1;
        lemma_index_in_range(b, i, j);
        lemma_index_in_range(b, i + 1, j);
        lemma_index_in_range(b, row, column);
        lemma_rows_apart(b.width as int, i, j, row);
        lemma_rows_apart(b.width as int, i, j, row + 1);
        lemma_rows_apart(b.width as int, i + 1, j, row);
        lemma_rows_apart(b.width as int, i + 1, j, row + 1);
        lemma_visit_touches(before, row, column, draws[column], i * b.width + j);
        if (i + 1) * b.width + j != row * b.width + column {
            lemma_visit_touches(before, row, column, draws[column], (i + 1) * b.width + j);
        }
    }
}

/// A sweep over the rows below an alive cell touches neither that cell nor
/// the dead cell under it.
pub proof fn lemma_sweep_below_spares(b: Board, draws: Seq<Seq<int>>, rows: nat, i: int, j: int)
    requires
        b.cells.len() == b.width * b.height,
        b.index(i, j) is Some,
        b.index(i + 1, j) is Some,
        rows < b.height - i,
        b.cells[(i + 1) * b.width + j].kind != Some(Kind::Sand),
    ensures
        b.swept(draws, rows).cells[i * b.width + j] == b.cells[i * b.width + j],
        b.swept(draws, rows).cells[(i + 1) * b.width + j] == b.cells[(i + 1) * b.width + j],
    decreases rows,
{
    if rows > 0 {
        lemma_sweep_below_spares(b, draws, (rows - 1) as nat, i, j);
        lemma_swept_shape(b, draws, (rows - 1) as nat);
        let row = b.height - rows;
        lemma_row_below_spares(
            b.swept(draws, (rows - 1) as nat),
            draws[row],
            row,
            b.width,
            i,
            j,
        );
    }
}

/// A sweep along the row of an alive cell, before it comes to that cell,
/// touches neither the cell nor the cell under it.
pub proof fn lemma_row_before_spares(b: Board, draws: Seq<int>, n: nat, i: int, j: int)
    requires
        b.cells.len() == b.width * b.height,
        b.index(i, j) is Some,
        b.index(i + 1, j) is Some,
        n <= j,
        b.cells[i * b.width + j].alive(),
    ensures
        b.swept_row(draws, i, n).cells[i * b.width + j] == b.cells[i * b.width + j],
        b.swept_row(draws, i, n).cells[(i + 1) * b.width + j] == b.cells[(i + 1) * b.width + j],
    decreases n,
{
    if n > 0 {
        lemma_row_before_spares(b, draws, (n - 1) as nat, i, j);
        lemma_swept_row_shape(b, draws, i, (n - 1) as nat);
        let before = b.swept_row(draws, i, (n - 1) as nat);
        let column = n - 1;
        lemma_index_in_range(b, i, j);
        lemma_index_in_range(b, i, column);
        lemma_rows_apart(b.width as int, i, j, i + 1);
        lemma_visit_touches(before, i, column, draws[column], i * b.width + j);
        lemma_visit_spares_below(before, i, column, draws[column], j);
    }
}

/// A sweep along a row does not touch an alive cell of another row.
pub proof fn lemma_row_keeps_alive(
    b: Board,
    draws: Seq<int>,
    row: int,
    from: nat,
    n: nat,
    i: int,
    j: int,
)
    requires
        b.cells.len() == b.width * b.height,
        b.index(i, j) is Some,
        0 <= row < b.height,
        row != i,
        from <= n <= b.width,
        b.swept_row(draws, row, from).cells[i * b.width + j].alive(),
    ensures
        b.swept_row(draws, row, n).cells[i * b.width + j] == b.swept_row(
            draws,
            row,
            from,
        ).cells[i * b.width + j],
    decreases n,
{
    if n > from {
        lemma_row_keeps_alive(b, draws, row, from, (n - 1) as nat, i, j);
        lemma_swept_row_shape(b, draws, row, (n - 1) as nat);
        let before = b.swept_row(draws, row, (n - 1) as nat);
        let column = n - 1;
        lemma_index_in_range(b, i, j);
        lemma_index_in_range(b, row, column);
        lemma_rows_apart(b.width as int, i, j, row);
        lemma_visit_keeps_alive(before, row, column, draws[column], i * b.width + j);
    }
}

/// A sweep over the rows above an alive cell does not touch it.
pub proof fn lemma_sweep_above_keeps(
    b: Board,
    draws: Seq<Seq<int>>,
    from: nat,
    rows: nat,
    i: int,
    j: int,
)
    requires
        b.cells.len() == b.width * b.height,
        b.index(i, j) is Some,
        b.height - i <= from <= rows <= b.height,
        b.swept(draws, from).cells[i * b.width + j].alive(),
    ensures
        b.swept(draws, rows).cells[i * b.width + j] == b.swept(draws, from).cells[i * b.width + j],
    decreases rows,
{
    if rows > from {
        lemma_sweep_above_keeps(b, draws, from, (rows - 1) as nat, i, j);
        lemma_swept_shape(b, draws, (rows - 1) as nat);
        let row = b.height - rows;
        lemma_row_keeps_alive(
            b.swept(draws, (rows - 1) as nat),
            draws[row],
            row,
            0,
            b.width,
            i,
            j,
        );
    }
}

/// A sand cell with a dead cell below it falls into that cell in the tick,
/// whatever else is on the board and whatever is drawn: after the tick the
/// cell below holds sand. No grain comes there before it, and the rows above,
/// which the tick sweeps later, do not reach it.
pub proof fn lemma_tick_drops_sand(b: Board, draws: Seq<Seq<int>>, i: int, j: int)
    requires
        b.wf(),
        b.index(i, j) is Some,
        b.index(i + 1, j) is Some,
        b.cells[i * b.width + j].kind == Some(Kind::Sand),
        !b.cells[(i + 1) * b.width + j].alive(),
    ensures
        b.ticked(draws).cells[(i + 1) * b.width + j].holds(Kind::Sand),
{
    let idx = i * b.width + j;
    let below = (i + 1) * b.width + j;
    lemma_index_in_range(b, i, j);
    lemma_index_in_range(b, i + 1, j);
    assert(b.cells[idx].consistent());
    assert(b.cells[below].consistent());
    // the rows below
    let under = (b.height - 1 - i) as nat;
    lemma_sweep_below_spares(b, draws, under, i, j);
    lemma_swept_shape(b, draws, under);
    let low = b.swept(draws, under);
    // the row of the cell, up to the cell
    lemma_row_before_spares(low, draws[i], j as nat, i, j);
    lemma_swept_row_shape(low, draws[i], i, j as nat);
    let here = low.swept_row(draws[i], i, j as nat);
    // the cell falls
    lemma_fall_before_slip(here, i, j, draws[i][j]);
    lemma_sand_step_shape(here, i, j, draws[i][j]);
    let fallen = low.swept_row(draws[i], i, (j + 1) as nat);
    assert(fallen == here.visited(i, j, draws[i][j]));
    assert(fallen.cells[below].holds(Kind::Sand));
    // the rest of the row, and the rows above
    lemma_row_keeps_alive(low, draws[i], i, (j + 1) as nat, b.width, i + 1, j);
    let row_done = (b.height - i) as nat;
    assert(b.swept(draws, row_done) == low.swept_row(draws[i], i, b.width));
    lemma_sweep_above_keeps(b, draws, row_done, b.height, i + 1, j);
}

} // verus!
