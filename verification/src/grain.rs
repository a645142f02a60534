//! One grain of sand: where the board holds a single sand cell, a tick is
//! the step of that cell, and a grain with nothing below it falls one row.

use crate::cell::Kind;
use crate::grid::{lemma_index_in_range, lemma_rows_apart, Board};
use crate::invariants::{lemma_fall_before_slip, lemma_visit_touches};
use crate::physics::lemma_sand_step_shape;
use vstd::prelude::*;

verus! {

impl Board {
    /// Whether the cell of row `i`, column `j` is the only sand cell of the
    /// board.
    pub open spec fn one_grain(self, i: int, j: int) -> bool {
        &&& self.index(i, j) is Some
        &&& self.cells[i * self.width + j].kind == Some(Kind::Sand)
        &&& forall|k: int|
            0 <= k < self.cells.len() && k != i * self.width + j ==> (#[trigger] self.cells[k]).kind
                != Some(Kind::Sand)
    }
}

/// A sweep along a row that holds no sand changes nothing.
pub proof fn lemma_row_without_sand(b: Board, draws: Seq<int>, i: int, n: nat)
    requires
        forall|j: int| 0 <= j < n ==> (#[trigger] b.cells[i * b.width + j]).kind != Some(Kind::Sand),
    ensures
        b.swept_row(draws, i, n) == b,
    decreases n,
{
    if n > 0 {
        lemma_row_without_sand(b, draws, i, (n - 1) as nat);
        assert(b.cells[i * b.width + (n - 1)].kind != Some(Kind::Sand));
    }
}

/// A sweep along the row of the only sand cell is the step of that cell, once
/// it came by it.
pub proof fn lemma_row_of_one_grain(b: Board, draws: Seq<int>, i: int, j: int, n: nat)
    requires
        b.cells.len() == b.width * b.height,
        b.one_grain(i, j),
        n <= b.width,
    ensures
        b.swept_row(draws, i, n) == if n <= j {
            b
        } else {
            b.sand_step(i, j, draws[j])
        },
    decreases n,
{
    if n > 0 {
        lemma_row_of_one_grain(b, draws, i, j, (n - 1) as nat);
        let before = b.swept_row(draws, i, (n - 1) as nat);
        let column = n - 1;
        lemma_index_in_range(b, i, column);
        lemma_index_in_range(b, i, j);
        let k = i * b.width + column;
        if column < j {
            assert(b.cells[k].kind != Some(Kind::Sand));
        } else if column > j {
            lemma_rows_apart(b.width as int, i, column, i + 1);
            lemma_visit_touches(b, i, j, draws[j], k);
            assert(b.cells[k].kind != Some(Kind::Sand));
        }
    }
}

/// A sweep over rows of a board with a single sand cell changes nothing
/// before it comes to the row of that cell, and is the step of that cell from
/// then on.
pub proof fn lemma_sweep_of_one_grain(b: Board, draws: Seq<Seq<int>>, i: int, j: int, rows: nat)
    requires
        b.cells.len() == b.width * b.height,
        b.one_grain(i, j),
        rows <= b.height,
    ensures
        b.swept(draws, rows) == if rows < b.height - i {
            b
        } else {
            b.sand_step(i, j, draws[i][j])
        },
    decreases rows,
{
    if rows > 0 {
        lemma_sweep_of_one_grain(b, draws, i, j, (rows - 1) as nat);
        let below = b.swept(draws, (rows - 1) as nat);
        let row = b.height - rows;
        lemma_index_in_range(b, i, j);
        if row > i {
            assert forall|c: int| 0 <= c < b.width implies (#[trigger] b.cells[row * b.width
                + c]).kind != Some(Kind::Sand) by {
                lemma_index_in_range(b, row, c);
                lemma_rows_apart(b.width as int, row, c, i);
            }
            lemma_row_without_sand(b, draws[row], row, b.width);
        } else if row == i {
            lemma_row_of_one_grain(b, draws[row], i, j, b.width);
        } else {
            let stepped = b.sand_step(i, j, draws[i][j]);
            assert forall|c: int| 0 <= c < b.width implies (#[trigger] stepped.cells[row * b.width
                + c]).kind != Some(Kind::Sand) by {
                lemma_index_in_range(b, row, c);
                lemma_rows_apart(b.width as int, row, c, i);
                lemma_rows_apart(b.width as int, row, c, i + 1);
                lemma_visit_touches(b, i, j, draws[i][j], row * b.width + c);
                assert(b.cells[row * b.width + c].kind != Some(Kind::Sand));
            }
            lemma_sand_step_shape(b, i, j, draws[i][j]);
            lemma_row_without_sand(stepped, draws[row], row, b.width);
        }
    }
}

/// Where the board holds a single sand cell, a tick is the step of that cell:
/// no other cell moves.
pub proof fn lemma_tick_of_one_grain(b: Board, draws: Seq<Seq<int>>, i: int, j: int)
    requires
        b.cells.len() == b.width * b.height,
        b.one_grain(i, j),
    ensures
        b.ticked(draws) == b.sand_step(i, j, draws[i][j]),
{
    lemma_sweep_of_one_grain(b, draws, i, j, b.height);
}

/// A single grain of sand with a dead cell below it falls one row in a tick,
/// whatever is drawn, and a single grain in the bottom row stays: after the
/// tick the grain is in the cell below, the cell that it left is empty, and
/// every other cell is as before.
pub proof fn lemma_grain_falls(b: Board, draws: Seq<Seq<int>>, i: int, j: int)
    requires
        b.cells.len() == b.width * b.height,
        b.one_grain(i, j),
        b.index(i + 1, j) is Some ==> !b.cells[(i + 1) * b.width + j].alive(),
    ensures
        b.ticked(draws) == if b.index(i + 1, j) is Some {
            b.pressed(i, j).moved(i * b.width + j, (i + 1) * b.width + j)
        } else {
            b.pressed(i, j)
        },
{
    lemma_tick_of_one_grain(b, draws, i, j);
    if b.index(i + 1, j) is Some {
        lemma_fall_before_slip(b, i, j, draws[i][j]);
    }
}

} // verus!
