//! A board at rest: where no sand cell can move, a tick does nothing but
//! store on each sand cell the pressure of the stack above it.

use crate::cell::{Cellule, Kind};
use crate::grid::{lemma_index_in_range, lemma_rows_apart, Board};
use crate::physics::lemma_slip_reach_stops;
use vstd::prelude::*;

verus! {

impl Board {
    /// Whether the cell of row `i`, column `j` cannot move: it stands in the
    /// bottom row, or on an alive cell with no free column next to it.
    pub open spec fn blocked(self, i: int, j: int) -> bool {
        ||| self.index(i + 1, j) is None
        ||| (self.alive_at(i + 1, j) && !self.free(i, j - 1) && !self.free(i, j + 1))
    }

    /// Whether no sand cell of the board can move.
    pub open spec fn at_rest(self) -> bool {
        forall|i: int, j: int|
            self.index(i, j) is Some && self.cells[i * self.width + j].kind == Some(Kind::Sand)
                ==> #[trigger] self.blocked(i, j)
    }

    /// The cell of row `i`, column `j` with its pressure brought up to date:
    /// a sand cell bears the pressure of the stack above it, any other cell
    /// is as it was.
    pub open spec fn refreshed(self, i: int, j: int) -> Cellule {
        let cell = self.cells[i * self.width + j];
        if cell.kind == Some(Kind::Sand) {
            Cellule { pressure: self.pressure(i, j), ..cell }
        } else {
            cell
        }
    }

    /// Whether the two boards have the same size and, cell by cell, the same
    /// material and life state.
    pub open spec fn same_lives(self, other: Board) -> bool {
        &&& self.width == other.width
        &&& self.height == other.height
        &&& self.cells.len() == other.cells.len()
        &&& forall|k: int|
            0 <= k < self.cells.len() ==> (#[trigger] self.cells[k]).state == other.cells[k].state
                && self.cells[k].kind == other.cells[k].kind
    }
}

/// Boards with the same lives have the same cells alive.
pub proof fn lemma_same_lives_alive(c: Board, b: Board, i: int, j: int)
    requires
        c.same_lives(b),
        c.cells.len() == c.width * c.height,
    ensures
        c.alive_at(i, j) == b.alive_at(i, j),
        c.free(i, j) == b.free(i, j),
        c.blocked(i, j) == b.blocked(i, j),
        c.index(i, j) is Some ==> c.cells[i * c.width + j].kind == b.cells[i * b.width + j].kind,
{
    lemma_same_lives_cell(c, b, i, j);
    lemma_same_lives_cell(c, b, i + 1, j);
    lemma_same_lives_cell(c, b, i, j - 1);
    lemma_same_lives_cell(c, b, i + 1, j - 1);
    lemma_same_lives_cell(c, b, i, j + 1);
    lemma_same_lives_cell(c, b, i + 1, j + 1);
}

/// Boards with the same lives agree on the life of each cell on the board.
pub proof fn lemma_same_lives_cell(c: Board, b: Board, i: int, j: int)
    requires
        c.same_lives(b),
        c.cells.len() == c.width * c.height,
    ensures
        c.index(i, j) == b.index(i, j),
        c.index(i, j) is Some ==> {
            &&& 0 <= i * c.width + j < c.cells.len()
            &&& c.cells[i * c.width + j].state == b.cells[i * c.width + j].state
            &&& c.cells[i * c.width + j].kind == b.cells[i * c.width + j].kind
        },
{
    if c.index(i, j) is Some {
        lemma_index_in_range(c, i, j);
        assert(c.cells[i * c.width + j].state == b.cells[i * c.width + j].state);
    }
}

/// Boards with the same lives have the same stacks, and so the same
/// pressures.
pub proof fn lemma_same_lives_stack(c: Board, b: Board, i: int, j: int)
    requires
        c.same_lives(b),
        c.cells.len() == c.width * c.height,
    ensures
        c.stack_above(i, j) == b.stack_above(i, j),
        c.pressure(i, j) == b.pressure(i, j),
    decreases i,
{
    if i > 0 {
        lemma_same_lives_cell(c, b, i - 1, j);
        if c.alive_at(i - 1, j) {
            lemma_same_lives_stack(c, b, i - 1, j);
        }
    }
}

/// The visit of a blocked cell moves nothing, whatever is drawn: a sand cell
/// takes its pressure, and that is all.
pub proof fn lemma_visit_blocked(c: Board, i: int, j: int, draw: int)
    requires
        c.cells.len() == c.width * c.height,
        c.index(i, j) is Some,
        c.cells[i * c.width + j].kind == Some(Kind::Sand) ==> c.blocked(i, j),
    ensures
        c.visited(i, j, draw) == (Board {
            cells: c.cells.update(i * c.width + j, c.refreshed(i, j)),
            ..c
        }),
{
    lemma_index_in_range(c, i, j);
    let idx = i * c.width + j;
    if c.cells[idx].kind == Some(Kind::Sand) {
        let pressed = c.pressed(i, j);
        if c.index(i + 1, j) is Some {
            lemma_index_in_range(c, i + 1, j);
            assert((i + 1) * c.width + j == idx + c.width) by (nonlinear_arith)
                requires
                    idx == i * c.width + j,
            ;
            let left = draw < 0;
            let limit: nat = if draw < 0 {
                (-draw) as nat
            } else {
                draw as nat
            };
            assert(pressed.same_lives(c));
            lemma_same_lives_alive(pressed, c, i, j - 1);
            lemma_same_lives_alive(pressed, c, i, j + 1);
            if limit > 0 {
                lemma_slip_reach_stops(pressed, i, j, left, 1, limit);
            }
            assert(pressed.slip_target(i, j, draw) is None);
        }
    } else {
        assert(c.cells.update(idx, c.refreshed(i, j)) =~= c.cells);
    }
}

/// On a board with the lives of a board at rest, a sweep along a row brings
/// the pressure of each cell that it comes by up to date and changes nothing
/// else.
pub proof fn lemma_row_at_rest(c: Board, b: Board, draws: Seq<int>, i: int, n: nat)
    requires
        c.cells.len() == c.width * c.height,
        c.same_lives(b),
        b.at_rest(),
        0 <= i < c.height,
        n <= c.width,
    ensures
        c.swept_row(draws, i, n).same_lives(b),
        forall|k: int|
            0 <= k < c.cells.len() ==> #[trigger] c.swept_row(draws, i, n).cells[k] == if i
                * c.width <= k < i * c.width + n {
                Cellule {
                    pressure: if c.cells[k].kind == Some(Kind::Sand) {
                        b.pressure(i, k - i * c.width)
                    } else {
                        c.cells[k].pressure
                    },
                    ..c.cells[k]
                }
            } else {
                c.cells[k]
            },
    decreases n,
{
    if n > 0 {
        lemma_row_at_rest(c, b, draws, i, (n - 1) as nat);
        let before = c.swept_row(draws, i, (n - 1) as nat);
        let j = n - 1;
        let idx = i * c.width + j;
        assert(c.index(i, j) is Some);
        lemma_index_in_range(c, i, j);
        lemma_same_lives_alive(before, b, i, j);
        assert(b.index(i, j) is Some);
        if b.cells[idx].kind == Some(Kind::Sand) {
            assert(b.blocked(i, j));
        }
        lemma_visit_blocked(before, i, j, draws[j]);
        lemma_same_lives_stack(before, b, i, j);
        let after = c.swept_row(draws, i, n);
        assert(after.cells[idx] == before.refreshed(i, j));
        assert(before.cells[idx] == c.cells[idx]);
        assert forall|k: int| 0 <= k < after.cells.len() implies (#[trigger] after.cells[k]).state
            == b.cells[k].state && after.cells[k].kind == b.cells[k].kind by {
            assert(before.cells[k].state == b.cells[k].state);
        }
    }
}

/// On a board at rest, a sweep over rows brings the pressure of each cell of
/// those rows up to date and changes nothing else.
pub proof fn lemma_sweep_at_rest(b: Board, draws: Seq<Seq<int>>, rows: nat)
    requires
        b.cells.len() == b.width * b.height,
        b.at_rest(),
        rows <= b.height,
    ensures
        b.swept(draws, rows).same_lives(b),
        forall|i: int, j: int|
            b.index(i, j) is Some ==> #[trigger] b.swept(draws, rows).cells[i * b.width + j] == if i
                >= b.height - rows {
                b.refreshed(i, j)
            } else {
                b.cells[i * b.width + j]
            },
    decreases rows,
{
    if rows > 0 {
        lemma_sweep_at_rest(b, draws, (rows - 1) as nat);
        let below = b.swept(draws, (rows - 1) as nat);
        let row = b.height - rows;
        lemma_row_at_rest(below, b, draws[row], row, b.width);
        let after = b.swept(draws, rows);
        assert forall|i: int, j: int| b.index(i, j) is Some implies #[trigger] after.cells[i
            * b.width + j] == if i >= b.height - rows {
            b.refreshed(i, j)
        } else {
            b.cells[i * b.width + j]
        } by {
            lemma_index_in_range(b, i, j);
            let k = i * b.width + j;
            lemma_rows_apart(b.width as int, i, j, row);
            assert(below.cells[k] == if i >= b.height - (rows - 1) {
                b.refreshed(i, j)
            } else {
                b.cells[k]
            });
        }
    } else {
        assert(b.same_lives(b));
    }
}

/// On a board at rest a tick moves nothing, whatever is drawn: each sand cell
/// bears after it the pressure of the stack above it, and every cell is
/// otherwise as before.
pub proof fn lemma_tick_at_rest(b: Board, draws: Seq<Seq<int>>)
    requires
        b.cells.len() == b.width * b.height,
        b.at_rest(),
    ensures
        b.ticked(draws).same_lives(b),
        forall|i: int, j: int|
            b.index(i, j) is Some ==> #[trigger] b.ticked(draws).cells[i * b.width + j]
                == b.refreshed(i, j),
{
    lemma_sweep_at_rest(b, draws, b.height);
}

/// In a column of alive cells that reaches from row `top` down to row
/// `bottom` and has no alive cell right above it, each cell has above it the
/// cells from `top` to the one before it: the stack grows by one with each
/// row down, from none at the top to all but one at the bottom.
pub proof fn lemma_stack_in_column(b: Board, j: int, top: int, bottom: int, i: int)
    requires
        0 <= top <= i <= bottom,
        forall|row: int| top <= row <= bottom ==> #[trigger] b.alive_at(row, j),
        !b.alive_at(top - 1, j),
    ensures
        b.stack_above(i, j) == i - top,
    decreases i - top,
{
    if i > top {
        assert(b.alive_at(i - 1, j));
        lemma_stack_in_column(b, j, top, bottom, i - 1);
    }
}

/// The pressures in a stack at rest: on a board at rest with a column of
/// alive cells from row `top` down to row `bottom`, no alive cell right above
/// it and no more than 256 cells in it, a tick leaves on each sand cell of
/// the column the number of cells above it in the stack. The bottom cell
/// bears all but itself, and the pressure falls by one with each row up.
pub proof fn lemma_pressure_in_stack(
    b: Board,
    draws: Seq<Seq<int>>,
    j: int,
    top: int,
    bottom: int,
    i: int,
)
    requires
        b.cells.len() == b.width * b.height,
        b.at_rest(),
        0 <= top <= i <= bottom,
        bottom - top < 256,
        forall|row: int| top <= row <= bottom ==> #[trigger] b.alive_at(row, j),
        !b.alive_at(top - 1, j),
        b.cells[i * b.width + j].kind == Some(Kind::Sand),
    ensures
        b.ticked(draws).cells[i * b.width + j].pressure == i - top,
{
    lemma_tick_at_rest(b, draws);
    lemma_stack_in_column(b, j, top, bottom, i);
    assert(b.alive_at(i, j));
    assert(b.ticked(draws).cells[i * b.width + j] == b.refreshed(i, j));
}

} // verus!
