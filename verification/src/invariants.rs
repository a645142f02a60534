//! What every tick keeps, whatever is drawn: falling comes before slipping,
//! no grain is made or lost, and no rock moves.

use crate::cell::{Cellule, Kind};
use crate::grid::{lemma_index_in_range, Board};
use crate::physics::{lemma_slip_target_free, lemma_swept_row_shape, lemma_swept_shape};
use vstd::prelude::*;

verus! {

/// A sand cell above a dead cell falls straight down, whatever is drawn: the
/// draw decides nothing, also where a column beside it is free.
pub proof fn lemma_fall_before_slip(b: Board, i: int, j: int, draw: int)
    requires
        b.cells.len() == b.width * b.height,
        b.index(i, j) is Some,
        b.index(i + 1, j) is Some,
        !b.cells[(i + 1) * b.width + j].alive(),
    ensures
        b.sand_step(i, j, draw) == b.pressed(i, j).moved(
            i * b.width + j,
            (i + 1) * b.width + j,
        ),
        b.sand_step(i, j, draw).cells[(i + 1) * b.width + j].alive(),
        b.sand_step(i, j, draw).cells[(i + 1) * b.width + j].kind == b.cells[i * b.width + j].kind,
        !b.sand_step(i, j, draw).cells[i * b.width + j].alive(),
{
    lemma_index_in_range(b, i, j);
    lemma_index_in_range(b, i + 1, j);
    assert((i + 1) * b.width + j == i * b.width + j + b.width) by (nonlinear_arith);
}

/// A visit touches the visited cell and the row below it, and nothing else.
pub proof fn lemma_visit_touches(b: Board, i: int, j: int, draw: int, k: int)
    requires
        b.cells.len() == b.width * b.height,
        b.index(i, j) is Some,
        0 <= k < b.cells.len(),
        k != i * b.width + j,
        !((i + 1) * b.width <= k < (i + 1) * b.width + b.width),
    ensures
        b.visited(i, j, draw).cells[k] == b.cells[k],
{
    lemma_index_in_range(b, i, j);
    let pressed = b.pressed(i, j);
    if b.index(i + 1, j) is Some {
        lemma_index_in_range(b, i + 1, j);
        if pressed.slip_target(i, j, draw) is Some {
            lemma_slip_target_free(pressed, i, j, draw);
            let left = draw < 0;
            let limit: nat = if draw < 0 {
                (-draw) as nat
            } else {
                draw as nat
            };
            let reach = pressed.slip_reach(i, j, left, limit);
            lemma_index_in_range(pressed, i + 1, Board::beside(j, left, reach as int));
        }
    }
}

/// A visit changes the visited cell and, where that cell moves, the dead cell
/// that it moves to. An alive cell elsewhere stays as it is.
pub proof fn lemma_visit_keeps_alive(b: Board, i: int, j: int, draw: int, k: int)
    requires
        b.cells.len() == b.width * b.height,
        b.index(i, j) is Some,
        0 <= k < b.cells.len(),
        k != i * b.width + j,
        b.cells[k].alive(),
    ensures
        b.visited(i, j, draw).cells[k] == b.cells[k],
{
    lemma_index_in_range(b, i, j);
    let pressed = b.pressed(i, j);
    if b.index(i + 1, j) is Some {
        lemma_index_in_range(b, i + 1, j);
        if pressed.slip_target(i, j, draw) is Some {
            lemma_slip_target_free(pressed, i, j, draw);
            let left = draw < 0;
            let limit: nat = if draw < 0 {
                (-draw) as nat
            } else {
                draw as nat
            };
            let reach = pressed.slip_reach(i, j, left, limit);
            lemma_index_in_range(pressed, i + 1, Board::beside(j, left, reach as int));
        }
    }
}

/// A visit leaves the board well formed.
pub proof fn lemma_visit_wf(b: Board, i: int, j: int, draw: int)
    requires
        b.wf(),
        b.index(i, j) is Some,
    ensures
        b.visited(i, j, draw).wf(),
        b.visited(i, j, draw).width == b.width,
        b.visited(i, j, draw).height == b.height,
{
    lemma_index_in_range(b, i, j);
    let idx = i * b.width + j;
    assert(b.cells[idx].consistent());
    let pressed = b.pressed(i, j);
    if b.cells[idx].kind == Some(Kind::Sand) {
        assert forall|k: int| 0 <= k < pressed.cells.len() implies (
        #[trigger] pressed.cells[k]).consistent() by {
            assert(b.cells[k].consistent());
        }
        if b.index(i + 1, j) is Some {
            lemma_index_in_range(b, i + 1, j);
            if pressed.slip_target(i, j, draw) is Some {
                lemma_slip_target_free(pressed, i, j, draw);
                let left = draw < 0;
                let limit: nat = if draw < 0 {
                    (-draw) as nat
                } else {
                    draw as nat
                };
                let reach = pressed.slip_reach(i, j, left, limit);
                lemma_index_in_range(pressed, i + 1, Board::beside(j, left, reach as int));
            }
        }
        let after = b.visited(i, j, draw);
        assert forall|k: int| 0 <= k < after.cells.len() implies (
        #[trigger] after.cells[k]).consistent() by {
            assert(pressed.cells[k].consistent());
        }
    }
}

/// Putting a cell on the board changes the count of a material by what the
/// new cell adds and the old one took.
pub proof fn lemma_count_update(b: Board, kind: Kind, k: int, cell: Cellule, n: nat)
    requires
        0 <= k < b.cells.len(),
        n <= b.cells.len(),
    ensures
        (Board { cells: b.cells.update(k, cell), ..b }).count(kind, n) == b.count(kind, n) + (if k
            < n {
            (if cell.holds(kind) {
                1int
            } else {
                0int
            }) - (if b.cells[k].holds(kind) {
                1int
            } else {
                0int
            })
        } else {
            0int
        }),
    decreases n,
{
    if n > 0 {
        lemma_count_update(b, kind, k, cell, (n - 1) as nat);
    }
}

/// A move of an alive cell to a dead one keeps the count of each material.
pub proof fn lemma_move_conserves(b: Board, origin: int, target: int, kind: Kind)
    requires
        0 <= origin < b.cells.len(),
        0 <= target < b.cells.len(),
        b.cells[origin].alive(),
        !b.cells[target].alive(),
    ensures
        b.moved(origin, target).grains(kind) == b.grains(kind),
{
    let arrived = b.moved(origin, target).cells[target];
    let half = Board { cells: b.cells.update(target, arrived), ..b };
    lemma_count_update(b, kind, target, arrived, b.cells.len());
    lemma_count_update(half, kind, origin, Cellule::empty(), b.cells.len());
    assert(b.moved(origin, target) =~= (Board {
        cells: half.cells.update(origin, Cellule::empty()),
        ..half
    }));
}

/// A visit keeps the count of each material.
pub proof fn lemma_visit_conserves(b: Board, i: int, j: int, draw: int, kind: Kind)
    requires
        b.wf(),
        b.index(i, j) is Some,
    ensures
        b.visited(i, j, draw).grains(kind) == b.grains(kind),
{
    lemma_index_in_range(b, i, j);
    let idx = i * b.width + j;
    assert(b.cells[idx].consistent());
    let pressed = b.pressed(i, j);
    if b.cells[idx].kind == Some(Kind::Sand) {
        lemma_count_update(b, kind, idx, pressed.cells[idx], b.cells.len());
        if b.index(i + 1, j) is Some {
            lemma_index_in_range(b, i + 1, j);
            let below = (i + 1) * b.width + j;
            if !pressed.cells[below].alive() {
                lemma_move_conserves(pressed, idx, below, kind);
            } else if pressed.slip_target(i, j, draw) is Some {
                lemma_slip_target_free(pressed, i, j, draw);
                let left = draw < 0;
                let limit: nat = if draw < 0 {
                    (-draw) as nat
                } else {
                    draw as nat
                };
                let reach = pressed.slip_reach(i, j, left, limit);
                lemma_index_in_range(pressed, i + 1, Board::beside(j, left, reach as int));
                lemma_move_conserves(pressed, idx, pressed.slip_target(i, j, draw).unwrap(), kind);
            }
        }
    }
}

/// A sweep along a row leaves the board well formed and keeps the count of
/// each material.
pub proof fn lemma_row_conserves(b: Board, draws: Seq<int>, i: int, n: nat, kind: Kind)
    requires
        b.wf(),
        0 <= i < b.height,
        n <= b.width,
    ensures
        b.swept_row(draws, i, n).wf(),
        b.swept_row(draws, i, n).width == b.width,
        b.swept_row(draws, i, n).height == b.height,
        b.swept_row(draws, i, n).grains(kind) == b.grains(kind),
    decreases n,
{
    if n > 0 {
        lemma_row_conserves(b, draws, i, (n - 1) as nat, kind);
        let before = b.swept_row(draws, i, (n - 1) as nat);
        lemma_visit_wf(before, i, n - 1, draws[n - 1]);
        lemma_visit_conserves(before, i, n - 1, draws[n - 1], kind);
    }
}

/// A sweep over rows leaves the board well formed and keeps the count of
/// each material.
pub proof fn lemma_sweep_conserves(b: Board, draws: Seq<Seq<int>>, rows: nat, kind: Kind)
    requires
        b.wf(),
        rows <= b.height,
    ensures
        b.swept(draws, rows).wf(),
        b.swept(draws, rows).width == b.width,
        b.swept(draws, rows).height == b.height,
        b.swept(draws, rows).grains(kind) == b.grains(kind),
    decreases rows,
{
    if rows > 0 {
        lemma_sweep_conserves(b, draws, (rows - 1) as nat, kind);
        lemma_row_conserves(
            b.swept(draws, (rows - 1) as nat),
            draws[b.height - rows],
            b.height - rows,
            b.width,
            kind,
        );
    }
}

/// A tick neither makes nor loses a grain: whatever is drawn, the board has
/// as many alive cells of each material after the tick as before it, and is
/// well formed again.
pub proof fn lemma_tick_conserves(b: Board, draws: Seq<Seq<int>>, kind: Kind)
    requires
        b.wf(),
    ensures
        b.ticked(draws).wf(),
        b.ticked(draws).width == b.width,
        b.ticked(draws).height == b.height,
        b.ticked(draws).grains(kind) == b.grains(kind),
{
    lemma_sweep_conserves(b, draws, b.height, kind);
}

/// Ticks neither make nor lose a grain, however many they are and whatever
/// is drawn in each.
pub proof fn lemma_ticks_conserve(b: Board, rounds: Seq<Seq<Seq<int>>>, kind: Kind)
    requires
        b.wf(),
    ensures
        b.ticked_through(rounds).wf(),
        b.ticked_through(rounds).width == b.width,
        b.ticked_through(rounds).height == b.height,
        b.ticked_through(rounds).grains(kind) == b.grains(kind),
    decreases rounds.len(),
{
    if rounds.len() > 0 {
        lemma_ticks_conserve(b, rounds.drop_last(), kind);
        lemma_tick_conserves(b.ticked_through(rounds.drop_last()), rounds.last(), kind);
    }
}

/// A visit does not touch a rock, wherever it comes by.
pub proof fn lemma_visit_keeps_rock(b: Board, i: int, j: int, draw: int, k: int)
    requires
        b.cells.len() == b.width * b.height,
        b.index(i, j) is Some,
        0 <= k < b.cells.len(),
        b.cells[k].holds(Kind::Rock),
    ensures
        b.visited(i, j, draw).cells[k] == b.cells[k],
{
    if k != i * b.width + j {
        lemma_visit_keeps_alive(b, i, j, draw, k);
    }
}

/// A sweep along a row does not touch a rock.
pub proof fn lemma_row_keeps_rock(b: Board, draws: Seq<int>, i: int, n: nat, k: int)
    requires
        b.cells.len() == b.width * b.height,
        0 <= i < b.height,
        n <= b.width,
        0 <= k < b.cells.len(),
        b.cells[k].holds(Kind::Rock),
    ensures
        b.swept_row(draws, i, n).cells[k] == b.cells[k],
    decreases n,
{
    if n > 0 {
        lemma_row_keeps_rock(b, draws, i, (n - 1) as nat, k);
        lemma_swept_row_shape(b, draws, i, (n - 1) as nat);
        lemma_visit_keeps_rock(b.swept_row(draws, i, (n - 1) as nat), i, n - 1, draws[n - 1], k);
    }
}

/// A sweep over rows does not touch a rock.
pub proof fn lemma_sweep_keeps_rock(b: Board, draws: Seq<Seq<int>>, rows: nat, k: int)
    requires
        b.cells.len() == b.width * b.height,
        rows <= b.height,
        0 <= k < b.cells.len(),
        b.cells[k].holds(Kind::Rock),
    ensures
        b.swept(draws, rows).cells[k] == b.cells[k],
    decreases rows,
{
    if rows > 0 {
        lemma_sweep_keeps_rock(b, draws, (rows - 1) as nat, k);
        lemma_swept_shape(b, draws, (rows - 1) as nat);
        lemma_row_keeps_rock(
            b.swept(draws, (rows - 1) as nat),
            draws[b.height - rows],
            b.height - rows,
            b.width,
            k,
        );
    }
}

/// A rock stays where it is and as it is through a tick, whatever stands
/// below it and whatever is drawn: the cell that holds it is the same after
/// the tick, in material, life state and pressure.
pub proof fn lemma_tick_keeps_rock(b: Board, draws: Seq<Seq<int>>, k: int)
    requires
        b.wf(),
        0 <= k < b.cells.len(),
        b.cells[k].kind == Some(Kind::Rock),
    ensures
        b.ticked(draws).cells[k] == b.cells[k],
{
    assert(b.cells[k].consistent());
    lemma_sweep_keeps_rock(b, draws, b.height, k);
}

} // verus!
