//! What holds of every stroke of the cursor: which cells it covers and what
//! becomes of them.

use crate::cell::Kind;
use crate::cursor::{rings, sampled, within, Effect, ANGLES};
use crate::grid::{lemma_index_in_range, lemma_index_round_trip, Board};
use vstd::prelude::*;

verus! {

/// How many times `cell` comes in `hits`.
pub open spec fn times(hits: Seq<int>, cell: int) -> nat
    decreases hits.len(),
{
    if hits.len() == 0 {
        0
    } else if hits.last() == cell {
        times(hits.drop_last(), cell) + 1
    } else {
        times(hits.drop_last(), cell)
    }
}

/// A cell that comes no time in `hits` is none of them, and one that comes is
/// one of them.
pub proof fn lemma_times_contains(hits: Seq<int>, cell: int)
    ensures
        times(hits, cell) > 0 <==> hits.contains(cell),
    decreases hits.len(),
{
    if hits.len() > 0 {
        lemma_times_contains(hits.drop_last(), cell);
        if hits.contains(cell) {
            let n = choose|n: int| 0 <= n < hits.len() && hits[n] == cell;
            if n < hits.len() - 1 {
                assert(hits.drop_last()[n] == cell);
            }
        }
        if hits.drop_last().contains(cell) {
            let n = choose|n: int| 0 <= n < hits.drop_last().len() && hits.drop_last()[n] == cell;
            assert(hits[n] == cell);
        }
    }
}

/// The cells under a cursor are cells of the board, at most one for each
/// sample.
pub proof fn lemma_footprint_on_board(b: Board, center: int, offsets: Seq<(i32, i32)>)
    ensures
        b.footprint(center, offsets).len() <= offsets.len(),
        forall|n: int|
            0 <= n < b.footprint(center, offsets).len() ==> 0 <= #[trigger] b.footprint(
                center,
                offsets,
            )[n] < b.width * b.height,
    decreases offsets.len(),
{
    if offsets.len() > 0 {
        lemma_footprint_on_board(b, center, offsets.drop_last());
        let offset = offsets.last();
        let before = b.footprint(center, offsets.drop_last());
        let cells = b.footprint(center, offsets);
        if b.hit(center, offset) is Some {
            lemma_index_in_range(
                b,
                b.row_of(center) + offset.1,
                b.column_of(center) + offset.0,
            );
        }
        assert forall|n: int| 0 <= n < cells.len() implies 0 <= #[trigger] cells[n] < b.width
            * b.height by {
            if n < before.len() {
                assert(cells[n] == before[n]);
            }
        }
    }
}

/// The cells under a cursor depend on the size of the board and on nothing
/// that its cells hold.
pub proof fn lemma_footprint_of_size(b: Board, other: Board, center: int, offsets: Seq<(i32, i32)>)
    requires
        b.width == other.width,
        b.height == other.height,
    ensures
        b.footprint(center, offsets) == other.footprint(center, offsets),
    decreases offsets.len(),
{
    if offsets.len() > 0 {
        lemma_footprint_of_size(b, other, center, offsets.drop_last());
    }
}

/// Samples that all lie on the centre hit the centre and nothing else, once
/// each.
pub proof fn lemma_footprint_of_centre(b: Board, center: int, offsets: Seq<(i32, i32)>)
    requires
        0 <= center < b.width * b.height,
        forall|n: int| 0 <= n < offsets.len() ==> within(#[trigger] offsets[n], 0),
    ensures
        b.footprint(center, offsets) == Seq::new(offsets.len(), |n: int| center),
    decreases offsets.len(),
{
    if offsets.len() > 0 {
        let rest = offsets.drop_last();
        assert forall|n: int| 0 <= n < rest.len() implies within(#[trigger] rest[n], 0) by {
            assert(within(offsets[n], 0));
        }
        lemma_footprint_of_centre(b, center, rest);
        assert(within(offsets[offsets.len() - 1], 0));
        lemma_index_round_trip(b, 0, 0, center);
        assert(b.footprint(center, offsets) =~= Seq::new(offsets.len(), |n: int| center));
    } else {
        assert(b.footprint(center, offsets) =~= Seq::new(offsets.len(), |n: int| center));
    }
}

/// A cursor of one ring covers the cell at its centre and no other: each of
/// its samples hits that cell.
pub proof fn lemma_cursor_of_one(b: Board, center: int, offsets: Seq<(i32, i32)>)
    requires
        0 <= center < b.width * b.height,
        rings(offsets),
        offsets.len() >= ANGLES,
    ensures
        b.footprint(center, sampled(offsets, 1)) == Seq::new(ANGLES as nat, |n: int| center),
{
    let first = sampled(offsets, 1);
    assert forall|n: int| 0 <= n < first.len() implies within(#[trigger] first[n], 0) by {
        assert(within(offsets[n], n / (ANGLES as int)));
    }
    lemma_footprint_of_centre(b, center, first);
}

/// Whether the cell at `cell` lies no more than `reach` rows and no more than
/// `reach` columns from the cell at `center`.
pub open spec fn near(b: Board, center: int, cell: int, reach: int) -> bool {
    &&& -reach <= b.row_of(cell) - b.row_of(center) <= reach
    &&& -reach <= b.column_of(cell) - b.column_of(center) <= reach
}

/// Samples that stay within a reach of the centre hit cells within that reach
/// of it.
pub proof fn lemma_footprint_near(b: Board, center: int, offsets: Seq<(i32, i32)>, reach: int)
    requires
        forall|n: int| 0 <= n < offsets.len() ==> within(#[trigger] offsets[n], reach),
    ensures
        forall|n: int|
            0 <= n < b.footprint(center, offsets).len() ==> near(
                b,
                center,
                #[trigger] b.footprint(center, offsets)[n],
                reach,
            ),
    decreases offsets.len(),
{
    if offsets.len() > 0 {
        let rest = offsets.drop_last();
        assert forall|n: int| 0 <= n < rest.len() implies within(#[trigger] rest[n], reach) by {
            assert(within(offsets[n], reach));
        }
        lemma_footprint_near(b, center, rest, reach);
        let offset = offsets.last();
        assert(within(offsets[offsets.len() - 1], reach));
        let before = b.footprint(center, rest);
        let cells = b.footprint(center, offsets);
        if b.hit(center, offset) is Some {
            lemma_index_round_trip(
                b,
                b.row_of(center) + offset.1,
                b.column_of(center) + offset.0,
                b.hit(center, offset).unwrap(),
            );
        }
        assert forall|n: int| 0 <= n < cells.len() implies near(
            b,
            center,
            #[trigger] cells[n],
            reach,
        ) by {
            if n < before.len() {
                assert(cells[n] == before[n]);
            }
        }
    }
}

/// A cursor covers cells near its centre only: each cell under a cursor of
/// `size` rings lies less than `size` rows and less than `size` columns from
/// the centre.
pub proof fn lemma_cursor_near(b: Board, center: int, offsets: Seq<(i32, i32)>, size: nat)
    requires
        rings(offsets),
        size >= 1,
    ensures
        forall|n: int|
            0 <= n < b.footprint(center, sampled(offsets, size)).len() ==> near(
                b,
                center,
                #[trigger] b.footprint(center, sampled(offsets, size))[n],
                size - 1,
            ),
{
    let taken = sampled(offsets, size);
    assert forall|n: int| 0 <= n < taken.len() implies within(#[trigger] taken[n], size - 1) by {
        assert(within(offsets[n], n / (ANGLES as int)));
        if size * ANGLES > offsets.len() {
            assert(n / (ANGLES as int) <= size - 1) by (nonlinear_arith)
                requires
                    0 <= n < size * ANGLES,
                    ANGLES == 360,
            ;
        }
    }
    lemma_footprint_near(b, center, taken, size - 1);
}

/// A stroke keeps the size of the board.
pub proof fn lemma_stamp_shape(b: Board, hits: Seq<int>, effect: Effect)
    requires
        forall|n: int| 0 <= n < hits.len() ==> 0 <= #[trigger] hits[n] < b.cells.len(),
    ensures
        b.stamped(hits, effect).width == b.width,
        b.stamped(hits, effect).height == b.height,
        b.stamped(hits, effect).cells.len() == b.cells.len(),
    decreases hits.len(),
{
    if hits.len() > 0 {
        assert forall|n: int| 0 <= n < hits.drop_last().len() implies 0 <= #[trigger] hits.drop_last()[n]
            < b.cells.len() by {
            assert(0 <= hits[n] < b.cells.len());
        }
        lemma_stamp_shape(b, hits.drop_last(), effect);
        assert(0 <= hits[hits.len() - 1] < b.cells.len());
    }
}

/// A stroke that adds, removes or hovers does its effect once to each cell
/// under the cursor, however many samples hit it, and leaves every other
/// cell as it is.
pub proof fn lemma_stamp_covers(b: Board, hits: Seq<int>, effect: Effect, cell: int)
    requires
        forall|n: int| 0 <= n < hits.len() ==> 0 <= #[trigger] hits[n] < b.cells.len(),
        0 <= cell < b.cells.len(),
        !(effect is Toggle),
    ensures
        b.stamped(hits, effect).cells[cell] == if hits.contains(cell) {
            effect.on(b.cells[cell])
        } else {
            b.cells[cell]
        },
    decreases hits.len(),
{
    if hits.len() > 0 {
        let rest = hits.drop_last();
        assert forall|n: int| 0 <= n < rest.len() implies 0 <= #[trigger] rest[n]
            < b.cells.len() by {
            assert(0 <= hits[n] < b.cells.len());
        }
        lemma_stamp_covers(b, rest, effect, cell);
        lemma_stamp_shape(b, rest, effect);
        lemma_times_contains(hits, cell);
        lemma_times_contains(rest, cell);
        assert(0 <= hits[hits.len() - 1] < b.cells.len());
    }
}

/// After a stroke that toggles, a cell is alive where it was alive and an
/// even number of samples hit it, or was dead and an odd number hit it.
pub proof fn lemma_toggle_parity(b: Board, hits: Seq<int>, kind: Kind, cell: int)
    requires
        forall|n: int| 0 <= n < hits.len() ==> 0 <= #[trigger] hits[n] < b.cells.len(),
        0 <= cell < b.cells.len(),
    ensures
        b.stamped(hits, Effect::Toggle(kind)).cells[cell].alive() == (b.cells[cell].alive() == (
        times(hits, cell) % 2 == 0)),
    decreases hits.len(),
{
    if hits.len() > 0 {
        let rest = hits.drop_last();
        assert forall|n: int| 0 <= n < rest.len() implies 0 <= #[trigger] rest[n]
            < b.cells.len() by {
            assert(0 <= hits[n] < b.cells.len());
        }
        lemma_toggle_parity(b, rest, kind, cell);
        lemma_stamp_shape(b, rest, Effect::Toggle(kind));
        assert(0 <= hits[hits.len() - 1] < b.cells.len());
    }
}

/// Two strokes that toggle the same cells, one after the other, leave each
/// cell alive or dead as it was before them, however often the samples hit
/// it.
pub proof fn lemma_toggle_twice(b: Board, hits: Seq<int>, kind: Kind, cell: int)
    requires
        forall|n: int| 0 <= n < hits.len() ==> 0 <= #[trigger] hits[n] < b.cells.len(),
        0 <= cell < b.cells.len(),
    ensures
        b.stamped(hits, Effect::Toggle(kind)).stamped(
            hits,
            Effect::Toggle(kind),
        ).cells[cell].alive() == b.cells[cell].alive(),
{
    let once = b.stamped(hits, Effect::Toggle(kind));
    lemma_stamp_shape(b, hits, Effect::Toggle(kind));
    lemma_toggle_parity(b, hits, kind, cell);
    lemma_toggle_parity(once, hits, kind, cell);
}

} // verus!
