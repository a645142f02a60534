//! The cursor: a brush of sampled rings, the cells that it covers around a
//! centre, and what a stroke does to them.

use crate::cell::{Cellule, Kind};
use crate::grid::{Board, Grid};
use vstd::prelude::*;

verus! {

/// The number of samples on one ring of the brush: one for each degree.
pub const ANGLES: usize = 360;

/// Whether `offset` stays within `radius` columns and rows of the centre.
pub open spec fn within(offset: (i32, i32), radius: int) -> bool {
    -radius <= offset.0 <= radius && -radius <= offset.1 <= radius
}

/// Whether `offsets` is a table of whole rings, ring `r` holding `ANGLES`
/// offsets that stay within `r` of the centre.
pub open spec fn rings(offsets: Seq<(i32, i32)>) -> bool {
    &&& offsets.len() % (ANGLES as nat) == 0
    &&& forall|k: int|
        0 <= k < offsets.len() ==> within(#[trigger] offsets[k], k / (ANGLES as int))
}

/// The offsets of a brush of `size` rings out of the table `offsets`: ring 0,
/// then ring 1, and so on, as far as the table goes.
pub open spec fn sampled(offsets: Seq<(i32, i32)>, size: nat) -> Seq<(i32, i32)> {
    if size * ANGLES <= offsets.len() {
        offsets.take((size * ANGLES) as int)
    } else {
        offsets
    }
}

/// The numbers of `cells` as mathematical integers.
pub open spec fn indices(cells: Seq<usize>) -> Seq<int> {
    cells.map_values(|cell: usize| cell as int)
}

/// A brush: for each radius from 0 up and each angle in whole degrees, the
/// offset of one sample, as columns to the right and rows down, rounded to
/// whole cells. Ring `r` at angle `a` stands at `r * ANGLES + a`.
pub struct Brush {
    offsets: Vec<(i32, i32)>,
}

impl View for Brush {
    type V = Seq<(i32, i32)>;

    closed spec fn view(&self) -> Seq<(i32, i32)> {
        self.offsets@
    }
}

impl Brush {
    /// The brush holds whole rings, each within its radius.
    pub open spec fn wf(&self) -> bool {
        rings(self@)
    }

    /// The brush of the table `offsets`, or nothing where the table is not
    /// made of whole rings that each stay within their radius.
    pub fn new(offsets: Vec<(i32, i32)>) -> (brush: Option<Brush>)
        ensures
            brush is Some <==> rings(offsets@),
            brush matches Some(b) ==> b@ == offsets@ && b.wf(),
    {
        if offsets.len() % ANGLES != 0 {
            return None;
        }
        let mut k: usize = 0;
        while k < offsets.len()
            invariant
                k <= offsets@.len(),
                forall|n: int| 0 <= n < k ==> within(#[trigger] offsets@[n], n / (ANGLES as int)),
            decreases offsets@.len() - k,
        {
            let radius: i64 = (k / ANGLES) as i64;
            let (x, y): (i32, i32) = offsets[k];
            if (x as i64) < -radius || (x as i64) > radius || (y as i64) < -radius || (y as i64)
                > radius {
                assert(!within(offsets@[k as int], k as int / (ANGLES as int)));
                return None;
            }
            k += 1;
        }
        Some(Brush { offsets })
    }

    /// The number of rings.
    pub fn size(&self) -> (size: usize)
        ensures
            size == self@.len() / (ANGLES as nat),
    {
        self.offsets.len() / ANGLES
    }

    /// The offset of the sample on ring `radius` at `angle` degrees.
    pub fn offset(&self, radius: usize, angle: usize) -> (offset: (i32, i32))
        requires
            self.wf(),
            radius < self@.len() / (ANGLES as nat),
            angle < ANGLES,
        ensures
            offset == self@[radius * ANGLES + angle],
            within(offset, radius as int),
    {
        let len: usize = self.offsets.len();
        assert(radius * ANGLES + angle < len);
        assert((radius * ANGLES + angle) / (ANGLES as int) == radius);
        self.offsets[radius * ANGLES + angle]
    }
}

/// What a stroke of the cursor does to each cell that it covers.
#[derive(Clone, Copy, PartialEq, Eq, Debug, Structural)]
pub enum Effect {
    /// Paints the cell with a material.
    Add(Kind),
    /// Empties the cell.
    Remove,
    /// Empties an alive cell, paints a dead one with a material.
    Toggle(Kind),
    /// The pointer enters the cell.
    MouseOver,
    /// The pointer leaves the cell.
    MouseOut,
}

impl Effect {
    /// The cell after the effect.
    pub open spec fn on(self, cell: Cellule) -> Cellule {
        match self {
            Effect::Add(kind) => cell.painted(kind),
            Effect::Remove => Cellule::empty(),
            Effect::Toggle(kind) => cell.toggled(kind),
            Effect::MouseOver => cell.hovered(),
            Effect::MouseOut => cell.unhovered(),
        }
    }

    /// Does the effect to `cell`.
    pub fn apply(&self, cell: &mut Cellule)
        ensures
            *final(cell) == self.on(*old(cell)),
    {
        match self {
            Effect::Add(kind) => {
                cell.set_kind(*kind).set_alive();
            },
            Effect::Remove => {
                cell.set_dead();
            },
            Effect::Toggle(kind) => {
                if cell.is_alive() {
                    cell.set_dead();
                } else {
                    cell.set_kind(*kind).set_alive();
                }
            },
            Effect::MouseOver => {
                cell.set_mouse_over();
            },
            Effect::MouseOut => {
                cell.set_mouse_out();
            },
        }
    }
}

impl Board {
    /// The cell that stands `offset` away from the cell at `center`, or
    /// nothing where that is off the board.
    pub open spec fn hit(self, center: int, offset: (i32, i32)) -> Option<int> {
        self.index(self.row_of(center) + offset.1, self.column_of(center) + offset.0)
    }

    /// The cells that the samples `offsets` hit around the cell at `center`,
    /// one for each sample that falls on the board, in the order of the
    /// samples. A cell that several samples hit comes several times.
    pub open spec fn footprint(self, center: int, offsets: Seq<(i32, i32)>) -> Seq<int>
        decreases offsets.len(),
    {
        if offsets.len() == 0 {
            Seq::empty()
        } else {
            let before = self.footprint(center, offsets.drop_last());
            match self.hit(center, offsets.last()) {
                Some(cell) => before.push(cell),
                None => before,
            }
        }
    }

    /// The board after `effect` was done to the cell at each of `hits` in
    /// turn.
    pub open spec fn stamped(self, hits: Seq<int>, effect: Effect) -> Board
        decreases hits.len(),
    {
        if hits.len() == 0 {
            self
        } else {
            let before = self.stamped(hits.drop_last(), effect);
            Board {
                cells: before.cells.update(hits.last(), effect.on(before.cells[hits.last()])),
                ..before
            }
        }
    }

    /// The board with every cell empty.
    pub open spec fn cleared(self) -> Board {
        Board { cells: Seq::new(self.cells.len(), |k: int| Cellule::empty()), ..self }
    }
}

/// `base + delta`, or nothing where that is negative or does not fit.
fn shifted(base: usize, delta: i32) -> (sum: Option<usize>)
    ensures
        sum is Some <==> 0 <= base + delta <= usize::MAX,
        sum matches Some(s) ==> s == base + delta,
{
    if delta < 0 {
        let back: usize = (-(delta as i64)) as usize;
        if back <= base {
            Some(base - back)
        } else {
            None
        }
    } else {
        base.checked_add(delta as usize)
    }
}

impl Grid {
    /// The cells under a cursor of `size_cursor` rings of `brush` around the
    /// cell at `idx`: for each radius below the size and each angle, the cell
    /// at the sample's offset from the centre, where the grid has one.
    pub fn cicle_cursor(&self, idx: usize, brush: &Brush, size_cursor: usize) -> (market_cells:
        Vec<usize>)
        requires
            self.wf(),
            brush.wf(),
        ensures
            indices(market_cells@) == self@.footprint(
                idx as int,
                sampled(brush@, size_cursor as nat),
            ),
            forall|n: int|
                0 <= n < market_cells@.len() ==> (#[trigger] market_cells@[n]) < self@.cells.len(),
    {
        let mut market_cells: Vec<usize> = Vec::new();
        let width: usize = self.width();
        let whole: usize = brush.size();
        let size: usize = if size_cursor < whole {
            size_cursor
        } else {
            whole
        };
        let ghost offsets = sampled(brush@, size_cursor as nat);
        assert(offsets == brush@.take(size * ANGLES)) by {
            if size_cursor >= whole {
                assert(brush@.take(brush@.len() as int) =~= brush@);
            }
        }
        if width == 0 {
            proof {
                lemma_footprint_empty(self@, idx as int, offsets);
            }
            return market_cells;
        }
        let row: usize = idx / width;
        let column: usize = idx % width;
        let mut radius: usize = 0;
        while radius < size
            invariant
                self.wf(),
                brush.wf(),
                radius <= size,
                size <= brush@.len() / (ANGLES as nat),
                width == self@.width,
                width > 0,
                row == self@.row_of(idx as int),
                column == self@.column_of(idx as int),
                indices(market_cells@) == self@.footprint(
                    idx as int,
                    brush@.take(radius * ANGLES),
                ),
                forall|n: int|
                    0 <= n < market_cells@.len() ==> (#[trigger] market_cells@[n])
                        < self@.cells.len(),
            decreases size - radius,
        {
            let mut rad: usize = 0;
            while rad < ANGLES
                invariant
                    self.wf(),
                    brush.wf(),
                    radius < size,
                    rad <= ANGLES,
                    size <= brush@.len() / (ANGLES as nat),
                    width == self@.width,
                    width > 0,
                    row == self@.row_of(idx as int),
                    column == self@.column_of(idx as int),
                    indices(market_cells@) == self@.footprint(
                        idx as int,
                        brush@.take(radius * ANGLES + rad),
                    ),
                    forall|n: int|
                        0 <= n < market_cells@.len() ==> (#[trigger] market_cells@[n])
                            < self@.cells.len(),
                decreases ANGLES - rad,
            {
                let (x, y): (i32, i32) = brush.offset(radius, rad);
                let hit: Option<usize> = match (shifted(row, y), shifted(column, x)) {
                    (Some(i), Some(j)) => self.relative_idx(i, j),
                    _ => None,
                };
                proof {
                    let n = radius * ANGLES + rad;
                    let longer = brush@.take(n + 1);
                    assert(longer.drop_last() =~= brush@.take(n));
                    assert(longer.last() == brush@[n]);
                    assert(self@.hit(idx as int, (x, y)) == match hit {
                        Some(cell) => Some(cell as int),
                        None => None,
                    });
                }
                let ghost marked = market_cells@;
                match hit {
                    Some(cell) => {
                        market_cells.push(cell);
                        assert(indices(market_cells@) =~= indices(marked).push(cell as int));
                    },
                    None => {},
                }
                rad += 1;
            }
            radius += 1;
        }
        market_cells
    }

    /// Does `effect` to the cell at each of `cells` in turn.
    pub fn stamp(&mut self, cells: &Vec<usize>, effect: Effect)
        requires
            old(self).wf(),
            forall|n: int| 0 <= n < cells@.len() ==> (#[trigger] cells@[n]) < old(self)@.cells.len(),
        ensures
            final(self).wf(),
            final(self)@ == old(self)@.stamped(indices(cells@), effect),
            final(self)@.width == old(self)@.width,
            final(self)@.height == old(self)@.height,
    {
        let mut n: usize = 0;
        while n < cells.len()
            invariant
                self.wf(),
                n <= cells@.len(),
                self@.cells.len() == old(self)@.cells.len(),
                self@.width == old(self)@.width,
                self@.height == old(self)@.height,
                forall|n: int|
                    0 <= n < cells@.len() ==> (#[trigger] cells@[n]) < old(self)@.cells.len(),
                self@ == old(self)@.stamped(indices(cells@).take(n as int), effect),
            decreases cells@.len() - n,
        {
            let idx: usize = cells[n];
            let mut cell: Cellule = self.cell(idx);
            effect.apply(&mut cell);
            proof {
                let hits = indices(cells@).take(n + 1);
                assert(hits.drop_last() =~= indices(cells@).take(n as int));
                assert(hits.last() == idx as int);
                assert(self@.cells[idx as int].consistent());
            }
            self.set_cell(idx, cell);
            n += 1;
        }
        assert(indices(cells@).take(cells@.len() as int) =~= indices(cells@));
    }

    /// Empties every cell.
    pub fn clear(&mut self)
        requires
            old(self).wf(),
        ensures
            final(self).wf(),
            final(self)@ == old(self)@.cleared(),
    {
        let len: usize = self.cellules().len();
        let mut idx: usize = 0;
        while idx < len
            invariant
                self.wf(),
                idx <= len,
                len == old(self)@.cells.len(),
                self@.cells.len() == len,
                self@.width == old(self)@.width,
                self@.height == old(self)@.height,
                forall|k: int| 0 <= k < idx ==> self@.cells[k] == Cellule::empty(),
            decreases len - idx,
        {
            let mut cell: Cellule = self.cell(idx);
            cell.set_dead();
            self.set_cell(idx, cell);
            idx += 1;
        }
        assert(self@.cells =~= old(self)@.cleared().cells);
    }
}

/// A board without columns has no cell under any cursor.
pub proof fn lemma_footprint_empty(b: Board, center: int, offsets: Seq<(i32, i32)>)
    requires
        b.width == 0,
    ensures
        b.footprint(center, offsets) == Seq::<int>::empty(),
    decreases offsets.len(),
{
    if offsets.len() > 0 {
        lemma_footprint_empty(b, center, offsets.drop_last());
    }
}

} // verus!
