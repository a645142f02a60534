//! The grid: a flat, row-major array of cells, the mapping between
//! coordinates and indices, and the moves of one cell.

use crate::cell::{Cellule, Kind, State};
use vstd::prelude::*;

verus! {

/// The grid as a mathematical value: `width * height` cells in row-major
/// order. The cell in row `i` and column `j` stands at `i * width + j`.
#[verifier::ext_equal]
pub struct Board {
    pub cells: Seq<Cellule>,
    pub width: nat,
    pub height: nat,
}

impl Board {
    /// The board has a cell for each location, and each cell is consistent.
    pub open spec fn wf(self) -> bool {
        &&& self.cells.len() == self.width * self.height
        &&& forall|k: int| 0 <= k < self.cells.len() ==> (#[trigger] self.cells[k]).consistent()
    }

    /// The index of row `i`, column `j`, or nothing where the board has no
    /// such location.
    pub open spec fn index(self, i: int, j: int) -> Option<int> {
        if 0 <= i < self.height && 0 <= j < self.width {
            Some(i * self.width + j)
        } else {
            None
        }
    }

    /// The row of the cell at `idx`.
    pub open spec fn row_of(self, idx: int) -> int {
        idx / (self.width as int)
    }

    /// The column of the cell at `idx`.
    pub open spec fn column_of(self, idx: int) -> int {
        idx % (self.width as int)
    }

    /// Whether row `i`, column `j` is on the board and holds an alive cell.
    pub open spec fn alive_at(self, i: int, j: int) -> bool {
        self.index(i, j) is Some && self.cells[i * self.width + j].alive()
    }

    /// The number of alive cells that stand in column `j` directly above row
    /// `i`, without a gap.
    pub open spec fn stack_above(self, i: int, j: int) -> nat
        decreases i,
    {
        if i > 0 && self.alive_at(i - 1, j) {
            1 + self.stack_above(i - 1, j)
        } else {
            0
        }
    }

    /// The pressure on row `i`, column `j`: the stack above it, capped to a
    /// byte.
    pub open spec fn pressure(self, i: int, j: int) -> u8 {
        if self.stack_above(i, j) >= 255 {
            255u8
        } else {
            self.stack_above(i, j) as u8
        }
    }

    /// The board after the cell of row `i`, column `j` took the pressure of
    /// the stack above it.
    pub open spec fn pressed(self, i: int, j: int) -> Board {
        let idx = i * self.width + j;
        Board {
            cells: self.cells.update(
                idx,
                Cellule { pressure: self.pressure(i, j), ..self.cells[idx] },
            ),
            ..self
        }
    }

    /// The board after the cell at `origin` moved to `target`: the target
    /// takes the material and is alive, the origin is empty.
    pub open spec fn moved(self, origin: int, target: int) -> Board {
        let arrived = Cellule {
            kind: self.cells[origin].kind,
            state: State::Alive,
            pressure: self.cells[target].pressure,
        };
        Board { cells: self.cells.update(target, arrived).update(origin, Cellule::empty()), ..self }
    }

    /// The number of alive cells of material `kind` among the first `n`
    /// cells.
    pub open spec fn count(self, kind: Kind, n: nat) -> nat
        decreases n,
    {
        if n == 0 {
            0
        } else {
            let rest = self.count(kind, (n - 1) as nat);
            if self.cells[n - 1].holds(kind) {
                rest + 1
            } else {
                rest
            }
        }
    }

    /// The number of alive cells of material `kind` on the board.
    pub open spec fn grains(self, kind: Kind) -> nat {
        self.count(kind, self.cells.len())
    }
}

/// A location on the board has an index below the number of cells.
pub proof fn lemma_index_in_range(b: Board, i: int, j: int)
    requires
        b.index(i, j) is Some,
    ensures
        0 <= i * b.width <= i * b.width + j < b.width * b.height,
{
    let w = b.width as int;
    let h = b.height as int;
    assert(i * w + j < h * w) by (nonlinear_arith)
        requires
            0 <= i < h,
            0 <= j < w,
    ;
    assert(0 <= i * w) by (nonlinear_arith)
        requires
            0 <= i,
            0 <= w,
    ;
    assert(h * w == w * h) by (nonlinear_arith);
}

/// A row or a column beyond the board has no index. An index maps back to
/// the coordinates it was made from, and the coordinates of an index on the
/// board map to that index again.
pub proof fn lemma_index_round_trip(b: Board, i: int, j: int, idx: int)
    ensures
        i >= b.height || j >= b.width ==> b.index(i, j) is None,
        b.index(i, j) == Some(idx) ==> b.row_of(idx) == i && b.column_of(idx) == j,
        0 <= idx < b.width * b.height ==> b.index(b.row_of(idx), b.column_of(idx)) == Some(idx),
{
    let w = b.width as int;
    let h = b.height as int;
    if b.index(i, j) == Some(idx) {
        vstd::arithmetic::div_mod::lemma_fundamental_div_mod_converse(idx, w, i, j);
    }
    if 0 <= idx < w * h {
        assert(w > 0) by (nonlinear_arith)
            requires
                0 <= idx < w * h,
                w >= 0,
                h >= 0,
        ;
        vstd::arithmetic::div_mod::lemma_fundamental_div_mod(idx, w);
        vstd::arithmetic::div_mod::lemma_mod_bound(idx, w);
        let q = idx / w;
        let r = idx % w;
        assert(0 <= q < h) by (nonlinear_arith)
            requires
                0 <= idx < w * h,
                idx == w * q + r,
                0 <= r < w,
        ;
        assert(w * q == q * w) by (nonlinear_arith);
    }
}

/// The cells of a row stand together: the cell of row `i`, column `j` stands
/// among those of row `row` where `i` is `row`, and nowhere else.
pub proof fn lemma_rows_apart(width: int, i: int, j: int, row: int)
    requires
        0 <= j < width,
    ensures
        i == row <==> row * width <= i * width + j < row * width + width,
        i == row ==> i * width + j - row * width == j,
{
    if i < row {
        assert(i * width + width <= row * width) by (nonlinear_arith)
            requires
                i + 1 <= row,
                width > 0,
        ;
    }
    if i > row {
        assert(row * width + width <= i * width) by (nonlinear_arith)
            requires
                row + 1 <= i,
                width > 0,
        ;
    }
}

/// The grid: the cells and their arrangement in rows and columns.
pub struct Grid {
    cellules: Vec<Cellule>,
    width: usize,
    height: usize,
}

impl View for Grid {
    type V = Board;

    closed spec fn view(&self) -> Board {
        Board { cells: self.cellules@, width: self.width as nat, height: self.height as nat }
    }
}

impl Grid {
    /// The grid has a cell for each location, each cell is consistent, and the
    /// numbers of rows and of columns fit the machine.
    pub open spec fn wf(&self) -> bool {
        &&& self@.wf()
        &&& self@.width <= usize::MAX
        &&& self@.height <= usize::MAX
    }

    /// A grid of `width` columns and `height` rows whose cells are all
    /// empty, or nothing where the number of cells does not fit the machine.
    pub fn new(width: usize, height: usize) -> (grid: Option<Grid>)
        ensures
            grid is Some <==> width * height <= usize::MAX,
            grid matches Some(g) ==> {
                &&& g.wf()
                &&& g@.width == width
                &&& g@.height == height
                &&& forall|k: int| 0 <= k < g@.cells.len() ==> g@.cells[k] == Cellule::empty()
            },
    {
        match width.checked_mul(height) {
            None => None,
            Some(len) => {
                let mut cellules: Vec<Cellule> = Vec::new();
                let mut k: usize = 0;
                while k < len
                    invariant
                        k <= len,
                        cellules@.len() == k,
                        forall|n: int| 0 <= n < k ==> cellules@[n] == Cellule::empty(),
                    decreases len - k,
                {
                    cellules.push(Cellule::new());
                    k += 1;
                }
                Some(Grid { cellules, width, height })
            },
        }
    }

    /// The number of columns.
    pub fn width(&self) -> (width: usize)
        ensures
            width == self@.width,
    {
        self.width
    }

    /// The number of rows.
    pub fn height(&self) -> (height: usize)
        ensures
            height == self@.height,
    {
        self.height
    }

    /// The largest pressure that the display reckons with: the way from one
    /// corner of the grid to the opposite one, `width - 1` columns and
    /// `height - 1` rows.
    pub fn pressure_scale(&self) -> (scale: usize)
        requires
            self.wf(),
        ensures
            scale == (if self@.width > 0 {
                self@.width - 1
            } else {
                0
            }) + (if self@.height > 0 {
                self@.height - 1
            } else {
                0
            }),
    {
        if self.width == 0 {
            if self.height == 0 {
                0
            } else {
                self.height - 1
            }
        } else if self.height == 0 {
            self.width - 1
        } else {
            assert(self.width + self.height - 2 < self.width * self.height) by (nonlinear_arith)
                requires
                    self.width >= 1,
                    self.height >= 1,
            ;
            assert(self.width * self.height == self.cellules.len());
            (self.width - 1) + (self.height - 1)
        }
    }

    /// The cells in row-major order.
    pub fn cellules(&self) -> (cells: &Vec<Cellule>)
        ensures
            cells@ == self@.cells,
    {
        &self.cellules
    }

    /// The cell at `idx`.
    pub fn cell(&self, idx: usize) -> (cell: Cellule)
        requires
            idx < self@.cells.len(),
        ensures
            cell == self@.cells[idx as int],
    {
        self.cellules[idx]
    }

    /// Puts `cell` at `idx`, where the grid has such a cell and `cell` is
    /// consistent; else the grid stays as it is.
    pub fn set_cell(&mut self, idx: usize, cell: Cellule) -> (done: bool)
        requires
            old(self).wf(),
        ensures
            final(self).wf(),
            done <==> idx < old(self)@.cells.len() && cell.consistent(),
            final(self)@ == if done {
                Board { cells: old(self)@.cells.update(idx as int, cell), ..old(self)@ }
            } else {
                old(self)@
            },
    {
        let mut put: Cellule = cell;
        let consistent = if put.is_alive() {
            cell.kind.is_some()
        } else {
            cell.kind.is_none() && cell.pressure == 0
        };
        if idx < self.cellules.len() && consistent {
            self.cellules[idx] = cell;
            true
        } else {
            false
        }
    }

    /// The index of row `i`, column `j`, or nothing where the grid has no
    /// such location.
    pub fn relative_idx(&self, i: usize, j: usize) -> (idx: Option<usize>)
        requires
            self.wf(),
        ensures
            idx is None <==> i >= self@.height || j >= self@.width,
            idx matches Some(k) ==> self@.index(i as int, j as int) == Some(k as int) && k
                < self@.cells.len(),
    {
        if i < self.height && j < self.width {
            proof {
                lemma_index_in_range(self@, i as int, j as int);
                assert(i * self.width + j < self.cellules.len());
            }
            Some(i * self.width + j)
        } else {
            None
        }
    }

    /// The row and the column of the cell at `idx`.
    pub fn coordinates_of(&self, idx: usize) -> (at: (usize, usize))
        requires
            self.wf(),
            idx < self@.cells.len(),
        ensures
            at.0 == self@.row_of(idx as int),
            at.1 == self@.column_of(idx as int),
            self@.index(at.0 as int, at.1 as int) == Some(idx as int),
    {
        proof {
            lemma_index_round_trip(self@, 0, 0, idx as int);
        }
        (idx / self.width, idx % self.width)
    }

    /// The pressure on row `i`, column `j`: the number of alive cells that
    /// stand directly above it without a gap, capped to a byte.
    pub fn pressure(&self, i: usize, j: usize) -> (pressure: u8)
        requires
            self.wf(),
        ensures
            pressure == self@.pressure(i as int, j as int),
    {
        let mut above: u8 = 0;
        let mut k: usize = i;
        while k > 0 && above < 255
            invariant
                self.wf(),
                k <= i,
                above as int == i - k || above == 255,
                above as int + self@.stack_above(k as int, j as int) == self@.stack_above(
                    i as int,
                    j as int,
                ),
            ensures
                above == self@.pressure(i as int, j as int),
            decreases k,
        {
            let alive = match self.relative_idx(k - 1, j) {
                Some(idx) => {
                    let mut cell: Cellule = self.cellules[idx];
                    cell.is_alive()
                },
                None => false,
            };
            if !alive {
                break ;
            }
            above += 1;
            k -= 1;
        }
        above
    }

    /// Stores on the cell of row `i`, column `j` the pressure of the stack
    /// above it.
    pub fn press(&mut self, i: usize, j: usize)
        requires
            old(self).wf(),
            old(self)@.index(i as int, j as int) is Some,
            old(self)@.cells[i * old(self)@.width + j].alive(),
        ensures
            final(self).wf(),
            final(self)@ == old(self)@.pressed(i as int, j as int),
    {
        let target_pressure = self.pressure(i, j);
        proof {
            lemma_index_in_range(self@, i as int, j as int);
            assert(i * self.width + j < self.cellules.len());
        }
        let idx = i * self.width + j;
        self.cellules[idx].set_pressure(target_pressure);
    }

    /// Moves the cell at `origin` to `target`: the target takes the material
    /// and is alive, the origin is left empty.
    pub fn move_cell(&mut self, origin: usize, target: usize)
        requires
            old(self).wf(),
            origin < old(self)@.cells.len(),
            target < old(self)@.cells.len(),
            old(self)@.cells[origin as int].kind is Some,
        ensures
            final(self).wf(),
            final(self)@ == old(self)@.moved(origin as int, target as int),
    {
        let kind = self.cellules[origin].kind.unwrap();
        self.cellules[target].set_kind(kind).set_alive();
        self.cellules[origin].set_dead();
    }

    /// A copy of the cells, in row-major order.
    pub fn snapshot(&self) -> (cells: Vec<Cellule>)
        ensures
            cells@ == self@.cells,
    {
        let mut cells: Vec<Cellule> = Vec::new();
        let mut k: usize = 0;
        while k < self.cellules.len()
            invariant
                k <= self.cellules@.len(),
                cells@ == self.cellules@.take(k as int),
            decreases self.cellules@.len() - k,
        {
            cells.push(self.cellules[k]);
            k += 1;
        }
        cells
    }

    /// Whether the cells differ from `cells`.
    pub fn differs_from(&self, cells: &Vec<Cellule>) -> (differs: bool)
        ensures
            differs <==> self@.cells != cells@,
    {
        if self.cellules.len() != cells.len() {
            return true;
        }
        let mut k: usize = 0;
        while k < cells.len()
            invariant
                k <= cells@.len(),
                cells@.len() == self.cellules@.len(),
                forall|n: int| 0 <= n < k ==> self.cellules@[n] == cells@[n],
            decreases cells@.len() - k,
        {
            if self.cellules[k] != cells[k] {
                return true;
            }
            k += 1;
        }
        assert(self.cellules@ =~= cells@);
        false
    }
}

} // verus!
