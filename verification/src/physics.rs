//! The physics of one tick: each sand cell takes the pressure of the stack
//! above it, falls where the cell below is dead, and slips sideways where it
//! is blocked.

use crate::cell::{Cellule, Kind};
use crate::grid::{lemma_index_in_range, Board, Grid};
use crate::invariants::{lemma_tick_conserves, lemma_tick_keeps_rock};
use rand::rngs::StdRng;
use rand::seq::SliceRandom;
use vstd::prelude::*;

verus! {

/// `rand::rngs::StdRng`, the generator that the slips are drawn from. Nothing
/// is stated of what it holds.
#[verifier::external_type_specification]
#[verifier::external_body]
pub struct ExStdRng(rand::rngs::StdRng);

/// `rand::seq::SliceRandom::choose` on a slice: one of the items of
/// `candidates`, whichever the generator picks, or nothing where there is no
/// item. Which item comes is not stated.
#[verifier::external_body]
fn pick(candidates: &Vec<i32>, rng: &mut StdRng) -> (picked: Option<i32>)
    ensures
        picked is None <==> candidates@.len() == 0,
        picked matches Some(item) ==> candidates@.contains(item),
{
    candidates.choose(rng).copied()
}

/// The farthest that a blocked cell is drawn to slip, in columns.
pub const SLIPPAGE: i32 = 2;

impl Board {
    /// Whether a cell of row `i` can slip through column `j`: the cell there
    /// and the cell below it are on the board and dead.
    pub open spec fn free(self, i: int, j: int) -> bool {
        &&& self.index(i, j) is Some
        &&& self.index(i + 1, j) is Some
        &&& !self.cells[i * self.width + j].alive()
        &&& !self.cells[(i + 1) * self.width + j].alive()
    }

    /// The column `steps` columns beside column `j`, to the left or to the
    /// right.
    pub open spec fn beside(j: int, left: bool, steps: int) -> int {
        if left {
            j - steps
        } else {
            j + steps
        }
    }

    /// How many columns a cell of row `i`, column `j` can slip to one side:
    /// the number of free columns next to it without a gap, up to `limit`.
    pub open spec fn slip_reach(self, i: int, j: int, left: bool, limit: nat) -> nat
        decreases limit,
    {
        if limit == 0 {
            0
        } else {
            let before = self.slip_reach(i, j, left, (limit - 1) as nat);
            if before == limit - 1 && self.free(i, Board::beside(j, left, limit as int)) {
                limit
            } else {
                before
            }
        }
    }

    /// Where the cell of row `i`, column `j` slips to on the draw `draw`: the
    /// cell below the farthest column that it can reach, to the left for a
    /// negative draw and to the right for a positive one, at most as far as
    /// the draw is large; nothing where it cannot leave its column.
    pub open spec fn slip_target(self, i: int, j: int, draw: int) -> Option<int> {
        let left = draw < 0;
        let limit: nat = if draw < 0 {
            (-draw) as nat
        } else {
            draw as nat
        };
        let reach = self.slip_reach(i, j, left, limit);
        if reach == 0 {
            None
        } else {
            Some((i + 1) * self.width + Board::beside(j, left, reach as int))
        }
    }

    /// The board after the cell of row `i`, column `j` slipped on the draw
    /// `draw`.
    pub open spec fn slipped(self, i: int, j: int, draw: int) -> Board {
        match self.slip_target(i, j, draw) {
            Some(target) => self.moved(i * self.width + j, target),
            None => self,
        }
    }

    /// The board after the step of the sand cell of row `i`, column `j`: it
    /// takes its pressure; then it falls where the cell below is dead, slips
    /// on the draw `draw` where the cell below is alive, and stays in the
    /// bottom row.
    pub open spec fn sand_step(self, i: int, j: int, draw: int) -> Board {
        let pressed = self.pressed(i, j);
        if self.index(i + 1, j) is None {
            pressed
        } else if !pressed.cells[(i + 1) * self.width + j].alive() {
            pressed.moved(i * self.width + j, (i + 1) * self.width + j)
        } else {
            pressed.slipped(i, j, draw)
        }
    }

    /// The board after the tick came by row `i`, column `j`: a sand cell makes
    /// its step, any other cell stays as it is.
    pub open spec fn visited(self, i: int, j: int, draw: int) -> Board {
        if self.cells[i * self.width + j].kind == Some(Kind::Sand) {
            self.sand_step(i, j, draw)
        } else {
            self
        }
    }

    /// The board after the tick came by the first `n` cells of row `i`, from
    /// the left. The cell of column `j` slips on the draw `draws[j]`.
    pub open spec fn swept_row(self, draws: Seq<int>, i: int, n: nat) -> Board
        decreases n,
    {
        if n == 0 {
            self
        } else {
            self.swept_row(draws, i, (n - 1) as nat).visited(i, n - 1, draws[n - 1])
        }
    }

    /// The board after the tick came by the `rows` rows at the bottom, the
    /// lowest first. The cells of row `i` slip on the draws `draws[i]`.
    pub open spec fn swept(self, draws: Seq<Seq<int>>, rows: nat) -> Board
        decreases rows,
    {
        if rows == 0 {
            self
        } else {
            self.swept(draws, (rows - 1) as nat).swept_row(
                draws[self.height - rows],
                self.height - rows,
                self.width,
            )
        }
    }

    /// The board after one tick: the rows from the bottom to the top, each
    /// from the left to the right. The cell of row `i`, column `j`, where it
    /// is blocked, slips on the draw `draws[i][j]`.
    pub open spec fn ticked(self, draws: Seq<Seq<int>>) -> Board {
        self.swept(draws, self.height)
    }

    /// The board after one tick for each of `rounds`, the first first; each
    /// holds the draws of its tick.
    pub open spec fn ticked_through(self, rounds: Seq<Seq<Seq<int>>>) -> Board
        decreases rounds.len(),
    {
        if rounds.len() == 0 {
            self
        } else {
            self.ticked_through(rounds.drop_last()).ticked(rounds.last())
        }
    }

    /// One draw for each cell of the board, none farther than `slippage`
    /// from zero.
    pub open spec fn slip_draws(self, draws: Seq<Seq<int>>, slippage: int) -> bool {
        &&& draws.len() == self.height
        &&& forall|i: int| 0 <= i < self.height ==> (#[trigger] draws[i]).len() == self.width
        &&& forall|i: int, j: int|
            0 <= i < self.height && 0 <= j < self.width ==> -slippage <= #[trigger] draws[i][j]
                <= slippage
    }
}

/// The reach never exceeds the limit.
pub proof fn lemma_slip_reach_bound(b: Board, i: int, j: int, left: bool, limit: nat)
    ensures
        b.slip_reach(i, j, left, limit) <= limit,
    decreases limit,
{
    if limit > 0 {
        lemma_slip_reach_bound(b, i, j, left, (limit - 1) as nat);
    }
}

/// Once a column is not free, a larger limit reaches no farther.
pub proof fn lemma_slip_reach_stops(b: Board, i: int, j: int, left: bool, stop: nat, limit: nat)
    requires
        1 <= stop <= limit,
        !b.free(i, Board::beside(j, left, stop as int)),
    ensures
        b.slip_reach(i, j, left, limit) == b.slip_reach(i, j, left, (stop - 1) as nat),
    decreases limit,
{
    lemma_slip_reach_bound(b, i, j, left, (stop - 1) as nat);
    if limit > stop {
        lemma_slip_reach_stops(b, i, j, left, stop, (limit - 1) as nat);
    }
}

/// A cell slips only below a free column: where there is a target, it is the
/// cell below a column on the board, and that cell and the one above it are
/// dead.
pub proof fn lemma_slip_target_free(b: Board, i: int, j: int, draw: int)
    requires
        b.slip_target(i, j, draw) is Some,
    ensures
        ({
            let left = draw < 0;
            let limit: nat = if draw < 0 {
                (-draw) as nat
            } else {
                draw as nat
            };
            let reach = b.slip_reach(i, j, left, limit);
            &&& 1 <= reach <= limit
            &&& b.free(i, Board::beside(j, left, reach as int))
            &&& b.index(i + 1, Board::beside(j, left, reach as int)) == b.slip_target(i, j, draw)
        }),
{
    let left = draw < 0;
    let limit: nat = if draw < 0 {
        (-draw) as nat
    } else {
        draw as nat
    };
    lemma_slip_reach_bound(b, i, j, left, limit);
    lemma_slip_reach_last_free(b, i, j, left, limit);
}

/// The farthest column that a cell can reach is free.
pub proof fn lemma_slip_reach_last_free(b: Board, i: int, j: int, left: bool, limit: nat)
    ensures
        b.slip_reach(i, j, left, limit) > 0 ==> b.free(
            i,
            Board::beside(j, left, b.slip_reach(i, j, left, limit) as int),
        ),
    decreases limit,
{
    if limit > 0 {
        lemma_slip_reach_last_free(b, i, j, left, (limit - 1) as nat);
    }
}

/// The step of a cell on the board keeps the size of the board.
pub proof fn lemma_sand_step_shape(b: Board, i: int, j: int, draw: int)
    requires
        b.cells.len() == b.width * b.height,
        b.index(i, j) is Some,
    ensures
        b.visited(i, j, draw).width == b.width,
        b.visited(i, j, draw).height == b.height,
        b.visited(i, j, draw).cells.len() == b.cells.len(),
{
    lemma_index_in_range(b, i, j);
    let pressed = b.pressed(i, j);
    if b.index(i + 1, j) is Some {
        lemma_index_in_range(b, i + 1, j);
        if pressed.slip_target(i, j, draw) is Some {
            lemma_slip_target_free(pressed, i, j, draw);
            let left = draw < 0;
            let limit: nat = if draw < 0 {
                (-draw) as nat
            } else {
                draw as nat
            };
            let reach = pressed.slip_reach(i, j, left, limit);
            lemma_index_in_range(pressed, i + 1, Board::beside(j, left, reach as int));
        }
    }
}

/// A sweep along a row keeps the size of the board.
pub proof fn lemma_swept_row_shape(b: Board, draws: Seq<int>, i: int, n: nat)
    requires
        b.cells.len() == b.width * b.height,
        0 <= i < b.height,
        n <= b.width,
    ensures
        b.swept_row(draws, i, n).width == b.width,
        b.swept_row(draws, i, n).height == b.height,
        b.swept_row(draws, i, n).cells.len() == b.cells.len(),
    decreases n,
{
    if n > 0 {
        lemma_swept_row_shape(b, draws, i, (n - 1) as nat);
        lemma_sand_step_shape(b.swept_row(draws, i, (n - 1) as nat), i, n - 1, draws[n - 1]);
    }
}

/// A sweep over rows keeps the size of the board.
pub proof fn lemma_swept_shape(b: Board, draws: Seq<Seq<int>>, rows: nat)
    requires
        b.cells.len() == b.width * b.height,
        rows <= b.height,
    ensures
        b.swept(draws, rows).width == b.width,
        b.swept(draws, rows).height == b.height,
        b.swept(draws, rows).cells.len() == b.cells.len(),
    decreases rows,
{
    if rows > 0 {
        lemma_swept_shape(b, draws, (rows - 1) as nat);
        lemma_swept_row_shape(
            b.swept(draws, (rows - 1) as nat),
            draws[b.height - rows],
            b.height - rows,
            b.width,
        );
    }
}

/// A sweep along a row reads the draws of the cells it came by, and no
/// others.
pub proof fn lemma_swept_row_draws(b: Board, first: Seq<int>, second: Seq<int>, i: int, n: nat)
    requires
        forall|j: int| 0 <= j < n ==> first[j] == second[j],
    ensures
        b.swept_row(first, i, n) == b.swept_row(second, i, n),
    decreases n,
{
    if n > 0 {
        lemma_swept_row_draws(b, first, second, i, (n - 1) as nat);
    }
}

/// A sweep over rows reads the draws of the rows it came by, and no others.
pub proof fn lemma_swept_draws(b: Board, first: Seq<Seq<int>>, second: Seq<Seq<int>>, rows: nat)
    requires
        forall|i: int| b.height - rows <= i < b.height ==> first[i] == second[i],
    ensures
        b.swept(first, rows) == b.swept(second, rows),
    decreases rows,
{
    if rows > 0 {
        lemma_swept_draws(b, first, second, (rows - 1) as nat);
    }
}

impl Grid {
    /// Where the cell of row `i`, column `j` slips to on the draw `draw`.
    pub fn slip_target(&self, i: usize, j: usize, draw: i32) -> (target: Option<usize>)
        requires
            self.wf(),
        ensures
            target is Some <==> self@.slip_target(i as int, j as int, draw as int) is Some,
            target matches Some(t) ==> self@.slip_target(i as int, j as int, draw as int) == Some(
                t as int,
            ) && t < self@.cells.len(),
    {
        let limit: u32 = if draw < 0 {
            (-(draw as i64)) as u32
        } else {
            draw as u32
        };
        let left: bool = draw < 0;
        let height: usize = self.height();
        let mut target: Option<usize> = None;
        let mut reach: u32 = 0;
        if i >= height {
            proof {
                if limit > 0 {
                    lemma_slip_reach_stops(self@, i as int, j as int, left, 1, limit as nat);
                }
            }
            return None;
        }
        while reach < limit
            invariant
                self.wf(),
                reach <= limit,
                i < height,
                height == self@.height,
                left == (draw < 0),
                self@.slip_reach(i as int, j as int, left, reach as nat) == reach,
                reach == 0 ==> target is None,
                reach > 0 ==> (target matches Some(t) && t < self@.cells.len() && t as int == (i
                    + 1) * self@.width + Board::beside(j as int, left, reach as int)),
            ensures
                self@.slip_reach(i as int, j as int, left, limit as nat) == reach,
                reach == 0 ==> target is None,
                reach > 0 ==> (target matches Some(t) && t < self@.cells.len() && t as int == (i
                    + 1) * self@.width + Board::beside(j as int, left, reach as int)),
            decreases limit - reach,
        {
            let step: u32 = reach + 1;
            let column: Option<usize> = if left {
                if step as usize <= j {
                    Some(j - step as usize)
                } else {
                    None
                }
            } else {
                j.checked_add(step as usize)
            };
            let beside: Option<usize> = match column {
                Some(c) => self.relative_idx(i, c),
                None => None,
            };
            let below: Option<usize> = match column {
                Some(c) => self.relative_idx(i + 1, c),
                None => None,
            };
            let landing: Option<usize> = match (beside, below) {
                (Some(a), Some(b)) => {
                    let mut cell_beside: Cellule = self.cell(a);
                    let mut cell_below: Cellule = self.cell(b);
                    if cell_beside.is_dead() && cell_below.is_dead() {
                        Some(b)
                    } else {
                        None
                    }
                },
                _ => None,
            };
            match landing {
                Some(b) => {
                    target = Some(b);
                    reach = step;
                },
                None => {
                    proof {
                        assert(!self@.free(i as int, Board::beside(j as int, left, step as int)));
                        lemma_slip_reach_stops(
                            self@,
                            i as int,
                            j as int,
                            left,
                            step as nat,
                            limit as nat,
                        );
                    }
                    break ;
                },
            }
        }
        target
    }

    /// Lets the cell of row `i`, column `j` slip on the draw `draw`: it moves
    /// below the farthest column that it can reach on that side, or stays.
    pub fn slip_cell(&mut self, i: usize, j: usize, draw: i32)
        requires
            old(self).wf(),
            old(self)@.index(i as int, j as int) is Some,
            old(self)@.cells[i * old(self)@.width + j].kind is Some,
        ensures
            final(self).wf(),
            final(self)@ == old(self)@.slipped(i as int, j as int, draw as int),
    {
        match self.slip_target(i, j, draw) {
            Some(slipped_idx) => {
                match self.relative_idx(i, j) {
                    Some(idx) => self.move_cell(idx, slipped_idx),
                    None => {},
                }
            },
            None => {},
        }
    }

    /// Draws how far the blocked cell of row `i`, column `j` slips, a number
    /// from `-slippage` to `slippage`, and lets the cell slip on it.
    pub fn move_cell_with_slip(&mut self, i: usize, j: usize, slippage: i32, rng: &mut StdRng)
        requires
            old(self).wf(),
            old(self)@.index(i as int, j as int) is Some,
            old(self)@.cells[i * old(self)@.width + j].kind is Some,
            0 <= slippage,
        ensures
            final(self).wf(),
            exists|draw: int|
                -slippage <= draw <= slippage && final(self)@ == #[trigger] old(self)@.slipped(
                    i as int,
                    j as int,
                    draw,
                ),
    {
        let mut candidates: Vec<i32> = Vec::new();
        let mut slip: i32 = -slippage;
        while slip < slippage
            invariant
                -slippage <= slip <= slippage,
                forall|k: int|
                    0 <= k < candidates@.len() ==> -slippage <= #[trigger] candidates@[k]
                        <= slippage,
            decreases slippage - slip,
        {
            candidates.push(slip);
            slip += 1;
        }
        candidates.push(slippage);
        match pick(&candidates, rng) {
            Some(slip_coefficient) => {
                self.slip_cell(i, j, slip_coefficient);
            },
            None => {
                assert(self@ == old(self)@.slipped(i as int, j as int, 0));
            },
        }
    }

    /// The step of the sand cell of row `i`, column `j`: it takes the
    /// pressure of the stack above it; then it falls where the cell below is
    /// dead, slips on a draw where the cell below is alive, and stays in the
    /// bottom row.
    pub fn step_sand(&mut self, i: usize, j: usize, rng: &mut StdRng)
        requires
            old(self).wf(),
            old(self)@.index(i as int, j as int) is Some,
            old(self)@.cells[i * old(self)@.width + j].kind == Some(Kind::Sand),
        ensures
            final(self).wf(),
            exists|draw: int|
                -SLIPPAGE <= draw <= SLIPPAGE && final(self)@ == #[trigger] old(self)@.sand_step(
                    i as int,
                    j as int,
                    draw,
                ),
    {
        proof {
            lemma_index_in_range(self@, i as int, j as int);
            assert(self@.cells[i * self@.width + j].consistent());
        }
        self.press(i, j);
        let ghost pressed = self@;
        match self.relative_idx(i + 1, j) {
            Some(idx_below) => {
                let mut below: Cellule = self.cell(idx_below);
                if below.is_dead() {
                    match self.relative_idx(i, j) {
                        Some(idx) => self.move_cell(idx, idx_below),
                        None => {},
                    }
                    assert(self@ == old(self)@.sand_step(i as int, j as int, 0));
                } else {
                    self.move_cell_with_slip(i, j, SLIPPAGE, rng);
                    proof {
                        let draw = choose|draw: int|
                            -SLIPPAGE <= draw <= SLIPPAGE && self@ == #[trigger] pressed.slipped(
                                i as int,
                                j as int,
                                draw,
                            );
                        assert(self@ == old(self)@.sand_step(i as int, j as int, draw));
                    }
                }
            },
            None => {
                assert(self@ == old(self)@.sand_step(i as int, j as int, 0));
            },
        }
    }

    /// One tick: the rows from the bottom to the top, each from the left to
    /// the right; each sand cell makes its step. Tells whether any cell is
    /// other than before.
    pub fn step(&mut self, rng: &mut StdRng) -> (changed: bool)
        requires
            old(self).wf(),
        ensures
            final(self).wf(),
            changed <==> final(self)@ != old(self)@,
            exists|draws: Seq<Seq<int>>|
                old(self)@.slip_draws(draws, SLIPPAGE as int) && final(self)@ == #[trigger] old(
                    self,
                )@.ticked(draws),
            forall|kind: Kind| #[trigger] final(self)@.grains(kind) == old(self)@.grains(kind),
            forall|k: int|
                0 <= k < old(self)@.cells.len() && old(self)@.cells[k].kind == Some(Kind::Rock)
                    ==> #[trigger] final(self)@.cells[k] == old(self)@.cells[k],
    {
        let before: Vec<Cellule> = self.snapshot();
        let height: usize = self.height();
        let width: usize = self.width();
        let ghost start = self@;
        let ghost mut draws: Seq<Seq<int>> = Seq::new(
            height as nat,
            |i: int| Seq::new(width as nat, |j: int| 0int),
        );
        let mut rows: usize = 0;
        while rows < height
            invariant
                self.wf(),
                start == old(self)@,
                rows <= height,
                height == start.height,
                width == start.width,
                self@.width == start.width,
                self@.height == start.height,
                start.slip_draws(draws, SLIPPAGE as int),
                self@ == start.swept(draws, rows as nat),
            decreases height - rows,
        {
            let i: usize = height - 1 - rows;
            let ghost low = self@;
            let mut j: usize = 0;
            while j < width
                invariant
                    self.wf(),
                    j <= width,
                    i == height - 1 - rows,
                    rows < height,
                    height == start.height,
                    width == start.width,
                    self@.width == start.width,
                    self@.height == start.height,
                    low.width == start.width,
                    low.height == start.height,
                    start.slip_draws(draws, SLIPPAGE as int),
                    low == start.swept(draws, rows as nat),
                    self@ == low.swept_row(draws[i as int], i as int, j as nat),
                decreases width - j,
            {
                let ghost here = self@;
                match self.relative_idx(i, j) {
                    Some(idx) => {
                        let kind = self.cell(idx).kind;
                        match kind {
                            Some(Kind::Sand) => {
                                self.step_sand(i, j, rng);
                                proof {
                                    let draw = choose|draw: int|
                                        -SLIPPAGE <= draw <= SLIPPAGE && self@
                                            == #[trigger] here.sand_step(i as int, j as int, draw);
                                    let drawn = draws.update(
                                        i as int,
                                        draws[i as int].update(j as int, draw),
                                    );
                                    lemma_swept_draws(start, draws, drawn, rows as nat);
                                    lemma_swept_row_draws(
                                        low,
                                        draws[i as int],
                                        drawn[i as int],
                                        i as int,
                                        j as nat,
                                    );
                                    draws = drawn;
                                }
                            },
                            _ => {},
                        }
                    },
                    None => {},
                }
                j += 1;
            }
            rows += 1;
        }
        assert(start.slip_draws(draws, SLIPPAGE as int) && self@ == start.ticked(draws));
        proof {
            assert forall|kind: Kind| #[trigger] self@.grains(kind) == start.grains(kind) by {
                lemma_tick_conserves(start, draws, kind);
            }
            assert forall|k: int|
                0 <= k < start.cells.len() && start.cells[k].kind == Some(
                    Kind::Rock,
                ) implies #[trigger] self@.cells[k] == start.cells[k] by {
                lemma_tick_keeps_rock(start, draws, k);
            }
        }
        self.differs_from(&before)
    }
}

} // verus!
