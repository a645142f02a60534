//! The controller: the grid with the settings of the cursor, and the
//! commands that the driver sends.

use crate::cell::{Cellule, Kind};
use crate::cursor::{indices, rings, sampled, Brush, Effect};
use crate::grid::{Board, Grid};
use crate::invariants::lemma_tick_conserves;
use crate::physics::SLIPPAGE;
use crate::strokes::{
    lemma_footprint_of_size, lemma_footprint_on_board, lemma_stamp_shape, lemma_toggle_twice,
};
use rand::rngs::StdRng;
use vstd::prelude::*;

verus! {

/// The number of rings of the cursor at the start.
pub const SIZE_CURSOR: usize = 8;

/// What a press of the pointer does to the cells under the cursor.
#[derive(Clone, PartialEq, Copy, Eq, Debug, Structural)]
pub enum CreationMode {
    Add,
    Remove,
    Toggle,
}

/// A command of the driver.
#[derive(Clone, Copy, Debug)]
pub enum Msg {
    Tick,
    // A press of the pointer on a cell
    AddCellule(usize),
    RemoveCellule(usize),
    ToggleCellule(usize),
    // The pointer enters or leaves a cell
    MouseOver(usize),
    MouseOut(usize),
    // The run of the simulation
    Play,
    Reset,
    Pause,
    // The settings of the cursor
    ChangeSizeCursor(usize),
    ChangeCreationMode(CreationMode),
    ChangeKindCell(Kind),
}

/// The simulation as a mathematical value: the board and the settings.
#[verifier::ext_equal]
pub struct Scene {
    pub board: Board,
    pub active: bool,
    pub size_cursor: nat,
    pub creation_mode: CreationMode,
    pub kind_cell: Kind,
    pub brush: Seq<(i32, i32)>,
}

impl Scene {
    /// The board is well formed and fits the machine, and the brush is made
    /// of whole rings that each stay within their radius.
    pub open spec fn wf(self) -> bool {
        &&& self.board.wf()
        &&& self.board.width <= usize::MAX
        &&& self.board.height <= usize::MAX
        &&& rings(self.brush)
    }

    /// The cells under the cursor around the cell at `idx`.
    pub open spec fn cursor(self, idx: int) -> Seq<int> {
        self.board.footprint(idx, sampled(self.brush, self.size_cursor))
    }

    /// The scene with `effect` done to each cell under the cursor around the
    /// cell at `idx`, in the order of the samples.
    pub open spec fn stroke(self, idx: int, effect: Effect) -> Scene {
        Scene { board: self.board.stamped(self.cursor(idx), effect), ..self }
    }

    /// The scene after the command `msg`. In a tick the cell of row `i`,
    /// column `j`, where it is blocked, slips on the draw `draws[i][j]`.
    pub open spec fn after(self, msg: Msg, draws: Seq<Seq<int>>) -> Scene {
        match msg {
            Msg::Tick => if self.active {
                Scene { board: self.board.ticked(draws), ..self }
            } else {
                self
            },
            Msg::AddCellule(idx) => self.stroke(idx as int, Effect::Add(self.kind_cell)),
            Msg::RemoveCellule(idx) => self.stroke(idx as int, Effect::Remove),
            Msg::ToggleCellule(idx) => self.stroke(idx as int, Effect::Toggle(self.kind_cell)),
            Msg::MouseOver(idx) => self.stroke(idx as int, Effect::MouseOver),
            Msg::MouseOut(idx) => self.stroke(idx as int, Effect::MouseOut),
            Msg::Play => Scene { active: true, ..self },
            Msg::Pause => Scene { active: false, ..self },
            Msg::Reset => Scene { board: self.board.cleared(), active: true, ..self },
            Msg::ChangeSizeCursor(size) => Scene { size_cursor: size as nat, ..self },
            Msg::ChangeCreationMode(mode) => Scene { creation_mode: mode, ..self },
            Msg::ChangeKindCell(kind) => Scene { kind_cell: kind, ..self },
        }
    }
}

/// A reset empties the grid and sets the simulation running, whatever the
/// scene was: every cell is dead, without material and without pressure.
pub proof fn lemma_reset_clears(scene: Scene, draws: Seq<Seq<int>>)
    ensures
        scene.after(Msg::Reset, draws).active,
        scene.after(Msg::Reset, draws).board.width == scene.board.width,
        scene.after(Msg::Reset, draws).board.height == scene.board.height,
        scene.after(Msg::Reset, draws).board.cells.len() == scene.board.cells.len(),
        forall|k: int|
            0 <= k < scene.board.cells.len() ==> #[trigger] scene.after(
                Msg::Reset,
                draws,
            ).board.cells[k] == Cellule::empty(),
{
}

/// A tick neither makes nor loses a grain, whether the simulation runs or is
/// paused and whatever is drawn: the grid has as many alive cells of each
/// material after it as before.
pub proof fn lemma_tick_conserves_grains(scene: Scene, draws: Seq<Seq<int>>, kind: Kind)
    requires
        scene.board.wf(),
    ensures
        scene.after(Msg::Tick, draws).board.wf(),
        scene.after(Msg::Tick, draws).board.grains(kind) == scene.board.grains(kind),
{
    lemma_tick_conserves(scene.board, draws, kind);
}

/// While the simulation is paused a tick changes nothing.
pub proof fn lemma_tick_while_paused(scene: Scene, draws: Seq<Seq<int>>)
    requires
        !scene.active,
    ensures
        scene.after(Msg::Tick, draws) == scene,
{
}

/// Toggling twice at the same cell, with nothing in between, leaves each
/// cell of the grid alive or dead as it was before. With a cursor of one
/// ring, which covers the cell at its centre alone, that cell is back in the
/// life state it had.
pub proof fn lemma_toggle_twice_restores(scene: Scene, idx: usize, cell: int)
    requires
        scene.board.cells.len() == scene.board.width * scene.board.height,
        0 <= cell < scene.board.cells.len(),
    ensures
        scene.after(Msg::ToggleCellule(idx), Seq::empty()).after(
            Msg::ToggleCellule(idx),
            Seq::empty(),
        ).board.cells[cell].alive() == scene.board.cells[cell].alive(),
{
    let offsets = sampled(scene.brush, scene.size_cursor);
    let hits = scene.cursor(idx as int);
    let once = scene.after(Msg::ToggleCellule(idx), Seq::empty());
    lemma_footprint_on_board(scene.board, idx as int, offsets);
    lemma_stamp_shape(scene.board, hits, Effect::Toggle(scene.kind_cell));
    lemma_footprint_of_size(once.board, scene.board, idx as int, offsets);
    lemma_toggle_twice(scene.board, hits, scene.kind_cell, cell);
}

/// The simulation: the grid, the settings of the cursor, whether it runs, and
/// the generator that the slips are drawn from.
pub struct App {
    grid: Grid,
    active: bool,
    size_cursor: usize,
    creation_mode: CreationMode,
    kind_cell: Kind,
    brush: Brush,
    seed: StdRng,
}

impl View for App {
    type V = Scene;

    closed spec fn view(&self) -> Scene {
        Scene {
            board: self.grid@,
            active: self.active,
            size_cursor: self.size_cursor as nat,
            creation_mode: self.creation_mode,
            kind_cell: self.kind_cell,
            brush: self.brush@,
        }
    }
}

impl App {
    /// The grid and the brush are well formed.
    pub open spec fn wf(&self) -> bool {
        self@.wf()
    }

    /// A running simulation on `grid` with the cursor `brush` at its first
    /// size, set to add sand, that draws its slips from `seed`.
    pub fn new(grid: Grid, brush: Brush, seed: StdRng) -> (app: App)
        requires
            grid.wf(),
            brush.wf(),
        ensures
            app.wf(),
            app@ == (Scene {
                board: grid@,
                active: true,
                size_cursor: SIZE_CURSOR as nat,
                creation_mode: CreationMode::Add,
                kind_cell: Kind::Sand,
                brush: brush@,
            }),
    {
        App {
            grid,
            active: true,
            size_cursor: SIZE_CURSOR,
            creation_mode: CreationMode::Add,
            kind_cell: Kind::Sand,
            brush,
            seed,
        }
    }

    /// The cells under the cursor around the cell at `idx`.
    pub fn cicle_cursor(&self, idx: usize) -> (market_cells: Vec<usize>)
        requires
            self.wf(),
        ensures
            indices(market_cells@) == self@.cursor(idx as int),
            forall|n: int|
                0 <= n < market_cells@.len() ==> (#[trigger] market_cells@[n])
                    < self@.board.cells.len(),
    {
        self.grid.cicle_cursor(idx, &self.brush, self.size_cursor)
    }

    /// Does `effect` to each cell under the cursor around the cell at `idx`.
    /// Tells whether any cell is other than before.
    fn stroke(&mut self, idx: usize, effect: Effect) -> (changed: bool)
        requires
            old(self).wf(),
        ensures
            final(self).wf(),
            final(self)@ == old(self)@.stroke(idx as int, effect),
            changed <==> final(self)@.board != old(self)@.board,
    {
        let before: Vec<Cellule> = self.grid.snapshot();
        let market_cells: Vec<usize> = self.cicle_cursor(idx);
        self.grid.stamp(&market_cells, effect);
        self.grid.differs_from(&before)
    }

    /// Carries out the command `msg`. Tells whether any cell of the grid is
    /// other than before.
    pub fn update(&mut self, msg: Msg) -> (changed: bool)
        requires
            old(self).wf(),
        ensures
            final(self).wf(),
            changed <==> final(self)@.board != old(self)@.board,
            exists|draws: Seq<Seq<int>>|
                old(self)@.board.slip_draws(draws, SLIPPAGE as int) && final(self)@
                    == #[trigger] old(self)@.after(msg, draws),
            !(msg is Tick) ==> final(self)@ == old(self)@.after(msg, Seq::empty()),
    {
        let ghost still: Seq<Seq<int>> = Seq::new(
            self@.board.height,
            |i: int| Seq::new(self@.board.width, |j: int| 0int),
        );
        assert(self@.board.slip_draws(still, SLIPPAGE as int));
        let changed: bool = match msg {
            Msg::AddCellule(idx) => self.stroke(idx, Effect::Add(self.kind_cell)),
            Msg::RemoveCellule(idx) => self.stroke(idx, Effect::Remove),
            Msg::ToggleCellule(idx) => self.stroke(idx, Effect::Toggle(self.kind_cell)),
            Msg::Tick => {
                if self.active {
                    let changed = self.grid.step(&mut self.seed);
                    proof {
                        let draws = choose|draws: Seq<Seq<int>>|
                            old(self)@.board.slip_draws(draws, SLIPPAGE as int) && self.grid@
                                == #[trigger] old(self)@.board.ticked(draws);
                        assert(self@ == old(self)@.after(msg, draws));
                    }
                    changed
                } else {
                    false
                }
            },
            Msg::MouseOver(idx) => self.stroke(idx, Effect::MouseOver),
            Msg::MouseOut(idx) => self.stroke(idx, Effect::MouseOut),
            Msg::Pause => {
                self.active = false;
                false
            },
            Msg::Play => {
                self.active = true;
                false
            },
            Msg::Reset => {
                let before: Vec<Cellule> = self.grid.snapshot();
                self.grid.clear();
                self.active = true;
                self.grid.differs_from(&before)
            },
            Msg::ChangeSizeCursor(size) => {
                self.size_cursor = size;
                false
            },
            Msg::ChangeCreationMode(mode) => {
                self.creation_mode = mode;
                false
            },
            Msg::ChangeKindCell(kind) => {
                self.kind_cell = kind;
                false
            },
        };
        proof {
            if !(msg is Tick) || !old(self)@.active {
                assert(self@ == old(self)@.after(msg, still));
                assert(self@ == old(self)@.after(msg, Seq::empty()));
            }
        }
        changed
    }

    /// The grid.
    pub fn grid(&self) -> (grid: &Grid)
        ensures
            grid@ == self@.board,
            self.wf() ==> grid.wf(),
    {
        &self.grid
    }

    /// The cells in row-major order.
    pub fn cellules(&self) -> (cells: &Vec<Cellule>)
        ensures
            cells@ == self@.board.cells,
    {
        self.grid.cellules()
    }

    /// The number of columns of the grid.
    pub fn cellules_width(&self) -> (width: usize)
        ensures
            width == self@.board.width,
    {
        self.grid.width()
    }

    /// The number of rows of the grid.
    pub fn cellules_height(&self) -> (height: usize)
        ensures
            height == self@.board.height,
    {
        self.grid.height()
    }

    /// Whether the simulation runs.
    pub fn active(&self) -> (active: bool)
        ensures
            active == self@.active,
    {
        self.active
    }

    /// The number of rings of the cursor.
    pub fn size_cursor(&self) -> (size: usize)
        ensures
            size == self@.size_cursor,
    {
        self.size_cursor
    }

    /// What a press of the pointer does.
    pub fn creation_mode(&self) -> (mode: CreationMode)
        ensures
            mode == self@.creation_mode,
    {
        self.creation_mode
    }

    /// The material that the cursor paints.
    pub fn kind_cell(&self) -> (kind: Kind)
        ensures
            kind == self@.kind_cell,
    {
        self.kind_cell
    }
}

} // verus!
