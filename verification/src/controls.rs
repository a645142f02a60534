//! The controls: how a cell is shown, which command a press of the pointer
//! sends, and what the values of the inputs stand for.

use crate::cell::{Kind, State};
use crate::controller::{CreationMode, Msg, SIZE_CURSOR};
use vstd::prelude::*;

verus! {

/// The smallest cursor that the controls set.
pub const MIN_SIZE_CURSOR: usize = 1;

/// The largest cursor that the controls set.
pub const MAX_SIZE_CURSOR: usize = 20;

/// The style class of a life state. A dead cell and an alive one have a class
/// each, and so has each under the pointer.
pub fn cellule_class(state: State) -> (class: &'static str)
    ensures
        class@ == match state {
            State::Alive => "cellule-alive"@,
            State::HoverAlive => "cellule-mouse-over-alive"@,
            State::HoverDead => "cellule-mouse-over-dead"@,
            State::Dead => "cellule-dead"@,
        },
{
    match state {
        State::Alive => "cellule-alive",
        State::HoverAlive => "cellule-mouse-over-alive",
        State::HoverDead => "cellule-mouse-over-dead",
        State::Dead => "cellule-dead",
    }
}

/// The style class of a material; a cell without material is air.
pub fn kind_class(kind: Option<Kind>) -> (class: &'static str)
    ensures
        class@ == match kind {
            Some(Kind::Sand) => "sand"@,
            Some(Kind::Rock) => "rock"@,
            None => "air"@,
        },
{
    match kind {
        Some(Kind::Sand) => "sand",
        Some(Kind::Rock) => "rock",
        _ => "air",
    }
}

/// The material that the name `name` of the material control stands for:
/// rock for `rock`, sand for `sand` and for any other name.
pub fn kind_named(name: &str) -> (kind: Kind)
    ensures
        kind == if name@ == "rock"@ {
            Kind::Rock
        } else {
            Kind::Sand
        },
{
    proof {
        reveal_strlit("rock");
    }
    if name.unicode_len() == 4 && name.get_char(0) == 'r' && name.get_char(1) == 'o'
        && name.get_char(2) == 'c' && name.get_char(3) == 'k' {
        assert(name@ =~= "rock"@);
        Kind::Rock
    } else {
        Kind::Sand
    }
}

/// The size of the cursor that the value `number` of the size control stands
/// for: the number, brought up to the smallest size or down to the largest
/// where it lies outside them; the first size where the value is no number.
pub fn size_cursor_from(number: Option<usize>) -> (size: usize)
    ensures
        size == match number {
            Some(n) => if n < MIN_SIZE_CURSOR {
                MIN_SIZE_CURSOR
            } else if n > MAX_SIZE_CURSOR {
                MAX_SIZE_CURSOR
            } else {
                n
            },
            None => SIZE_CURSOR,
        },
{
    match number {
        Some(n) => if n < MIN_SIZE_CURSOR {
            MIN_SIZE_CURSOR
        } else if n > MAX_SIZE_CURSOR {
            MAX_SIZE_CURSOR
        } else {
            n
        },
        None => SIZE_CURSOR,
    }
}

impl CreationMode {
    /// The command that a press of the pointer on the cell at `idx` sends in
    /// this mode.
    pub fn action(self, idx: usize) -> (msg: Msg)
        ensures
            msg == match self {
                CreationMode::Add => Msg::AddCellule(idx),
                CreationMode::Remove => Msg::RemoveCellule(idx),
                CreationMode::Toggle => Msg::ToggleCellule(idx),
            },
    {
        match self {
            CreationMode::Add => Msg::AddCellule(idx),
            CreationMode::Remove => Msg::RemoveCellule(idx),
            CreationMode::Toggle => Msg::ToggleCellule(idx),
        }
    }
}

} // verus!
