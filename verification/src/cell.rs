//! One grid location: its material, its life state and the weight resting on it.

use vstd::prelude::*;

verus! {

/// The life state of a cell. The two hover states remember whether the cell
/// was alive when the pointer entered it, so that leaving restores it.
#[derive(Clone, Copy, PartialEq, Eq, Debug, Structural)]
pub enum State {
    Dead,
    Alive,
    HoverAlive,
    HoverDead,
}

/// The material of a cell.
#[derive(Clone, Copy, PartialEq, Eq, Debug, Structural)]
pub enum Kind {
    Sand,
    Rock,
}

/// A cell of the grid.
#[derive(Clone, Copy, Debug, PartialEq, Eq, Structural)]
pub struct Cellule {
    pub kind: Option<Kind>,
    pub state: State,
    pub pressure: u8,
}

impl Cellule {
    /// Whether the cell counts as alive for the physics: alive, or hovered
    /// while alive.
    pub open spec fn alive(&self) -> bool {
        self.state == State::Alive || self.state == State::HoverAlive
    }

    /// Whether the cell is consistent: an alive cell has a material, a dead
    /// one has none and bears no pressure.
    pub open spec fn consistent(&self) -> bool {
        if self.alive() {
            self.kind is Some
        } else {
            self.kind is None && self.pressure == 0
        }
    }

    /// Whether the cell is an alive cell of material `kind`.
    pub open spec fn holds(&self, kind: Kind) -> bool {
        self.alive() && self.kind == Some(kind)
    }

    /// The cell with no material, no pressure and no hover.
    pub open spec fn empty() -> Cellule {
        Cellule { kind: None, state: State::Dead, pressure: 0 }
    }

    /// The cell after it was painted with `kind`.
    pub open spec fn painted(&self, kind: Kind) -> Cellule {
        Cellule { kind: Some(kind), state: State::Alive, pressure: self.pressure }
    }

    /// The cell after one toggle: an alive cell is emptied, a dead one is
    /// painted with `kind`.
    pub open spec fn toggled(&self, kind: Kind) -> Cellule {
        if self.alive() {
            Cellule::empty()
        } else {
            self.painted(kind)
        }
    }

    /// The cell after the pointer entered it.
    pub open spec fn hovered(&self) -> Cellule {
        Cellule {
            kind: self.kind,
            state: if self.alive() {
                State::HoverAlive
            } else {
                State::HoverDead
            },
            pressure: self.pressure,
        }
    }

    /// The cell after the pointer left it.
    pub open spec fn unhovered(&self) -> Cellule {
        Cellule {
            kind: self.kind,
            state: if self.alive() {
                State::Alive
            } else {
                State::Dead
            },
            pressure: self.pressure,
        }
    }

    /// A dead cell with nothing in it.
    pub fn new() -> (cell: Cellule)
        ensures
            cell == Cellule::empty(),
    {
        Cellule { kind: None, state: State::Dead, pressure: 0 }
    }

    /// Sets the material; the life state and the pressure stay.
    pub fn set_kind(&mut self, kind: Kind) -> (ret: &mut Self)
        ensures
            *ret == (Cellule { kind: Some(kind), ..*old(self) }),
            *final(self) == *final(ret),
    {
        self.kind = Some(kind);
        self
    }

    /// Sets the pressure; the material and the life state stay.
    pub fn set_pressure(&mut self, pressure: u8) -> (ret: &mut Self)
        ensures
            *ret == (Cellule { pressure: pressure, ..*old(self) }),
            *final(self) == *final(ret),
    {
        self.pressure = pressure;
        self
    }

    /// Whether the cell counts as alive for the physics.
    pub fn is_alive(&mut self) -> (alive: bool)
        ensures
            alive == old(self).alive(),
            *final(self) == *old(self),
    {
        self.state == State::Alive || self.state == State::HoverAlive
    }

    /// Whether the cell counts as dead for the physics.
    pub fn is_dead(&mut self) -> (dead: bool)
        ensures
            dead == !old(self).alive(),
            *final(self) == *old(self),
    {
        !self.is_alive()
    }

    /// Makes the cell alive, whatever it was; the material and the pressure
    /// stay.
    pub fn set_alive(&mut self)
        ensures
            *final(self) == (Cellule { state: State::Alive, ..*old(self) }),
    {
        self.state = State::Alive;
    }

    /// Makes the cell dead and clears its material and its pressure.
    pub fn set_dead(&mut self)
        ensures
            *final(self) == Cellule::empty(),
    {
        self.state = State::Dead;
        self.kind = None;
        self.pressure = 0;
    }

    /// The pointer enters: the cell turns to the hover state that records
    /// whether it is alive.
    pub fn set_mouse_over(&mut self)
        ensures
            *final(self) == old(self).hovered(),
    {
        let alive = self.is_alive();
        self.state = if alive {
            State::HoverAlive
        } else {
            State::HoverDead
        };
    }

    /// The pointer leaves: the cell goes back to the plain state it was
    /// hovered in.
    pub fn set_mouse_out(&mut self)
        ensures
            *final(self) == old(self).unhovered(),
    {
        self.state = match self.state {
            State::HoverAlive | State::Alive => State::Alive,
            _ => State::Dead,
        };
    }
}

/// Leaving restores what entering found: after the pointer entered a cell and
/// left it again, the cell is alive or dead as before, with its material and
/// its pressure, and a cell that was not under the pointer is as it was.
pub proof fn lemma_hover_restores(cell: Cellule)
    ensures
        cell.hovered().alive() == cell.alive(),
        cell.hovered().unhovered().alive() == cell.alive(),
        cell.hovered().unhovered().kind == cell.kind,
        cell.hovered().unhovered().pressure == cell.pressure,
        cell.state == State::Alive || cell.state == State::Dead ==> cell.hovered().unhovered()
            == cell,
        cell.consistent() ==> cell.hovered().consistent() && cell.unhovered().consistent(),
{
}

} // verus!
