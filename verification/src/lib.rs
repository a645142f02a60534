//! A falling-sand cellular automaton: a fixed grid of cells that fall, pile up
//! and slip sideways, painted through a circular cursor.
//!
//! The cells are in `cell`, the grid and its mathematical view in `grid`, the
//! tick in `physics`, the cursor and its strokes in `cursor`, the commands in
//! `controller` and what the controls show and hand in in `controls`. What
//! holds of every tick is proved in `invariants`, `fall`, `grain` and `rest`, what
//! holds of every stroke in `strokes`.

pub mod cell;
pub mod controller;
pub mod controls;
pub mod cursor;
pub mod fall;
pub mod grain;
pub mod grid;
pub mod invariants;
pub mod physics;
pub mod rest;
pub mod strokes;
