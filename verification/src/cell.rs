//! The value types of the simulation: grid coordinates and per-cell state.

use vstd::prelude::*;

verus! {

/// An immutable 2D integer coordinate, used as the grid's addressing key.
///
/// A position carries no bounds of its own: whether it is in-domain is
/// decided by the grid it is used with.
#[derive(PartialEq, Eq, Structural, Clone, Copy, Hash, Debug)]
pub struct Position {
    pub x: i32,
    pub y: i32,
}

impl Position {
    pub fn new(x: i32, y: i32) -> (p: Position)
        ensures
            p.x == x,
            p.y == y,
    {
        Position { x, y }
    }
}

/// The physical quantities carried by one grid location, as integer-valued
/// samples: velocity components in m/s, pressure in Pa, temperature in K.
///
/// A cell is a plain value: it has no identity and is copied freely.
#[derive(PartialEq, Eq, Clone, Copy, Debug)]
pub struct Cell {
    pub velocity: (i64, i64),
    pub pressure: i64,
    pub temperature: i64,
}

impl Cell {
    /// The zero state: velocity (0, 0), pressure 0, temperature 0.
    pub open spec fn zero() -> Cell {
        Cell { velocity: (0, 0), pressure: 0, temperature: 0 }
    }

    /// The default cell is the zero state.
    pub fn new() -> (c: Cell)
        ensures
            c == Cell::zero(),
    {
        Cell { velocity: (0, 0), pressure: 0, temperature: 0 }
    }
}

} // verus!
