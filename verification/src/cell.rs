//! The cells of the forest and the colours they are shown in.

use vstd::prelude::*;

verus! {

/// Age of a cell that has just caught fire.
pub const MAX_FIRE_AGE: u32 = 300;

/// Age of a cell whose fire has just gone out.
pub const MAX_BURNT_AGE: u32 = 650;

/// Age that burnt ground starts over with when it was not reclaimed.
pub const RETRY_BURNT_AGE: u32 = 20;

/// What one square of the grid holds.
///
/// `Fire` and `Burnt` carry an age that is counted down tick by tick.
#[derive(Clone, Copy, Debug, PartialEq, Eq, Structural)]
pub enum Cell {
    /// The fixed ring around the forest.
    Edge,
    /// Bare ground, on which a tree may grow.
    Empty,
    /// A tree, which a burning neighbour may set on fire.
    Tree,
    /// Water: it never burns and never changes.
    Water,
    /// A burning cell and the age it has left.
    Fire(u32),
    /// Burnt ground and the age it has left.
    Burnt(u32),
}

/// The colour a cell is drawn in.
#[derive(Clone, Copy, Debug, PartialEq, Eq, Structural)]
pub enum Color {
    White,
    Brown,
    Green,
    Blue,
    Yellow,
    Orange,
    Red,
    Grey,
}

impl Cell {
    /// The colour of a cell. A fire is yellow while its age lies in the top
    /// third of [`MAX_FIRE_AGE`], orange while it lies in the upper half, and
    /// red after that.
    pub open spec fn color_spec(self) -> Color {
        match self {
            Cell::Edge => Color::White,
            Cell::Empty => Color::Brown,
            Cell::Tree => Color::Green,
            Cell::Water => Color::Blue,
            Cell::Fire(age) => if age > MAX_FIRE_AGE * 2 / 3 {
                Color::Yellow
            } else if age > MAX_FIRE_AGE / 2 {
                Color::Orange
            } else {
                Color::Red
            },
            Cell::Burnt(_) => Color::Grey,
        }
    }

    /// The colour this cell is drawn in.
    pub fn color(&self) -> (c: Color)
        ensures
            c == self.color_spec(),
    {
        match *self {
            Cell::Edge => Color::White,
            Cell::Empty => Color::Brown,
            Cell::Tree => Color::Green,
            Cell::Water => Color::Blue,
            Cell::Fire(age) => if age > MAX_FIRE_AGE * 2 / 3 {
                Color::Yellow
            } else if age > MAX_FIRE_AGE / 2 {
                Color::Orange
            } else {
                Color::Red
            },
            Cell::Burnt(_) => Color::Grey,
        }
    }

    /// Whether this cell is on fire, whatever its age.
    pub fn is_burning(&self) -> (b: bool)
        ensures
            b == (*self is Fire),
    {
        match *self {
            Cell::Fire(_) => true,
            _ => false,
        }
    }
}

} // verus!
