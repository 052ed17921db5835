//! Edits that come from outside: what a pointer or a key asks for.

use vstd::prelude::*;
use crate::cell::{Cell, MAX_FIRE_AGE};
use crate::error::ConfigError;
use crate::grid::{inner, put, Grid};

verus! {

/// What the user asks for.
#[derive(Clone, Copy, Debug, PartialEq, Eq, Structural)]
pub enum InputEvent {
    /// Pause if running, go on if paused.
    TogglePause,
    /// Plant the forest anew.
    Reset,
    /// Switch to the fast profile.
    AccelerateOn,
    /// Switch back to the everyday profile.
    AccelerateOff,
    /// Set the cell under the pointer on fire. `px` and `py` are the place
    /// of the pointer in pixels, from the left and from the top.
    Ignite { px: u32, py: u32 },
    /// Flood the cell under the pointer.
    PlaceObstacle { px: u32, py: u32 },
}

/// The cells with the one at `(x, y)` on fire at full age, if that place is
/// inside the ring, and unchanged if not.
pub open spec fn ignited(cells: Seq<Seq<Cell>>, x: int, y: int) -> Seq<Seq<Cell>> {
    if inner(cells.len() as int, x, y) {
        put(cells, x, y, Cell::Fire(MAX_FIRE_AGE))
    } else {
        cells
    }
}

/// The cells with the one at `(x, y)` turned to water, if that place is
/// inside the ring, and unchanged if not.
pub open spec fn flooded(cells: Seq<Seq<Cell>>, x: int, y: int) -> Seq<Seq<Cell>> {
    if inner(cells.len() as int, x, y) {
        put(cells, x, y, Cell::Water)
    } else {
        cells
    }
}

/// Turns places on the screen into places on the grid and edits the grid
/// there. Every cell is a square of `cell_width` pixels.
#[derive(Clone, Copy, Debug)]
pub struct InteractiveEditor {
    cell_width: u32,
}

impl InteractiveEditor {
    /// A cell is at least one pixel wide.
    #[verifier::type_invariant]
    pub open spec fn well_formed(&self) -> bool {
        self.cell_width_spec() >= 1
    }

    /// How many pixels wide a cell is.
    pub closed spec fn cell_width_spec(&self) -> u32 {
        self.cell_width
    }

    /// An editor for cells of the given width in pixels. A width of zero is
    /// turned down.
    pub fn new(cell_width: u32) -> (made: Result<InteractiveEditor, ConfigError>)
        ensures
            match made {
                Ok(editor) => cell_width > 0 && editor.cell_width_spec() == cell_width,
                Err(e) => cell_width == 0 && e == ConfigError::CellWidth,
            },
    {
        if cell_width == 0 {
            Err(ConfigError::CellWidth)
        } else {
            Ok(InteractiveEditor { cell_width })
        }
    }

    /// How many pixels wide a cell is.
    #[verifier::when_used_as_spec(cell_width_spec)]
    pub fn cell_width(&self) -> (width: u32)
        ensures
            width == self.cell_width_spec(),
            width >= 1,
    {
        proof {
            use_type_invariant(self);
        }
        self.cell_width
    }

    /// The column, or row, of the cell that holds the pixel `pixel`: the
    /// pixel divided by the width of a cell, rounded down.
    pub fn cell_of(&self, pixel: u32) -> (index: usize)
        ensures
            index == pixel / self.cell_width(),
    {
        proof {
            use_type_invariant(self);
        }
        (pixel / self.cell_width) as usize
    }

    /// Sets the cell under the pointer on fire at full age, whatever it
    /// held. A pointer over the ring or off the grid changes nothing.
    pub fn ignite_at(&self, grid: &mut Grid, px: u32, py: u32)
        ensures
            final(grid)@ == ignited(
                old(grid)@,
                (px / self.cell_width()) as int,
                (py / self.cell_width()) as int,
            ),
    {
        grid.ignite(self.cell_of(px), self.cell_of(py));
    }

    /// Floods the cell under the pointer, whatever it held. A pointer over
    /// the ring or off the grid changes nothing.
    pub fn place_obstacle_at(&self, grid: &mut Grid, px: u32, py: u32)
        ensures
            final(grid)@ == flooded(
                old(grid)@,
                (px / self.cell_width()) as int,
                (py / self.cell_width()) as int,
            ),
    {
        grid.place_obstacle(self.cell_of(px), self.cell_of(py));
    }
}

} // verus!
