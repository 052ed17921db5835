//! A forest fire on a square grid.
//!
//! Every cell of the grid is empty ground, a tree, water, on fire or burnt;
//! the outer ring is a fixed edge. Once per tick each inner cell moves on by
//! chance: fire spreads to neighbouring trees, burns down and leaves burnt
//! ground, which is reclaimed by empty ground, on which trees grow again.
//!
//! Chances are whole millionths and every random number comes from a
//! [`RandomSource`](random::RandomSource) that the caller hands in, so a run
//! is a function of the grid it starts from and of the numbers drawn.
//!
//! * [`cell`], [`params`], [`neighborhood`]: the data a run is made of.
//! * [`random`]: where the draws come from.
//! * [`rules`]: how one cell moves on; [`sweep`]: how the whole grid does.
//! * [`seed`]: how a forest is planted.
//! * [`grid`]: the grid itself, with the code that plants and sweeps it.
//! * [`clock`], [`editor`], [`sim`]: ticks at a fixed rate, edits from
//!   outside, and the frame that puts them together.

pub mod cell;
pub mod clock;
pub mod editor;
pub mod error;
pub mod grid;
pub mod neighborhood;
pub mod params;
pub mod random;
pub mod rules;
pub mod seed;
pub mod sim;
pub mod sweep;
