//! What can be wrong with a configuration.

use vstd::prelude::*;

verus! {

/// Why a configuration value was turned down when it was built.
#[derive(Clone, Copy, Debug, PartialEq, Eq, Structural)]
pub enum ConfigError {
    /// The chance that fire spreads is more than a million millionths.
    FireSpreadProbability,
    /// The chance that a tree grows is more than a million millionths.
    TreeSpawnProbability,
    /// The chance that burnt ground is reclaimed is more than a million
    /// millionths.
    EmptyReclaimProbability,
    /// The decay multiplier of fire is zero.
    DecayMultiplier,
    /// The threshold down to which burnt ground ages is zero.
    FastForwardThreshold,
    /// An offset of a neighbourhood leaves the ring around its cell.
    Offset,
    /// The grid has fewer than three cells on a side, so no inner cell.
    GridTooSmall,
    /// The grid has more cells on a side than the library handles.
    GridTooLarge,
    /// The clock was asked for zero ticks per second.
    TickRate,
    /// A cell was given a width of zero pixels.
    CellWidth,
}

} // verus!
