use vstd::prelude::*;

verus! {

/// The recoverable failures of the simulation core.
#[derive(Clone, Copy, Debug, PartialEq, Eq, Structural)]
pub enum GameError {
    /// A movement or a generation target falls outside the grid.
    OutOfBounds,
    /// The destination tile cannot be walked on.
    InvalidMove,
    /// An operation needs an active level and none is loaded.
    NoLevelLoaded,
    /// A stair transition was attempted away from the matching stairs.
    NotOnStairs,
    /// A stair transition was attempted at the top or bottom of the dungeon.
    BoundaryLevel,
    /// A corridor was asked for between equal or misaligned points.
    DegenerateCorridor,
    /// A room would not fit inside the grid.
    RoomOutOfBounds,
    /// Level generation ran out of placement attempts or space.
    GenerationFailed,
}

} // verus!
