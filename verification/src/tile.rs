//! The tile model: the two canonical cell states of the grid.

use vstd::prelude::*;

verus! {

/// A single map cell. A wall blocks movement and sight; an open floor
/// cell blocks neither. `explored` belongs to the rendering consumer of
/// the finished grid and is always created false: generation never sets it.
#[derive(Clone, Copy, Debug, PartialEq, Eq, Structural)]
pub struct Tile {
    pub blocked: bool,
    pub block_sight: bool,
    pub explored: bool,
}

/// The generator only ever produces the two canonical tile states:
/// a full wall or a fully open floor cell, never explored.
pub open spec fn tile_canonical(t: Tile) -> bool {
    t.blocked == t.block_sight && !t.explored
}

impl Tile {
    /// An open floor cell.
    pub fn empty() -> (t: Tile)
        ensures
            t.blocked == false,
            t.block_sight == false,
            t.explored == false,
    {
        Tile { blocked: false, block_sight: false, explored: false }
    }

    /// A solid wall cell.
    pub fn wall() -> (t: Tile)
        ensures
            t.blocked == true,
            t.block_sight == true,
            t.explored == false,
    {
        Tile { blocked: true, block_sight: true, explored: false }
    }
}

} // verus!
