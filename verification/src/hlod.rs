//! Macro terrain tile coordinates.
use vstd::prelude::*;

verus! {

/// Discrete coordinate of a 512m macro terrain tile.
#[derive(Debug, Clone, Copy, PartialEq, Eq, Hash, Default, Structural)]
pub struct MacroTileCoord {
    /// Tile coordinate along X axis.
    pub tile_x: i32,
    /// Tile coordinate along Z axis.
    pub tile_z: i32,
}

} // verus!
