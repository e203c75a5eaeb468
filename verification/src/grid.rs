//! Spatial cell coordinates and their packed hash keys.
use vstd::prelude::*;

verus! {

/// Horizontal spatial cell size in meters.
pub const CELL_HORIZONTAL_SIZE: i32 = 64;

/// Vertical spatial cell slice size in meters.
pub const CELL_VERTICAL_SIZE: i32 = 32;

/// Errors arising from spatial grid operations.
#[derive(Debug, Clone, Copy, PartialEq, Eq, Structural)]
pub enum SpatialError {
    /// Entity was not found in the grid.
    EntityNotFound(u32),
    /// Entity ID already exists in the grid.
    EntityAlreadyExists(u32),
    /// Grid capacity has been exhausted.
    CapacityExceeded,
    /// Specified entity ID exceeds configured capacity.
    InvalidEntityId(u32),
}

/// Discrete 3D integer coordinate identifying a spatial cell bucket.
#[derive(Debug, Clone, Copy, PartialEq, Eq, Hash, Default, Structural)]
pub struct CellCoord {
    /// Cell index on horizontal X axis.
    pub x: i32,
    /// Cell index on vertical Y axis.
    pub y: i32,
    /// Cell index on horizontal Z axis.
    pub z: i32,
}

/// Packed key: low 24 bits of X in bits 40..64, low 24 bits of Z in bits 16..40, low 16 bits of Y in bits 0..16.
pub open spec fn spec_spatial_key(x: i32, y: i32, z: i32) -> u64 {
    ((((x as u64) & 0x00FF_FFFFu64) << 40u64) | (((z as u64) & 0x00FF_FFFFu64) << 16u64)) | ((
    y as u64) & 0x0000_FFFFu64)
}

impl CellCoord {
    /// Creates a new cell coordinate from discrete integer indices.
    pub fn new(x: i32, y: i32, z: i32) -> (c: Self)
        ensures
            c == (CellCoord { x, y, z }),
    {
        CellCoord { x, y, z }
    }

    /// Computes the packed 64-bit spatial key of this cell.
    pub fn spatial_key(self) -> (k: u64)
        ensures
            k == spec_spatial_key(self.x, self.y, self.z),
    {
        let x_bits = (self.x as u64) & 0x00FF_FFFF;
        let z_bits = (self.z as u64) & 0x00FF_FFFF;
        let y_bits = (self.y as u64) & 0x0000_FFFF;
        (x_bits << 40) | (z_bits << 16) | y_bits
    }
}

proof fn lemma_pack_fields(xa: u64, ya: u64, za: u64, xb: u64, yb: u64, zb: u64)
    by (bit_vector)
    ensures
        ((((xa & 0xFF_FFFFu64) << 40u64) | ((za & 0xFF_FFFFu64) << 16u64)) | (ya & 0xFFFFu64) == (((xb
            & 0xFF_FFFFu64) << 40u64) | ((zb & 0xFF_FFFFu64) << 16u64)) | (yb & 0xFFFFu64)) <==> ((xa
            & 0xFF_FFFFu64) == (xb & 0xFF_FFFFu64) && (za & 0xFF_FFFFu64) == (zb & 0xFF_FFFFu64) && (ya
            & 0xFFFFu64) == (yb & 0xFFFFu64)),
{
}

/// The packed key keeps the low 24 bits of X and Z and the low 16 bits of Y: two cells get the
/// same key exactly when their coordinates agree on those bits.
pub proof fn lemma_spatial_key_fields(a: CellCoord, b: CellCoord)
    ensures
        (spec_spatial_key(a.x, a.y, a.z) == spec_spatial_key(b.x, b.y, b.z)) <==> (((a.x as u64)
            & 0xFF_FFFFu64) == ((b.x as u64) & 0xFF_FFFFu64) && ((a.z as u64) & 0xFF_FFFFu64) == ((
        b.z as u64) & 0xFF_FFFFu64) && ((a.y as u64) & 0xFFFFu64) == ((b.y as u64) & 0xFFFFu64)),
{
    lemma_pack_fields(a.x as u64, a.y as u64, a.z as u64, b.x as u64, b.y as u64, b.z as u64);
}

} // verus!
