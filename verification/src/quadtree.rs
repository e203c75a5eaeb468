//! Hotspot cell quadrant identifiers.
use vstd::prelude::*;

verus! {

/// Depth-1 quadrants of a split 64m cell.
#[derive(Debug, Clone, Copy, PartialEq, Eq, Structural)]
pub enum Depth1Quadrant {
    /// North-West quadrant (local x in 0..32, local z in 32..64).
    NW,
    /// North-East quadrant (local x in 32..64, local z in 32..64).
    NE,
    /// South-West quadrant (local x in 0..32, local z in 0..32).
    SW,
    /// South-East quadrant (local x in 32..64, local z in 0..32).
    SE,
}

} // verus!
