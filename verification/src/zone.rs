//! Open-world zone bounds and the 16-metre overlapping seams across which entities hand over
//! to a neighbouring zone.
//!
//! Coordinates are 32.32 fixed-point values, held as their raw `i64` representation.
use vstd::prelude::*;

verus! {

/// Axis along which two neighbouring zones share a seam.
#[derive(Debug, Clone, Copy, PartialEq, Eq, Structural)]
pub enum SeamAxis {
    /// Seam runs along the Z axis: entities cross it along X.
    EastWest,
    /// Seam runs along the X axis: entities cross it along Z.
    NorthSouth,
}

/// A world position, each component a raw 32.32 fixed-point value.
#[derive(Debug, Clone, Copy, PartialEq, Eq, Default, Structural)]
pub struct FixedVec3 {
    /// East-west coordinate.
    pub x: i64,
    /// Elevation.
    pub y: i64,
    /// North-south coordinate.
    pub z: i64,
}

/// Rectangular extent of a zone and its boundary seam (all raw 32.32 fixed-point values).
#[derive(Debug, Clone, Copy, PartialEq, Eq, Structural)]
pub struct ZoneBounds {
    /// Minimum X.
    pub min_x: i64,
    /// Maximum X.
    pub max_x: i64,
    /// Minimum Z.
    pub min_z: i64,
    /// Maximum Z.
    pub max_z: i64,
    /// Orientation of the seam.
    pub seam_axis: SeamAxis,
    /// Lower coordinate of the seam along its crossing axis.
    pub seam_min: i64,
    /// Upper coordinate of the seam along its crossing axis.
    pub seam_max: i64,
}

impl ZoneBounds {
    /// The coordinate of `pos` along the axis that crosses the seam.
    pub open spec fn crossing_coord(self, pos: FixedVec3) -> i64 {
        match self.seam_axis {
            SeamAxis::EastWest => pos.x,
            SeamAxis::NorthSouth => pos.z,
        }
    }

    /// Midpoint of the seam, rounded towards negative infinity.
    pub open spec fn spec_seam_midpoint(self) -> int {
        (self.seam_min + self.seam_max) / 2
    }

    /// Bounds from their parts.
    pub fn new(
        min_x: i64,
        max_x: i64,
        min_z: i64,
        max_z: i64,
        seam_axis: SeamAxis,
        seam_min: i64,
        seam_max: i64,
    ) -> (b: Self)
        ensures
            b == (ZoneBounds { min_x, max_x, min_z, max_z, seam_axis, seam_min, seam_max }),
    {
        ZoneBounds { min_x, max_x, min_z, max_z, seam_axis, seam_min, seam_max }
    }

    /// Whether `pos` lies within the zone horizontally (edges included).
    pub fn contains(&self, pos: FixedVec3) -> (b: bool)
        ensures
            b == (self.min_x <= pos.x <= self.max_x && self.min_z <= pos.z <= self.max_z),
    {
        pos.x >= self.min_x && pos.x <= self.max_x && pos.z >= self.min_z && pos.z <= self.max_z
    }

    /// Whether `pos` lies within the seam (edges included).
    pub fn in_seam(&self, pos: FixedVec3) -> (b: bool)
        ensures
            b == (self.seam_min <= self.crossing_coord(pos) <= self.seam_max),
    {
        match self.seam_axis {
            SeamAxis::EastWest => pos.x >= self.seam_min && pos.x <= self.seam_max,
            SeamAxis::NorthSouth => pos.z >= self.seam_min && pos.z <= self.seam_max,
        }
    }

    /// Midpoint of the seam.
    pub fn seam_midpoint(&self) -> (m: i64)
        requires
            i64::MIN <= self.seam_min + self.seam_max <= i64::MAX,
        ensures
            m == self.spec_seam_midpoint(),
    {
        let sum = self.seam_min + self.seam_max;
        let m = sum >> 1u32;
        assert(m == sum / 2) by (bit_vector)
            requires
                m == sum >> 1u32,
        ;
        m
    }

    /// Whether `pos` has reached the seam's midpoint travelling towards positive (or, when
    /// `towards_positive` is false, negative) coordinates.
    pub fn is_past_midpoint(&self, pos: FixedVec3, towards_positive: bool) -> (b: bool)
        requires
            i64::MIN <= self.seam_min + self.seam_max <= i64::MAX,
        ensures
            b == (if towards_positive {
                self.crossing_coord(pos) >= self.spec_seam_midpoint()
            } else {
                self.crossing_coord(pos) <= self.spec_seam_midpoint()
            }),
    {
        let mid = self.seam_midpoint();
        let coord = match self.seam_axis {
            SeamAxis::EastWest => pos.x,
            SeamAxis::NorthSouth => pos.z,
        };
        if towards_positive {
            coord >= mid
        } else {
            coord <= mid
        }
    }
}

/// The seam's midpoint lies within the seam, so every position in the seam has passed the
/// midpoint in at least one direction, and only the midpoint itself in both.
pub proof fn lemma_seam_midpoint_splits_seam(b: ZoneBounds, pos: FixedVec3)
    requires
        b.seam_min <= b.seam_max,
    ensures
        b.seam_min <= b.spec_seam_midpoint() <= b.seam_max,
        b.crossing_coord(pos) >= b.spec_seam_midpoint() || b.crossing_coord(pos)
            <= b.spec_seam_midpoint(),
        b.crossing_coord(pos) >= b.spec_seam_midpoint() && b.crossing_coord(pos)
            <= b.spec_seam_midpoint() ==> b.crossing_coord(pos) == b.spec_seam_midpoint(),
{
}

} // verus!
