//! Axis-aligned bounding boxes and their overlap test.

use vstd::prelude::*;

verus! {

/// An axis-aligned bounding box given by its center and half-extents.
#[derive(Clone, Copy, Debug, PartialEq, Eq, Structural)]
pub struct Aabb {
    pub cx: i64,
    pub cy: i64,
    pub hw: i64,
    pub hh: i64,
}

/// Two boxes overlap iff their intervals overlap on both axes:
/// the distance of the centers is at most the sum of the half-extents,
/// axis by axis.
pub open spec fn overlaps(a: Aabb, b: Aabb) -> bool {
    &&& -(a.hw + b.hw) <= a.cx - b.cx <= a.hw + b.hw
    &&& -(a.hh + b.hh) <= a.cy - b.cy <= a.hh + b.hh
}

impl Aabb {
    /// The standard AABB intersection test. Differences and sums are taken
    /// in a wider integer type, so any center and half-extent values are
    /// accepted.
    pub fn intersects(&self, other: &Aabb) -> (r: bool)
        ensures
            r == overlaps(*self, *other),
    {
        let dx: i128 = self.cx as i128 - other.cx as i128;
        let sx: i128 = self.hw as i128 + other.hw as i128;
        let dy: i128 = self.cy as i128 - other.cy as i128;
        let sy: i128 = self.hh as i128 + other.hh as i128;
        -sx <= dx && dx <= sx && -sy <= dy && dy <= sy
    }
}

} // verus!
