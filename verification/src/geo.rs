//! Geographic points and axis-aligned extents.
//!
//! Latitudes and longitudes are held in nanodegrees (degrees scaled by
//! 10^9) as 64-bit integers; callers that obtain native angles in radians
//! convert at the boundary. A well-known "whole world" extent spans the
//! full latitude/longitude domain and short-circuits the intersection
//! test, which keeps listing correct at the poles and the antimeridian
//! where plain box arithmetic is unreliable.

use vstd::prelude::*;

verus! {

/// Nanodegrees in one degree.
pub const NANO_PER_DEGREE: i64 = 1_000_000_000;

/// The north pole's latitude, in nanodegrees.
pub const LAT_MAX: i64 = 90_000_000_000;

/// The antimeridian's longitude, in nanodegrees.
pub const LON_MAX: i64 = 180_000_000_000;

/// The south pole's latitude, in nanodegrees.
pub const LAT_MIN: i64 = -90_000_000_000;

/// The longitude opposite the antimeridian going west, in nanodegrees.
pub const LON_MIN: i64 = -180_000_000_000;

/// A latitude/longitude pair in nanodegrees.
#[derive(Clone, Copy, PartialEq, Eq, Structural, Debug)]
pub struct GeoPoint {
    /// Latitude in nanodegrees, positive north.
    pub lat: i64,
    /// Longitude in nanodegrees, positive east.
    pub lon: i64,
}

/// An axis-aligned bounding region: lower-left and upper-right corners.
#[derive(Clone, Copy, PartialEq, Eq, Structural, Debug)]
pub struct GeoExtent {
    /// Lower-left corner (minimum latitude and longitude).
    pub ll: GeoPoint,
    /// Upper-right corner (maximum latitude and longitude).
    pub ur: GeoPoint,
}

/// The extent spanning the full latitude/longitude domain.
pub open spec fn spec_whole_world() -> GeoExtent {
    GeoExtent {
        ll: GeoPoint { lat: LAT_MIN, lon: LON_MIN },
        ur: GeoPoint { lat: LAT_MAX, lon: LON_MAX },
    }
}

/// The extent spanning the full latitude/longitude domain.
pub fn whole_world() -> (r: GeoExtent)
    ensures
        r == spec_whole_world(),
{
    GeoExtent {
        ll: GeoPoint { lat: LAT_MIN, lon: LON_MIN },
        ur: GeoPoint { lat: LAT_MAX, lon: LON_MAX },
    }
}

/// Whether `b` is exactly the whole-world extent.
pub open spec fn spec_is_whole_world(b: GeoExtent) -> bool {
    b == spec_whole_world()
}

/// Whether the closed boxes `e` and `b` overlap, by plain interval
/// arithmetic on both axes. Boxes that merely touch count as overlapping.
pub open spec fn spec_boxes_overlap(e: GeoExtent, b: GeoExtent) -> bool {
    &&& e.ll.lat <= b.ur.lat
    &&& b.ll.lat <= e.ur.lat
    &&& e.ll.lon <= b.ur.lon
    &&& b.ll.lon <= e.ur.lon
}

/// Whether the extent `e` intersects the query box `b`. The whole-world
/// box intersects everything and is tested first, bypassing the interval
/// arithmetic that misbehaves at the poles and the antimeridian.
pub open spec fn spec_intersects(e: GeoExtent, b: GeoExtent) -> bool {
    if spec_is_whole_world(b) {
        true
    } else {
        spec_boxes_overlap(e, b)
    }
}

/// Whether the extent `e` intersects the query box `b`.
pub fn intersects(e: &GeoExtent, b: &GeoExtent) -> (r: bool)
    ensures
        r == spec_intersects(*e, *b),
{
    let w = whole_world();
    if b.ll.lat == w.ll.lat && b.ll.lon == w.ll.lon && b.ur.lat == w.ur.lat && b.ur.lon == w.ur.lon {
        true
    } else {
        e.ll.lat <= b.ur.lat && b.ll.lat <= e.ur.lat && e.ll.lon <= b.ur.lon && b.ll.lon <= e.ur.lon
    }
}

/// Every extent intersects the whole-world box: supplying no bounding box
/// and supplying the whole world are the same query.
pub proof fn lemma_whole_world_intersects_all(e: GeoExtent)
    ensures
        spec_intersects(e, spec_whole_world()),
{
}

} // verus!
