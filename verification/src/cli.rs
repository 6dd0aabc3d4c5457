//! Decisions of the command-line tools.
//!
//! The tools themselves parse arguments and print; the decisions that
//! determine what work is done stand here: validating a listing
//! request (bounding box, output mode, level default) and choosing the
//! relative depth for sub-zone counting.

use vstd::prelude::*;

verus! {

use crate::bbox::BboxError;
use crate::bbox::parse_bbox;
use crate::bbox::spec_bbox_error;
use crate::bbox::spec_bbox_extent;
use crate::bbox::spec_bbox_ok;
use crate::bbox::spec_split;
use crate::geo::GeoExtent;
use crate::geo::spec_whole_world;
use crate::geo::whole_world;

/// Why a listing request was rejected.
#[derive(Clone, Copy, PartialEq, Eq, Structural, Debug)]
pub enum ListError {
    /// The bounding-box string was malformed.
    InvalidBoundingBox(BboxError),
    /// A compact listing cannot be returned as centroids.
    IncompatibleOptions,
}

/// A validated listing request.
#[derive(Clone, Copy, PartialEq, Eq, Structural, Debug)]
pub struct ListRequest {
    /// The subdivision level to list.
    pub level: i32,
    /// The bounding box every listed zone must intersect; the whole
    /// world when none was supplied.
    pub bbox: GeoExtent,
    /// Whether to compact the listed set.
    pub compact: bool,
    /// Whether to print centroids instead of zone identifiers.
    pub centroids: bool,
}

/// Validate a listing request before any zone enumeration begins: the
/// bounding box is parsed (the whole world standing in when none is
/// supplied), asking for a compact listing as centroids is refused,
/// and a missing level (the sentinel `-1`) defaults to level 0.
pub fn prepare_listing(
    level: i32,
    bbox_arg: Option<&[u8]>,
    compact: bool,
    centroids: bool,
) -> (r: Result<ListRequest, ListError>)
    ensures
        match r {
            Ok(req) => {
                &&& !(compact && centroids)
                &&& req.compact == compact
                &&& req.centroids == centroids
                &&& req.level == (if level == -1 {
                    0i32
                } else {
                    level
                })
                &&& match bbox_arg {
                    None => req.bbox == spec_whole_world(),
                    Some(s) => spec_bbox_ok(s@) && req.bbox == spec_bbox_extent(spec_split(s@)),
                }
            },
            Err(err) => match err {
                ListError::InvalidBoundingBox(e) => match bbox_arg {
                    Some(s) => !spec_bbox_ok(s@) && e == spec_bbox_error(s@),
                    None => false,
                },
                ListError::IncompatibleOptions => {
                    &&& compact
                    &&& centroids
                    &&& match bbox_arg {
                        None => true,
                        Some(s) => spec_bbox_ok(s@),
                    }
                },
            },
        },
{
    let bbox = match bbox_arg {
        None => whole_world(),
        Some(s) => match parse_bbox(s) {
            Ok(e) => e,
            Err(e) => {
                return Err(ListError::InvalidBoundingBox(e));
            },
        },
    };
    if compact && centroids {
        return Err(ListError::IncompatibleOptions);
    }
    let effective = if level == -1 {
        0
    } else {
        level
    };
    Ok(ListRequest { level: effective, bbox, compact, centroids })
}

/// Why a requested sub-zone depth was rejected.
#[derive(Clone, Copy, PartialEq, Eq, Structural, Debug)]
pub enum DepthError {
    /// The requested relative depth exceeds the grid system's maximum.
    ExceedsMaximum,
}

/// Choose the relative depth for sub-zone counting: the grid system's
/// default when none was requested, the requested depth when it does
/// not exceed the grid system's maximum, and an error otherwise.
pub fn select_depth(default_depth: i32, requested: Option<i32>, max_depth: i32) -> (r: Result<
    i32,
    DepthError,
>)
    ensures
        match r {
            Ok(d) => match requested {
                None => d == default_depth,
                Some(x) => x <= max_depth && d == x,
            },
            Err(err) => match err {
                DepthError::ExceedsMaximum => match requested {
                    Some(x) => x > max_depth,
                    None => false,
                },
            },
        },
{
    match requested {
        None => Ok(default_depth),
        Some(x) => {
            if x > max_depth {
                Err(DepthError::ExceedsMaximum)
            } else {
                Ok(x)
            }
        },
    }
}

} // verus!
