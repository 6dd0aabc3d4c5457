use dggal::bbox::BboxError;
use dggal::cli::{prepare_listing, select_depth, DepthError, ListError};
use dggal::geo::whole_world;

#[test]
fn no_bounding_box_means_the_whole_world() {
    let req = prepare_listing(2, None, false, false).unwrap();
    assert_eq!(req.level, 2);
    assert_eq!(req.bbox, whole_world());
    assert!(!req.compact);
    assert!(!req.centroids);
}

#[test]
fn bounding_box_is_parsed_into_the_request() {
    let req = prepare_listing(2, Some(b"0,-10,10,10".as_slice()), true, false).unwrap();
    assert_eq!(req.bbox.ll.lat, 0);
    assert_eq!(req.bbox.ll.lon, -10_000_000_000);
    assert_eq!(req.bbox.ur.lat, 10_000_000_000);
    assert_eq!(req.bbox.ur.lon, 10_000_000_000);
    assert!(req.compact);
}

#[test]
fn malformed_bounding_box_is_rejected_before_any_listing() {
    assert_eq!(
        prepare_listing(2, Some(b"0,-10,10".as_slice()), false, false),
        Err(ListError::InvalidBoundingBox(BboxError::WrongTokenCount))
    );
    assert_eq!(
        prepare_listing(2, Some(b"90,-10,10,10".as_slice()), false, false),
        Err(ListError::InvalidBoundingBox(BboxError::LatitudeOutOfRange))
    );
}

#[test]
fn compact_centroids_combination_is_refused() {
    assert_eq!(prepare_listing(2, None, true, true), Err(ListError::IncompatibleOptions));
}

#[test]
fn bad_bounding_box_is_reported_before_the_option_conflict() {
    assert_eq!(
        prepare_listing(2, Some(b"x,0,0,0".as_slice()), true, true),
        Err(ListError::InvalidBoundingBox(BboxError::NotANumber))
    );
}

#[test]
fn missing_level_defaults_to_the_coarsest() {
    let req = prepare_listing(-1, None, false, false).unwrap();
    assert_eq!(req.level, 0);
}

#[test]
fn depth_defaults_when_none_is_requested() {
    assert_eq!(select_depth(8, None, 15), Ok(8));
}

#[test]
fn requested_depth_within_the_maximum_is_taken() {
    assert_eq!(select_depth(8, Some(12), 15), Ok(12));
}

#[test]
fn depth_beyond_the_maximum_is_rejected() {
    assert_eq!(select_depth(8, Some(16), 15), Err(DepthError::ExceedsMaximum));
}
