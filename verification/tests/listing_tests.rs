use dggal::geo::{whole_world, GeoExtent, GeoPoint};
use dggal::listing::{effective_level, filter_zones, CandidateZone, ZoneListing};

fn extent(ll_lat: i64, ll_lon: i64, ur_lat: i64, ur_lon: i64) -> GeoExtent {
    GeoExtent {
        ll: GeoPoint { lat: ll_lat, lon: ll_lon },
        ur: GeoPoint { lat: ur_lat, lon: ur_lon },
    }
}

fn deg(d: i64) -> i64 {
    d * 1_000_000_000
}

#[test]
fn filter_keeps_only_intersecting_zones() {
    let bbox = extent(deg(0), deg(-10), deg(10), deg(10));
    let cands = vec![
        CandidateZone { zone: 1, extent: extent(deg(-5), deg(-5), deg(5), deg(5)) },
        CandidateZone { zone: 2, extent: extent(deg(20), deg(20), deg(30), deg(30)) },
        CandidateZone { zone: 3, extent: extent(deg(9), deg(9), deg(12), deg(12)) },
    ];
    assert_eq!(filter_zones(&cands, &bbox), vec![1, 3]);
}

#[test]
fn filter_lists_each_zone_once() {
    let bbox = extent(deg(0), deg(-10), deg(10), deg(10));
    let shared = extent(deg(-5), deg(-5), deg(5), deg(5));
    let cands = vec![
        CandidateZone { zone: 1, extent: shared },
        CandidateZone { zone: 2, extent: shared },
        CandidateZone { zone: 1, extent: shared },
    ];
    assert_eq!(filter_zones(&cands, &bbox), vec![1, 2]);
}

#[test]
fn whole_world_box_keeps_every_zone() {
    let w = whole_world();
    let cands = vec![
        CandidateZone { zone: 1, extent: extent(deg(-5), deg(-5), deg(5), deg(5)) },
        CandidateZone { zone: 2, extent: extent(deg(20), deg(20), deg(30), deg(30)) },
        CandidateZone { zone: 3, extent: extent(deg(89), deg(179), deg(90), deg(180)) },
    ];
    assert_eq!(filter_zones(&cands, &w), vec![1, 2, 3]);
}

#[test]
fn listing_descends_level_by_level() {
    let bbox = extent(deg(0), deg(-10), deg(10), deg(10));
    let inside = extent(deg(1), deg(1), deg(2), deg(2));
    let outside = extent(deg(40), deg(40), deg(50), deg(50));

    let top = vec![
        CandidateZone { zone: 10, extent: inside },
        CandidateZone { zone: 11, extent: outside },
    ];
    let mut listing = ZoneListing::new(&top, bbox, 2);
    assert!(!listing.finished());
    assert_eq!(listing.frontier, vec![10]);

    // children of zone 10, as the grid component would report them
    let children = vec![
        CandidateZone { zone: 100, extent: inside },
        CandidateZone { zone: 101, extent: outside },
        CandidateZone { zone: 102, extent: inside },
    ];
    listing.advance(&children);
    assert!(!listing.finished());
    assert_eq!(listing.frontier, vec![100, 102]);

    let grandchildren = vec![
        CandidateZone { zone: 1000, extent: inside },
        CandidateZone { zone: 1001, extent: inside },
    ];
    listing.advance(&grandchildren);
    assert!(listing.finished());
    assert_eq!(listing.zones(), vec![1000, 1001]);
}

#[test]
fn level_zero_listing_of_top_zones_is_complete() {
    // listing at level 0 with no bounding box keeps the full top-level
    // zone set, in order
    let w = whole_world();
    let anywhere = extent(deg(-5), deg(-5), deg(5), deg(5));
    let top: Vec<CandidateZone> = (0..12u64)
        .map(|z| CandidateZone { zone: z, extent: anywhere })
        .collect();
    let listing = ZoneListing::new(&top, w, 0);
    assert!(listing.finished());
    assert_eq!(listing.zones(), (0..12u64).collect::<Vec<u64>>());
}

#[test]
fn missing_level_defaults_to_zero() {
    assert_eq!(effective_level(-1), 0);
    assert_eq!(effective_level(0), 0);
    assert_eq!(effective_level(7), 7);
}
