//! A listing-and-compaction walk over a small synthetic grid: the
//! compact listing of a region, expanded back to the listed level,
//! holds exactly the zones of the plain listing.

use dggal::compact::{compact_zones, SiblingGroup};
use dggal::expand::expand_zones;
use dggal::geo::{GeoExtent, GeoPoint};
use dggal::laws::check_hierarchy;
use dggal::listing::{CandidateZone, ZoneListing};
use dggal::zone::same_zone_set;

fn extent(ll_lat: i64, ll_lon: i64, ur_lat: i64, ur_lon: i64) -> GeoExtent {
    GeoExtent {
        ll: GeoPoint { lat: ll_lat, lon: ll_lon },
        ur: GeoPoint { lat: ur_lat, lon: ur_lon },
    }
}

fn deg(d: i64) -> i64 {
    d * 1_000_000_000
}

// the synthetic grid: zone 10 and its descendants lie inside the
// queried box, zone 11 and its descendants outside
fn inside() -> GeoExtent {
    extent(deg(1), deg(-5), deg(8), deg(5))
}

fn outside() -> GeoExtent {
    extent(deg(40), deg(40), deg(50), deg(50))
}

fn children_of(zone: u64) -> Vec<u64> {
    match zone {
        10 => vec![100, 101],
        11 => vec![110, 111],
        100 => vec![1000, 1001],
        101 => vec![1010],
        110 => vec![1100],
        111 => vec![1110],
        _ => Vec::new(),
    }
}

fn extent_of(zone: u64) -> GeoExtent {
    if zone == 10 || zone / 10 == 10 || zone / 100 == 10 {
        inside()
    } else {
        outside()
    }
}

fn candidates(zones: &[u64]) -> Vec<CandidateZone> {
    let mut out = Vec::new();
    for &z in zones {
        for c in children_of(z) {
            out.push(CandidateZone { zone: c, extent: extent_of(c) });
        }
    }
    out
}

fn list_level_two(bbox: GeoExtent) -> Vec<u64> {
    let top = vec![
        CandidateZone { zone: 10, extent: extent_of(10) },
        CandidateZone { zone: 11, extent: extent_of(11) },
    ];
    let mut listing = ZoneListing::new(&top, bbox, 2);
    while !listing.finished() {
        let next = candidates(&listing.frontier);
        listing.advance(&next);
    }
    listing.zones()
}

// the sibling groups of the levels the listing touched, deepest first
fn passes() -> Vec<Vec<SiblingGroup>> {
    vec![
        vec![
            SiblingGroup { parent: 100, children: children_of(100) },
            SiblingGroup { parent: 101, children: children_of(101) },
            SiblingGroup { parent: 110, children: children_of(110) },
            SiblingGroup { parent: 111, children: children_of(111) },
        ],
        vec![
            SiblingGroup { parent: 10, children: children_of(10) },
            SiblingGroup { parent: 11, children: children_of(11) },
        ],
    ]
}

#[test]
fn boxed_listing_keeps_the_inside_branch() {
    let listed = list_level_two(extent(deg(0), deg(-10), deg(10), deg(10)));
    assert_eq!(listed, vec![1000, 1001, 1010]);
}

#[test]
fn compact_listing_expands_back_to_the_plain_listing() {
    let bbox = extent(deg(0), deg(-10), deg(10), deg(10));
    let listed = list_level_two(bbox);

    let mut compacted = listed.clone();
    assert!(check_hierarchy(&passes()));
    compact_zones(&mut compacted, &passes());
    assert_eq!(compacted, vec![10]);

    let expanded = expand_zones(&compacted, &passes());
    assert!(same_zone_set(&expanded, &listed));
}

#[test]
fn whole_world_listing_covers_both_branches() {
    let listed = list_level_two(dggal::geo::whole_world());
    assert_eq!(listed, vec![1000, 1001, 1010, 1100, 1110]);
}
