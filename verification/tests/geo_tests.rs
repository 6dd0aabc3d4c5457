use dggal::geo::{intersects, whole_world, GeoExtent, GeoPoint, LAT_MAX, LAT_MIN, LON_MAX, LON_MIN};

fn extent(ll_lat: i64, ll_lon: i64, ur_lat: i64, ur_lon: i64) -> GeoExtent {
    GeoExtent {
        ll: GeoPoint { lat: ll_lat, lon: ll_lon },
        ur: GeoPoint { lat: ur_lat, lon: ur_lon },
    }
}

#[test]
fn whole_world_spans_the_domain() {
    let w = whole_world();
    assert_eq!(w.ll.lat, LAT_MIN);
    assert_eq!(w.ll.lon, LON_MIN);
    assert_eq!(w.ur.lat, LAT_MAX);
    assert_eq!(w.ur.lon, LON_MAX);
}

#[test]
fn overlapping_boxes_intersect() {
    let a = extent(0, 0, 10_000_000_000, 10_000_000_000);
    let b = extent(5_000_000_000, 5_000_000_000, 15_000_000_000, 15_000_000_000);
    assert!(intersects(&a, &b));
    assert!(intersects(&b, &a));
}

#[test]
fn disjoint_boxes_do_not_intersect() {
    let a = extent(0, 0, 10_000_000_000, 10_000_000_000);
    let b = extent(20_000_000_000, 0, 30_000_000_000, 10_000_000_000);
    assert!(!intersects(&a, &b));
}

#[test]
fn touching_boxes_intersect() {
    let a = extent(0, 0, 10_000_000_000, 10_000_000_000);
    let b = extent(10_000_000_000, 0, 20_000_000_000, 10_000_000_000);
    assert!(intersects(&a, &b));
}

#[test]
fn whole_world_intersects_everything() {
    let w = whole_world();
    // even a degenerate extent beyond the poles, where box arithmetic
    // is unreliable, intersects the whole world
    let weird = extent(LAT_MAX, LON_MAX, LAT_MIN, LON_MIN);
    assert!(intersects(&weird, &w));
}
