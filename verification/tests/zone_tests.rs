use dggal::zone::{is_null_zone, same_zone_set, zones_contain, NULL_ZONE};

#[test]
fn null_zone_is_all_bits_set() {
    assert_eq!(NULL_ZONE, u64::MAX);
    assert!(is_null_zone(NULL_ZONE));
    assert!(!is_null_zone(0));
}

#[test]
fn containment_scans_the_sequence() {
    let v: Vec<u64> = vec![3, 1, 4];
    assert!(zones_contain(&v, 1));
    assert!(!zones_contain(&v, 2));
}

#[test]
fn set_equality_ignores_order_and_multiplicity() {
    assert!(same_zone_set(&vec![1, 2, 3], &vec![3, 2, 1]));
    assert!(same_zone_set(&vec![1, 1, 2], &vec![2, 1]));
    assert!(!same_zone_set(&vec![1, 2], &vec![1, 2, 3]));
    assert!(!same_zone_set(&vec![1, 2, 3], &vec![1, 2]));
    assert!(same_zone_set(&Vec::new(), &Vec::new()));
}
