use dggal::dispatch::{counted_neighbors, counted_prefix, resolve, MethodTable, Resolution};

#[test]
fn instance_table_overrides() {
    let instance = MethodTable { slots: vec![0, 71, 0] };
    let class_table = MethodTable { slots: vec![11, 12, 13] };
    assert_eq!(resolve(Some(&instance), &class_table, 1), Resolution::PerInstance(71));
}

#[test]
fn absent_instance_entry_is_unsupported() {
    // when the instance exposes its own table, an absent entry there
    // does not fall back to the shared table
    let instance = MethodTable { slots: vec![0, 71, 0] };
    let class_table = MethodTable { slots: vec![11, 12, 13] };
    assert_eq!(resolve(Some(&instance), &class_table, 2), Resolution::Unsupported);
}

#[test]
fn no_instance_table_falls_back_to_class_default() {
    let class_table = MethodTable { slots: vec![11, 0, 13] };
    assert_eq!(resolve(None, &class_table, 2), Resolution::ClassDefault(13));
}

#[test]
fn absent_class_entry_is_unsupported() {
    let class_table = MethodTable { slots: vec![11, 0, 13] };
    assert_eq!(resolve(None, &class_table, 1), Resolution::Unsupported);
}

#[test]
fn out_of_range_operation_is_unsupported() {
    let class_table = MethodTable { slots: vec![11] };
    assert_eq!(resolve(None, &class_table, 5), Resolution::Unsupported);
}

#[test]
fn counted_prefix_copies_exactly_count_entries() {
    let buf: [u64; 6] = [7, 8, 9, u64::MAX, u64::MAX, u64::MAX];
    assert_eq!(counted_prefix(&buf, 3), Some(vec![7, 8, 9]));
    assert_eq!(counted_prefix(&buf, 0), Some(Vec::new()));
}

#[test]
fn counted_prefix_rejects_count_beyond_capacity() {
    let buf: [u64; 3] = [7, 8, 9];
    assert_eq!(counted_prefix(&buf, 4), None);
}

#[test]
fn counted_neighbors_pairs_zones_with_directions() {
    let zones: [u64; 6] = [5, 6, 7, 0, 0, 0];
    let dirs: [i32; 6] = [1, 2, 3, 0, 0, 0];
    let r = counted_neighbors(&zones, &dirs, 3).unwrap();
    assert_eq!(r.len(), 3);
    assert_eq!(r[0].zone, 5);
    assert_eq!(r[0].direction, 1);
    assert_eq!(r[2].zone, 7);
    assert_eq!(r[2].direction, 3);
}

#[test]
fn counted_neighbors_rejects_count_beyond_capacity() {
    let zones: [u64; 2] = [5, 6];
    let dirs: [i32; 6] = [1, 2, 3, 0, 0, 0];
    assert_eq!(counted_neighbors(&zones, &dirs, 3), None);
}
