use dggal::compact::{compact_zones, SiblingGroup};
use dggal::expand::expand_zones;
use dggal::laws::check_hierarchy;
use dggal::zone::same_zone_set;

// a small synthetic hierarchy, deepest level first:
//   pass 0: 100 <- [0, 1, 2], 101 <- [3, 4]
//   pass 1: 200 <- [100, 101]
fn passes() -> Vec<Vec<SiblingGroup>> {
    vec![
        vec![
            SiblingGroup { parent: 100, children: vec![0, 1, 2] },
            SiblingGroup { parent: 101, children: vec![3, 4] },
        ],
        vec![SiblingGroup { parent: 200, children: vec![100, 101] }],
    ]
}

#[test]
fn complete_groups_merge_all_the_way_up() {
    let mut zones: Vec<u64> = vec![0, 1, 2, 3, 4];
    compact_zones(&mut zones, &passes());
    assert_eq!(zones, vec![200]);
}

#[test]
fn incomplete_groups_stay() {
    let mut zones: Vec<u64> = vec![0, 1, 3, 4];
    compact_zones(&mut zones, &passes());
    assert_eq!(zones, vec![0, 1, 101]);
}

#[test]
fn merged_parent_takes_the_first_child_position() {
    let mut zones: Vec<u64> = vec![3, 0, 1, 4, 2];
    compact_zones(&mut zones, &passes());
    assert_eq!(zones, vec![200]);

    let mut partial: Vec<u64> = vec![3, 0, 4, 1];
    compact_zones(&mut partial, &passes());
    // group of 101 is complete (children 3, 4); 101 stands where 3 stood
    assert_eq!(partial, vec![101, 0, 1]);
}

#[test]
fn compacting_twice_changes_nothing() {
    let mut zones: Vec<u64> = vec![0, 1, 2, 3];
    compact_zones(&mut zones, &passes());
    let once = zones.clone();
    compact_zones(&mut zones, &passes());
    assert_eq!(zones, once);

    let mut full: Vec<u64> = vec![0, 1, 2, 3, 4];
    compact_zones(&mut full, &passes());
    let once_full = full.clone();
    compact_zones(&mut full, &passes());
    assert_eq!(full, once_full);
}

#[test]
fn expansion_reaches_the_deepest_level() {
    let expanded = expand_zones(&vec![200], &passes());
    assert!(same_zone_set(&expanded, &vec![0, 1, 2, 3, 4]));
}

#[test]
fn expanding_a_compacted_set_reproduces_the_listing() {
    // the compact listing scenario: a listed set, compacted, then
    // expanded back to its level, matches the plain listing as a set
    let listed: Vec<u64> = vec![0, 1, 2, 3, 4];
    let mut compacted = listed.clone();
    compact_zones(&mut compacted, &passes());
    let expanded = expand_zones(&compacted, &passes());
    assert!(same_zone_set(&expanded, &listed));

    let partial: Vec<u64> = vec![0, 2, 3, 4];
    let mut compacted_partial = partial.clone();
    compact_zones(&mut compacted_partial, &passes());
    assert_eq!(compacted_partial, vec![0, 2, 101]);
    let expanded_partial = expand_zones(&compacted_partial, &passes());
    assert!(same_zone_set(&expanded_partial, &partial));
}

#[test]
fn the_synthetic_hierarchy_is_well_formed() {
    // the data the other cases run on satisfies the laws' premises
    assert!(check_hierarchy(&passes()));
}

#[test]
fn ill_formed_hierarchies_are_detected() {
    // a zone that is the parent of two groups
    let duplicate_parent = vec![vec![
        SiblingGroup { parent: 100, children: vec![0, 1] },
        SiblingGroup { parent: 100, children: vec![2, 3] },
    ]];
    assert!(!check_hierarchy(&duplicate_parent));

    // a group without children
    let empty_group = vec![vec![SiblingGroup { parent: 100, children: Vec::new() }]];
    assert!(!check_hierarchy(&empty_group));

    // a parent that is also a sibling within its own pass
    let parent_as_sibling = vec![vec![
        SiblingGroup { parent: 100, children: vec![0, 1] },
        SiblingGroup { parent: 101, children: vec![100, 2] },
    ]];
    assert!(!check_hierarchy(&parent_as_sibling));

    // a child of a deep pass returning in a shallower pass
    let unstratified = vec![
        vec![SiblingGroup { parent: 100, children: vec![0, 1] }],
        vec![SiblingGroup { parent: 200, children: vec![100, 1] }],
    ];
    assert!(!check_hierarchy(&unstratified));
}

#[test]
fn zones_outside_the_hierarchy_pass_through() {
    let mut zones: Vec<u64> = vec![7, 0, 1, 2];
    compact_zones(&mut zones, &passes());
    assert_eq!(zones, vec![7, 100]);
    let expanded = expand_zones(&vec![7], &passes());
    assert_eq!(expanded, vec![7]);
}

#[test]
fn gathered_parents_are_unique_and_ordered() {
    let parent_lists: Vec<Vec<u64>> = vec![vec![100, 101], vec![101, 102], vec![], vec![100]];
    assert_eq!(dggal::compact::unique_parents(&parent_lists), vec![100, 101, 102]);
}
