//! Zones: opaque 64-bit identifiers with a reserved null sentinel.

use vstd::prelude::*;

verus! {

/// A zone identifier. A zone is one cell of a discrete global grid, at a
/// specific subdivision level; the value is opaque and only meaningful
/// relative to the grid-system instance that produced it.
pub type DGGRSZone = u64;

/// The reserved sentinel (all bits set): "no zone / whole-grid query".
pub const NULL_ZONE: u64 = 0xFFFF_FFFF_FFFF_FFFFu64;

/// Whether `z` is the null-zone sentinel.
pub open spec fn spec_is_null_zone(z: DGGRSZone) -> bool {
    z == NULL_ZONE
}

/// Whether `z` is the null-zone sentinel.
pub fn is_null_zone(z: DGGRSZone) -> (r: bool)
    ensures
        r == spec_is_null_zone(z),
{
    z == NULL_ZONE
}

/// Whether the sequence `s` holds no zone twice.
pub open spec fn no_dups(s: Seq<u64>) -> bool {
    forall|i: int, j: int| 0 <= i < j < s.len() ==> s[i] != s[j]
}

/// Whether the zone sequence `v` contains `z`.
pub fn zones_contain(v: &Vec<u64>, z: u64) -> (r: bool)
    ensures
        r == v@.contains(z),
{
    let n = v.len();
    for i in 0..n
        invariant
            n == v@.len(),
            forall|j: int| 0 <= j < i ==> v@[j] != z,
    {
        if v[i] == z {
            return true;
        }
    }
    false
}

/// Whether `a` and `b` hold the same zones, ignoring order and
/// multiplicity.
pub fn same_zone_set(a: &Vec<u64>, b: &Vec<u64>) -> (r: bool)
    ensures
        r == (a@.to_set() == b@.to_set()),
{
    let na = a.len();
    for i in 0..na
        invariant
            na == a@.len(),
            forall|j: int| 0 <= j < i ==> b@.contains(#[trigger] a@[j]),
    {
        if !zones_contain(b, a[i]) {
            proof {
                assert(a@.to_set().contains(a@[i as int]));
                assert(!b@.to_set().contains(a@[i as int]));
            }
            return false;
        }
    }
    let nb = b.len();
    for i in 0..nb
        invariant
            nb == b@.len(),
            forall|j: int| 0 <= j < i ==> a@.contains(#[trigger] b@[j]),
            forall|j: int| 0 <= j < a@.len() ==> b@.contains(#[trigger] a@[j]),
    {
        if !zones_contain(a, b[i]) {
            proof {
                assert(b@.to_set().contains(b@[i as int]));
                assert(!a@.to_set().contains(b@[i as int]));
            }
            return false;
        }
    }
    proof {
        assert(a@.to_set() =~= b@.to_set());
    }
    true
}

} // verus!
