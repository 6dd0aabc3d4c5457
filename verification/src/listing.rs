//! Zone listing: enumerating the zones at a level that intersect a box.
//!
//! Listing descends the grid level by level. It starts from the grid
//! system's top-level zones, keeps those whose extent intersects the
//! bounding box, and repeatedly expands the kept zones into their
//! children, again keeping only the intersecting ones, until the
//! requested level is reached. The children and their extents come from
//! the external grid component; the engine here makes the decisions: the
//! intersection filter, the duplicate removal, and the level bookkeeping.

use vstd::prelude::*;

verus! {

use crate::geo::GeoExtent;
use crate::geo::spec_intersects;
use crate::geo::spec_whole_world;
use crate::zone::no_dups;
use crate::zone::zones_contain;

/// A zone together with its geographic extent, as reported by the grid
/// component: one candidate for the listing filter.
#[derive(Clone, Copy, PartialEq, Eq, Structural, Debug)]
pub struct CandidateZone {
    /// The zone identifier.
    pub zone: u64,
    /// The zone's geographic extent.
    pub extent: GeoExtent,
}

/// The zones of `cands` whose extent intersects `bbox`, appended in
/// order to `acc`, skipping zones already taken: the filtering step of
/// the listing descent.
pub open spec fn spec_filter_zones(acc: Seq<u64>, cands: Seq<CandidateZone>, bbox: GeoExtent) -> Seq<
    u64,
>
    decreases cands.len(),
{
    if cands.len() == 0 {
        acc
    } else {
        let c = cands[0];
        let acc2 = if spec_intersects(c.extent, bbox) && !acc.contains(c.zone) {
            acc.push(c.zone)
        } else {
            acc
        };
        spec_filter_zones(acc2, cands.drop_first(), bbox)
    }
}

/// Keep the candidates that intersect `bbox`, each zone once, in order
/// of first appearance.
pub fn filter_zones(cands: &Vec<CandidateZone>, bbox: &GeoExtent) -> (r: Vec<u64>)
    ensures
        r@ == spec_filter_zones(Seq::empty(), cands@, *bbox),
        no_dups(r@),
        forall|k: int|
            #![trigger r@[k]]
            0 <= k < r@.len() ==> exists|j: int|
                0 <= j < cands@.len() && (#[trigger] cands@[j]).zone == r@[k] && spec_intersects(
                    cands@[j].extent,
                    *bbox,
                ),
        forall|j: int|
            0 <= j < cands@.len() && spec_intersects((#[trigger] cands@[j]).extent, *bbox)
                ==> r@.contains(cands@[j].zone),
{
    let mut r: Vec<u64> = Vec::new();
    let n = cands.len();
    proof {
        assert(cands@.skip(0) =~= cands@);
    }
    for i in 0..n
        invariant
            n == cands@.len(),
            spec_filter_zones(r@, cands@.skip(i as int), *bbox) == spec_filter_zones(
                Seq::empty(),
                cands@,
                *bbox,
            ),
            no_dups(r@),
            forall|k: int|
                #![trigger r@[k]]
                0 <= k < r@.len() ==> exists|j: int|
                    0 <= j < cands@.len() && (#[trigger] cands@[j]).zone == r@[k]
                        && spec_intersects(cands@[j].extent, *bbox),
            forall|j: int|
                0 <= j < i && spec_intersects((#[trigger] cands@[j]).extent, *bbox)
                    ==> r@.contains(cands@[j].zone),
    {
        proof {
            assert(cands@.skip(i as int).drop_first() =~= cands@.skip(i + 1));
            assert(cands@.skip(i as int)[0] == cands@[i as int]);
        }
        let ghost r_before = r@;
        let c = cands[i];
        if crate::geo::intersects(&c.extent, bbox) && !zones_contain(&r, c.zone) {
            r.push(c.zone);
            proof {
                assert forall|k: int| #![trigger r@[k]] 0 <= k < r@.len() implies exists|j: int|
                    0 <= j < cands@.len() && (#[trigger] cands@[j]).zone == r@[k]
                        && spec_intersects(cands@[j].extent, *bbox) by {
                    if k < r_before.len() {
                        assert(r@[k] == r_before[k]);
                    } else {
                        assert(r@[k] == cands@[i as int].zone);
                        assert((cands@[i as int]).zone == r@[k] && spec_intersects(
                            cands@[i as int].extent,
                            *bbox,
                        ));
                    }
                }
                assert forall|i2: int, j2: int| 0 <= i2 < j2 < r@.len() implies r@[i2]
                    != r@[j2] by {
                    if j2 == r@.len() - 1 {
                        assert(r@[i2] == r_before[i2]);
                        assert(r_before.contains(r_before[i2]));
                    }
                }
                assert forall|j: int|
                    0 <= j < i + 1 && spec_intersects(
                        (#[trigger] cands@[j]).extent,
                        *bbox,
                    ) implies r@.contains(cands@[j].zone) by {
                    crate::expand::lemma_push_contains(r_before, c.zone, cands@[j].zone);
                }
            }
        } else {
            proof {
                if spec_intersects(cands@[i as int].extent, *bbox) {
                    assert(r@.contains(cands@[i as int].zone));
                }
            }
        }
    }
    proof {
        assert(cands@.skip(n as int) =~= Seq::<CandidateZone>::empty());
    }
    r
}

/// Filtering by the whole-world box drops no zone: every candidate's
/// zone is in the result, so a listing with no bounding box supplied
/// (which uses the whole-world box) keeps every enumerated zone.
pub proof fn lemma_whole_world_keeps_every_zone(acc: Seq<u64>, cands: Seq<CandidateZone>)
    ensures
        forall|j: int|
            0 <= j < cands.len() ==> spec_filter_zones(acc, cands, spec_whole_world()).contains(
                (#[trigger] cands[j]).zone,
            ),
        forall|z: u64|
            acc.contains(z) ==> spec_filter_zones(acc, cands, spec_whole_world()).contains(z),
    decreases cands.len(),
{
    if cands.len() == 0 {
    } else {
        let c = cands[0];
        let acc2 = if !acc.contains(c.zone) {
            acc.push(c.zone)
        } else {
            acc
        };
        assert(spec_intersects(c.extent, spec_whole_world()));
        lemma_whole_world_keeps_every_zone(acc2, cands.drop_first());
        assert forall|z: u64| acc.contains(z) implies acc2.contains(z) by {
            crate::expand::lemma_push_contains(acc, c.zone, z);
        }
        assert(acc2.contains(c.zone)) by {
            crate::expand::lemma_push_contains(acc, c.zone, c.zone);
        }
        assert forall|j: int|
            0 <= j < cands.len() implies spec_filter_zones(
            acc,
            cands,
            spec_whole_world(),
        ).contains((#[trigger] cands[j]).zone) by {
            if j > 0 {
                assert(cands.drop_first()[j - 1] == cands[j]);
            }
        }
    }
}

/// A level-by-level zone listing in progress. The external grid
/// component supplies each level's candidate children; this type keeps
/// the decisions: which zones stay, and when the descent is done.
pub struct ZoneListing {
    /// The requested subdivision level.
    pub target_level: i32,
    /// The level of the zones currently held.
    pub current_level: i32,
    /// The bounding box every listed zone must intersect.
    pub bbox: GeoExtent,
    /// The zones kept so far, each once, in first-appearance order.
    pub frontier: Vec<u64>,
}

impl ZoneListing {
    /// The listing's bookkeeping is sound: no duplicate zones, and the
    /// level counter between zero and the target.
    pub open spec fn inv(self) -> bool {
        &&& no_dups(self.frontier@)
        &&& 0 <= self.current_level <= self.target_level
    }

    /// Start a listing at level 0 from the grid's top-level zones,
    /// keeping those that intersect `bbox`.
    pub fn new(top_level: &Vec<CandidateZone>, bbox: GeoExtent, level: i32) -> (r: ZoneListing)
        requires
            level >= 0,
        ensures
            r.inv(),
            r.target_level == level,
            r.current_level == 0,
            r.bbox == bbox,
            r.frontier@ == spec_filter_zones(Seq::empty(), top_level@, bbox),
    {
        let frontier = filter_zones(top_level, &bbox);
        ZoneListing { target_level: level, current_level: 0, bbox, frontier }
    }

    /// Whether the requested level has been reached.
    pub fn finished(&self) -> (r: bool)
        ensures
            r == (self.current_level == self.target_level),
    {
        self.current_level == self.target_level
    }

    /// Descend one level: `children` are the candidate children of the
    /// current frontier's zones, with their extents; keep those that
    /// intersect the bounding box, each zone once.
    pub fn advance(&mut self, children: &Vec<CandidateZone>)
        requires
            old(self).inv(),
            old(self).current_level < old(self).target_level,
        ensures
            final(self).inv(),
            final(self).target_level == old(self).target_level,
            final(self).bbox == old(self).bbox,
            final(self).current_level == old(self).current_level + 1,
            final(self).frontier@ == spec_filter_zones(
                Seq::empty(),
                children@,
                old(self).bbox,
            ),
    {
        self.frontier = filter_zones(children, &self.bbox);
        self.current_level = self.current_level + 1;
    }

    /// The listed zones.
    pub fn zones(self) -> (r: Vec<u64>)
        ensures
            r == self.frontier,
    {
        self.frontier
    }
}

/// The level actually listed when the command line supplied `level`:
/// the sentinel `-1` (no level given) defaults to level 0, the coarsest.
pub fn effective_level(level: i32) -> (r: i32)
    ensures
        level == -1 ==> r == 0,
        level != -1 ==> r == level,
{
    if level == -1 {
        0
    } else {
        level
    }
}

} // verus!
