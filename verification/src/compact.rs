//! Zone-set compaction: replacing complete sibling groups by their parent.
//!
//! A listed zone set (all zones at one level that intersect a region) can be
//! represented more economically by replacing every sibling group that is
//! entirely present with its parent zone alone. Compaction is applied
//! bottom-up, pass by pass: the first pass merges the deepest zones into
//! their parents, and a parent produced by one pass may itself be merged
//! with its own siblings by the next pass up.
//!
//! The grid hierarchy itself is data here: the caller supplies, for each
//! pass, the sibling groups (one parent zone with its complete child list)
//! that the external grid component reports for the levels involved. The
//! engine is deterministic and order-stable: a merged group's parent takes
//! the position of the group's first listed child, and all other zones keep
//! their relative order.

use vstd::prelude::*;

verus! {

use crate::zone::zones_contain;

/// One sibling group of the grid hierarchy: a parent zone together with
/// the complete, duplicate-free list of its children one level down.
#[derive(Debug)]
pub struct SiblingGroup {
    /// The parent zone.
    pub parent: u64,
    /// All children of `parent`, one level deeper than `parent`.
    pub children: Vec<u64>,
}

/// Whether every child of `g` is present in the zone sequence `s`.
pub open spec fn group_complete(s: Seq<u64>, g: SiblingGroup) -> bool {
    forall|i: int| 0 <= i < g.children@.len() ==> s.contains(#[trigger] g.children@[i])
}

/// Whether compaction merges `g` when the current zone sequence is `s`:
/// the group is non-empty, every child is present, and the parent is not
/// already present.
pub open spec fn group_applicable(s: Seq<u64>, g: SiblingGroup) -> bool {
    &&& g.children@.len() > 0
    &&& group_complete(s, g)
    &&& !s.contains(g.parent)
}

/// One left-to-right scan of `s` merging the group `g`: the first zone
/// that belongs to `g.children` is replaced by `g.parent`, every later
/// such zone is dropped, and all other zones are kept in order.
/// `replaced` records whether the parent has already been emitted.
pub open spec fn merge_scan(s: Seq<u64>, g: SiblingGroup, replaced: bool) -> Seq<u64>
    decreases s.len(),
{
    if s.len() == 0 {
        Seq::empty()
    } else if !g.children@.contains(s[0]) {
        seq![s[0]] + merge_scan(s.drop_first(), g, replaced)
    } else if !replaced {
        seq![g.parent] + merge_scan(s.drop_first(), g, true)
    } else {
        merge_scan(s.drop_first(), g, true)
    }
}

/// The effect of considering group `g` on zone sequence `s`: merge it if
/// it is applicable, otherwise leave `s` unchanged.
pub open spec fn apply_group(s: Seq<u64>, g: SiblingGroup) -> Seq<u64> {
    if group_applicable(s, g) {
        merge_scan(s, g, false)
    } else {
        s
    }
}

/// One compaction pass: consider each group of `gs` in order.
pub open spec fn run_pass(s: Seq<u64>, gs: Seq<SiblingGroup>) -> Seq<u64>
    decreases gs.len(),
{
    if gs.len() == 0 {
        s
    } else {
        run_pass(apply_group(s, gs[0]), gs.drop_first())
    }
}

/// Full compaction: run the passes in order. The first pass holds the
/// sibling groups of the deepest level, the last those of the shallowest.
pub open spec fn run_passes(s: Seq<u64>, passes: Seq<Vec<SiblingGroup>>) -> Seq<u64>
    decreases passes.len(),
{
    if passes.len() == 0 {
        s
    } else {
        run_passes(run_pass(s, passes[0]@), passes.drop_first())
    }
}

/// Gather each zone that appears in any of the given parent lists,
/// once, in order of first appearance: the parents of one compaction
/// pass, assembled from the per-zone parent queries.
pub fn unique_parents(parent_lists: &Vec<Vec<u64>>) -> (r: Vec<u64>)
    ensures
        crate::zone::no_dups(r@),
        forall|z: u64|
            #![trigger r@.contains(z)]
            r@.contains(z) <==> exists|i: int|
                0 <= i < parent_lists@.len() && (#[trigger] parent_lists@[i])@.contains(z),
{
    let mut r: Vec<u64> = Vec::new();
    let n = parent_lists.len();
    for i in 0..n
        invariant
            n == parent_lists@.len(),
            crate::zone::no_dups(r@),
            forall|z: u64|
                #![trigger r@.contains(z)]
                r@.contains(z) <==> exists|i2: int|
                    0 <= i2 < i && (#[trigger] parent_lists@[i2])@.contains(z),
    {
        let list = &parent_lists[i];
        let k = list.len();
        for j in 0..k
            invariant
                n == parent_lists@.len(),
                i < n,
                k == list@.len(),
                list@ == parent_lists@[i as int]@,
                crate::zone::no_dups(r@),
                forall|z: u64|
                    #![trigger r@.contains(z)]
                    r@.contains(z) <==> (exists|i2: int|
                        0 <= i2 < i && (#[trigger] parent_lists@[i2])@.contains(z)) || (
                    exists|j2: int| 0 <= j2 < j && list@[j2] == z),
        {
            let ghost r_before = r@;
            let z = list[j];
            if !zones_contain(&r, z) {
                r.push(z);
                proof {
                    assert forall|i2: int, j2: int|
                        0 <= i2 < j2 < r@.len() implies r@[i2] != r@[j2] by {
                        if j2 == r@.len() - 1 {
                            assert(r@[i2] == r_before[i2]);
                            assert(r_before.contains(r_before[i2]));
                        }
                    }
                }
            }
            proof {
                assert(list@[j as int] == z);
                assert forall|z2: u64|
                    #![trigger r@.contains(z2)]
                    r@.contains(z2) <==> (exists|i2: int|
                        0 <= i2 < i && (#[trigger] parent_lists@[i2])@.contains(z2)) || (
                    exists|j2: int| 0 <= j2 < j + 1 && list@[j2] == z2) by {
                    crate::expand::lemma_push_contains(r_before, z, z2);
                    if r@.contains(z2) {
                        if r_before.contains(z2) {
                        } else {
                            assert(z2 == z);
                        }
                    }
                    if exists|j2: int| 0 <= j2 < j + 1 && list@[j2] == z2 {
                        let j2 = choose|j2: int| 0 <= j2 < j + 1 && list@[j2] == z2;
                        if j2 < j {
                        } else {
                            assert(z2 == z);
                            assert(r@.contains(z));
                        }
                    }
                }
            }
        }
        proof {
            assert forall|z: u64|
                #![trigger r@.contains(z)]
                r@.contains(z) <==> exists|i2: int|
                    0 <= i2 < i + 1 && (#[trigger] parent_lists@[i2])@.contains(z) by {
                if r@.contains(z) {
                    if exists|j2: int| 0 <= j2 < list@.len() && list@[j2] == z {
                        assert(parent_lists@[i as int]@.contains(z));
                    }
                }
                if exists|i2: int| 0 <= i2 < i + 1 && (#[trigger] parent_lists@[i2])@.contains(
                    z,
                ) {
                    let i2 = choose|i2: int|
                        0 <= i2 < i + 1 && (#[trigger] parent_lists@[i2])@.contains(z);
                    if i2 == i {
                        let j2 = choose|j2: int|
                            0 <= j2 < list@.len() && list@[j2] == z;
                        assert(list@[j2] == z);
                    }
                }
            }
        }
    }
    r
}

/// Whether group `g` would be merged into the zone sequence `s`.
pub fn group_is_applicable(s: &Vec<u64>, g: &SiblingGroup) -> (r: bool)
    ensures
        r == group_applicable(s@, *g),
{
    if g.children.len() == 0 {
        return false;
    }
    if zones_contain(s, g.parent) {
        return false;
    }
    let n = g.children.len();
    for i in 0..n
        invariant
            n == g.children@.len(),
            forall|j: int| 0 <= j < i ==> s@.contains(#[trigger] g.children@[j]),
    {
        if !zones_contain(s, g.children[i]) {
            return false;
        }
    }
    true
}

/// Merge group `g` into the zone sequence `s` if it is applicable.
fn apply_group_exec(s: &Vec<u64>, g: &SiblingGroup) -> (r: Vec<u64>)
    ensures
        r@ == apply_group(s@, *g),
{
    if !group_is_applicable(s, g) {
        return s.clone();
    }
    let mut out: Vec<u64> = Vec::new();
    let mut replaced: bool = false;
    let n = s.len();
    proof {
        assert(s@.skip(0) =~= s@);
        assert(out@ + merge_scan(s@, *g, false) =~= merge_scan(s@, *g, false));
    }
    for i in 0..n
        invariant
            n == s@.len(),
            out@ + merge_scan(s@.skip(i as int), *g, replaced) == merge_scan(s@, *g, false),
    {
        proof {
            assert(s@.skip(i as int).drop_first() =~= s@.skip(i + 1));
            assert(s@.skip(i as int)[0] == s@[i as int]);
        }
        if !zones_contain(&g.children, s[i]) {
            out.push(s[i]);
        } else if !replaced {
            out.push(g.parent);
            replaced = true;
        }
    }
    proof {
        assert(s@.skip(n as int) =~= Seq::<u64>::empty());
        assert(out@ + merge_scan(s@.skip(n as int), *g, replaced) =~= out@);
    }
    out
}

/// Compact the zone set `zones` against the supplied hierarchy data,
/// bottom-up: the passes are considered in order, and within each pass the
/// groups are considered in order, each complete group being replaced by
/// its parent at the position of its first listed child.
pub fn compact_zones(zones: &mut Vec<u64>, passes: &Vec<Vec<SiblingGroup>>)
    ensures
        final(zones)@ == run_passes(old(zones)@, passes@),
{
    let m = passes.len();
    proof {
        assert(passes@.skip(0) =~= passes@);
    }
    for p in 0..m
        invariant
            m == passes@.len(),
            run_passes(zones@, passes@.skip(p as int)) == run_passes(old(zones)@, passes@),
    {
        proof {
            assert(passes@.skip(p as int).drop_first() =~= passes@.skip(p + 1));
            assert(passes@.skip(p as int)[0] == passes@[p as int]);
        }
        let ghost pass_start = zones@;
        let gs = &passes[p];
        let k = gs.len();
        proof {
            assert(gs@.skip(0) =~= gs@);
        }
        for j in 0..k
            invariant
                k == gs@.len(),
                run_pass(zones@, gs@.skip(j as int)) == run_pass(pass_start, gs@),
        {
            proof {
                assert(gs@.skip(j as int).drop_first() =~= gs@.skip(j + 1));
                assert(gs@.skip(j as int)[0] == gs@[j as int]);
            }
            let merged = apply_group_exec(zones, &gs[j]);
            *zones = merged;
        }
        proof {
            assert(gs@.skip(k as int) =~= Seq::<SiblingGroup>::empty());
            assert(run_pass(zones@, gs@.skip(k as int)) == zones@);
        }
    }
    proof {
        assert(passes@.skip(m as int) =~= Seq::<Vec<SiblingGroup>>::empty());
    }
}

} // verus!
