//! Laws of the compaction engine.
//!
//! Proved here about compaction over well-formed hierarchy data:
//! compaction is idempotent; compaction preserves the expansion of the
//! zone set, so decompacting a compacted set reproduces exactly the
//! zones of the original set; and compaction never introduces a
//! duplicate zone. A checker decides well-formedness of hierarchy data,
//! so a caller can establish the laws' premises at run time.

use vstd::prelude::*;

verus! {

use crate::compact::SiblingGroup;
use crate::compact::apply_group;
use crate::compact::group_applicable;
use crate::compact::group_complete;
use crate::compact::merge_scan;
use crate::compact::run_pass;
use crate::compact::run_passes;
use crate::expand::descendants;
use crate::expand::expansion;
use crate::expand::find_group;
use crate::expand::lemma_seq_descendants_membership;
use crate::expand::seq_descendants;

/// Whether some group of `gs` has `z` among its children.
pub open spec fn pass_has_child(gs: Seq<SiblingGroup>, z: u64) -> bool {
    exists|i: int, j: int|
        0 <= i < gs.len() && 0 <= j < gs[i].children@.len() && gs[i].children@[j] == z
}

/// Whether some group of `gs` has `z` as its parent.
pub open spec fn pass_has_parent(gs: Seq<SiblingGroup>, z: u64) -> bool {
    exists|i: int| 0 <= i < gs.len() && (#[trigger] gs[i]).parent == z
}

/// Hierarchy data as compaction expects it, bottom-up: within each pass
/// the sibling groups of one level, the deepest level first.
/// - every group has at least one child;
/// - a zone is the parent of at most one group, over all passes;
/// - within a pass, no group's parent is another group's child;
/// - a child zone of an earlier (deeper) pass appears in no later
///   (shallower) pass, neither as a child nor as a parent.
pub open spec fn well_formed_hierarchy(passes: Seq<Vec<SiblingGroup>>) -> bool {
    &&& (forall|p: int, i: int|
        0 <= p < passes.len() && 0 <= i < passes[p]@.len() ==> (#[trigger] passes[p]@[i]).children@.len()
            > 0)
    &&& (forall|p: int, i: int, q: int, j: int|
        0 <= p < passes.len() && 0 <= i < passes[p]@.len() && 0 <= q < passes.len() && 0 <= j
            < passes[q]@.len() && (p != q || i != j) ==> (#[trigger] passes[p]@[i]).parent != (
        #[trigger] passes[q]@[j]).parent)
    &&& (forall|p: int, z: u64|
        0 <= p < passes.len() && #[trigger] pass_has_parent(passes[p]@, z)
            ==> !pass_has_child(passes[p]@, z))
    &&& (forall|p: int, q: int, z: u64|
        #![trigger pass_has_child(passes[p]@, z), pass_has_child(passes[q]@, z)]
        0 <= p < q < passes.len() && pass_has_child(passes[p]@, z) ==> !pass_has_child(
            passes[q]@,
            z,
        ))
    &&& (forall|p: int, q: int, z: u64|
        #![trigger pass_has_child(passes[p]@, z), pass_has_parent(passes[q]@, z)]
        0 <= p < q < passes.len() && pass_has_child(passes[p]@, z) ==> !pass_has_parent(
            passes[q]@,
            z,
        ))
}

/// Whether some zone of `s` is a child of `g`.
pub open spec fn has_any_child(s: Seq<u64>, g: SiblingGroup) -> bool {
    exists|i: int| 0 <= i < s.len() && g.children@.contains(#[trigger] s[i])
}

/// Whether some group of `gs` has `z` as its parent.
fn pass_contains_parent(gs: &Vec<SiblingGroup>, z: u64) -> (r: bool)
    ensures
        r == pass_has_parent(gs@, z),
{
    let n = gs.len();
    for i in 0..n
        invariant
            n == gs@.len(),
            forall|i2: int| 0 <= i2 < i ==> (#[trigger] gs@[i2]).parent != z,
    {
        if gs[i].parent == z {
            proof {
                assert(pass_has_parent(gs@, z));
            }
            return true;
        }
    }
    false
}

/// Whether some group of `gs` has `z` among its children.
fn pass_contains_child(gs: &Vec<SiblingGroup>, z: u64) -> (r: bool)
    ensures
        r == pass_has_child(gs@, z),
{
    let n = gs.len();
    for i in 0..n
        invariant
            n == gs@.len(),
            forall|i2: int, j2: int|
                0 <= i2 < i && 0 <= j2 < gs@[i2].children@.len() ==> #[trigger] gs@[i2].children@[j2]
                    != z,
    {
        if crate::zone::zones_contain(&gs[i].children, z) {
            proof {
                let j = choose|j: int|
                    0 <= j < gs@[i as int].children@.len() && gs@[i as int].children@[j] == z;
                assert(gs@[i as int].children@[j] == z);
                assert(pass_has_child(gs@, z));
            }
            return true;
        }
    }
    false
}

/// Whether every group of every pass has at least one child.
fn groups_nonempty(passes: &Vec<Vec<SiblingGroup>>) -> (r: bool)
    ensures
        r == (forall|p: int, i: int|
            0 <= p < passes@.len() && 0 <= i < passes@[p]@.len() ==> (
            #[trigger] passes@[p]@[i]).children@.len() > 0),
{
    let m = passes.len();
    for p in 0..m
        invariant
            m == passes@.len(),
            forall|p2: int, i2: int|
                0 <= p2 < p && 0 <= i2 < passes@[p2]@.len() ==> (
                #[trigger] passes@[p2]@[i2]).children@.len() > 0,
    {
        let gs = &passes[p];
        let k = gs.len();
        for i in 0..k
            invariant
                m == passes@.len(),
                p < m,
                k == gs@.len(),
                gs@ == passes@[p as int]@,
                forall|i2: int|
                    0 <= i2 < i ==> (#[trigger] gs@[i2]).children@.len() > 0,
        {
            if gs[i].children.len() == 0 {
                proof {
                    assert(passes@[p as int]@[i as int].children@.len() == 0);
                }
                return false;
            }
        }
    }
    true
}

/// Whether no zone is the parent of two groups, over all passes.
fn parents_distinct(passes: &Vec<Vec<SiblingGroup>>) -> (r: bool)
    ensures
        r == (forall|p: int, i: int, q: int, j: int|
            0 <= p < passes@.len() && 0 <= i < passes@[p]@.len() && 0 <= q < passes@.len() && 0 <= j
                < passes@[q]@.len() && (p != q || i != j) ==> (#[trigger] passes@[p]@[i]).parent
                != (#[trigger] passes@[q]@[j]).parent),
{
    let m = passes.len();
    for p in 0..m
        invariant
            m == passes@.len(),
            forall|p2: int, i2: int, q: int, j: int|
                0 <= p2 < p && 0 <= i2 < passes@[p2]@.len() && 0 <= q < passes@.len() && 0 <= j
                    < passes@[q]@.len() && (p2 != q || i2 != j) ==> (
                #[trigger] passes@[p2]@[i2]).parent != (#[trigger] passes@[q]@[j]).parent,
    {
        let gs = &passes[p];
        let k = gs.len();
        for i in 0..k
            invariant
                m == passes@.len(),
                k == gs@.len(),
                gs@ == passes@[p as int]@,
                p < m,
                forall|p2: int, i2: int, q: int, j: int|
                    0 <= p2 < p && 0 <= i2 < passes@[p2]@.len() && 0 <= q < passes@.len() && 0 <= j
                        < passes@[q]@.len() && (p2 != q || i2 != j) ==> (
                    #[trigger] passes@[p2]@[i2]).parent != (#[trigger] passes@[q]@[j]).parent,
                forall|i2: int, q: int, j: int|
                    0 <= i2 < i && 0 <= q < passes@.len() && 0 <= j < passes@[q]@.len() && (p
                        != q || i2 != j) ==> (#[trigger] passes@[p as int]@[i2]).parent != (
                    #[trigger] passes@[q]@[j]).parent,
        {
            let parent = gs[i].parent;
            for q in 0..m
                invariant
                    m == passes@.len(),
                    k == gs@.len(),
                    gs@ == passes@[p as int]@,
                    p < m,
                    i < k,
                    parent == passes@[p as int]@[i as int].parent,
                    forall|q2: int, j: int|
                        0 <= q2 < q && 0 <= j < passes@[q2]@.len() && (p != q2 || i != j) ==> (
                        #[trigger] passes@[q2]@[j]).parent != parent,
            {
                let hs = &passes[q];
                let l = hs.len();
                for j in 0..l
                    invariant
                        m == passes@.len(),
                        k == gs@.len(),
                        gs@ == passes@[p as int]@,
                        l == hs@.len(),
                        hs@ == passes@[q as int]@,
                        p < m,
                        i < k,
                        q < m,
                        parent == passes@[p as int]@[i as int].parent,
                        forall|j2: int|
                            0 <= j2 < j && (p != q || i != j2) ==> (
                            #[trigger] passes@[q as int]@[j2]).parent != parent,
                {
                    if (p != q || i != j) && hs[j].parent == parent {
                        return false;
                    }
                }
            }
        }
    }
    true
}

/// Whether, within each pass, no group's parent is another group's
/// child.
fn no_parent_is_sibling(passes: &Vec<Vec<SiblingGroup>>) -> (r: bool)
    ensures
        r == (forall|p: int, i: int|
            0 <= p < passes@.len() && 0 <= i < passes@[p]@.len() ==> !pass_has_child(
                passes@[p]@,
                (#[trigger] passes@[p]@[i]).parent,
            )),
{
    let m = passes.len();
    for p in 0..m
        invariant
            m == passes@.len(),
            forall|p2: int, i2: int|
                0 <= p2 < p && 0 <= i2 < passes@[p2]@.len() ==> !pass_has_child(
                    passes@[p2]@,
                    (#[trigger] passes@[p2]@[i2]).parent,
                ),
    {
        let gs = &passes[p];
        let k = gs.len();
        for i in 0..k
            invariant
                m == passes@.len(),
                p < m,
                k == gs@.len(),
                gs@ == passes@[p as int]@,
                forall|i2: int|
                    0 <= i2 < i ==> !pass_has_child(
                        passes@[p as int]@,
                        (#[trigger] gs@[i2]).parent,
                    ),
        {
            if pass_contains_child(gs, gs[i].parent) {
                proof {
                    assert(pass_has_child(
                        passes@[p as int]@,
                        passes@[p as int]@[i as int].parent,
                    ));
                }
                return false;
            }
        }
    }
    true
}

/// Whether a child zone of an earlier pass appears in no later pass,
/// neither as a child nor as a parent.
fn passes_stratified(passes: &Vec<Vec<SiblingGroup>>) -> (r: bool)
    ensures
        r == (forall|p: int, i: int, c: int, q: int|
            #![trigger passes@[p]@[i].children@[c], passes@[q]@]
            0 <= p < passes@.len() && 0 <= i < passes@[p]@.len() && 0 <= c
                < passes@[p]@[i].children@.len() && p < q < passes@.len() ==> !pass_has_child(
                passes@[q]@,
                passes@[p]@[i].children@[c],
            ) && !pass_has_parent(passes@[q]@, passes@[p]@[i].children@[c])),
{
    let m = passes.len();
    for p in 0..m
        invariant
            m == passes@.len(),
            forall|p2: int, i: int, c: int, q: int|
                #![trigger passes@[p2]@[i].children@[c], passes@[q]@]
                0 <= p2 < p && 0 <= i < passes@[p2]@.len() && 0 <= c
                    < passes@[p2]@[i].children@.len() && p2 < q < passes@.len()
                    ==> !pass_has_child(passes@[q]@, passes@[p2]@[i].children@[c])
                    && !pass_has_parent(passes@[q]@, passes@[p2]@[i].children@[c]),
    {
        let gs = &passes[p];
        let k = gs.len();
        for i in 0..k
            invariant
                m == passes@.len(),
                k == gs@.len(),
                gs@ == passes@[p as int]@,
                p < m,
                forall|i2: int, c: int, q: int|
                    #![trigger gs@[i2].children@[c], passes@[q]@]
                    0 <= i2 < i && 0 <= c < gs@[i2].children@.len() && p < q < passes@.len()
                        ==> !pass_has_child(passes@[q]@, gs@[i2].children@[c])
                        && !pass_has_parent(passes@[q]@, gs@[i2].children@[c]),
        {
            let children = &gs[i].children;
            let nc = children.len();
            for c in 0..nc
                invariant
                    m == passes@.len(),
                    k == gs@.len(),
                    gs@ == passes@[p as int]@,
                    p < m,
                    i < k,
                    nc == children@.len(),
                    children@ == gs@[i as int].children@,
                    forall|c2: int, q: int|
                        #![trigger children@[c2], passes@[q]@]
                        0 <= c2 < c && p < q < passes@.len() ==> !pass_has_child(
                            passes@[q]@,
                            children@[c2],
                        ) && !pass_has_parent(passes@[q]@, children@[c2]),
            {
                let z = children[c];
                let mut q = p + 1;
                while q < m
                    invariant
                        m == passes@.len(),
                        p < q,
                        p < m,
                        i < k,
                        k == passes@[p as int]@.len(),
                        c < nc,
                        nc == children@.len(),
                        children@ == passes@[p as int]@[i as int].children@,
                        z == children@[c as int],
                        forall|q2: int|
                            p < q2 < q ==> !pass_has_child(#[trigger] passes@[q2]@, z)
                                && !pass_has_parent(passes@[q2]@, z),
                    decreases m - q,
                {
                    if pass_contains_child(&passes[q], z) || pass_contains_parent(&passes[q], z) {
                        proof {
                            assert(z == passes@[p as int]@[i as int].children@[c as int]);
                            assert(pass_has_child(passes@[q as int]@, z) || pass_has_parent(
                                passes@[q as int]@,
                                z,
                            ));
                        }
                        return false;
                    }
                    q = q + 1;
                }
            }
        }
    }
    true
}

/// Decide whether hierarchy data is well-formed, so that the
/// compaction laws apply to it.
pub fn check_hierarchy(passes: &Vec<Vec<SiblingGroup>>) -> (r: bool)
    ensures
        r == well_formed_hierarchy(passes@),
{
    let nonempty = groups_nonempty(passes);
    let distinct = parents_distinct(passes);
    let no_sibling_parent = no_parent_is_sibling(passes);
    let stratified = passes_stratified(passes);
    let r = nonempty && distinct && no_sibling_parent && stratified;
    proof {
        // the index-quantified checks say the same as the zone-
        // quantified well-formedness clauses
        if no_sibling_parent {
            assert forall|p: int, z: u64|
                0 <= p < passes@.len() && #[trigger] pass_has_parent(
                    passes@[p]@,
                    z,
                ) implies !pass_has_child(passes@[p]@, z) by {
                let i = choose|i: int|
                    0 <= i < passes@[p]@.len() && (#[trigger] passes@[p]@[i]).parent == z;
                assert(!pass_has_child(passes@[p]@, passes@[p]@[i].parent));
            }
        }
        if stratified {
            assert forall|p: int, q: int, z: u64|
                #![trigger pass_has_child(passes@[p]@, z), pass_has_child(passes@[q]@, z)]
                0 <= p < q < passes@.len() && pass_has_child(
                    passes@[p]@,
                    z,
                ) implies !pass_has_child(passes@[q]@, z) by {
                let (i, c): (int, int) = choose|i: int, c: int|
                    0 <= i < passes@[p]@.len() && 0 <= c < passes@[p]@[i].children@.len()
                        && passes@[p]@[i].children@[c] == z;
                assert(!pass_has_child(passes@[q]@, passes@[p]@[i].children@[c]));
            }
            assert forall|p: int, q: int, z: u64|
                #![trigger pass_has_child(passes@[p]@, z), pass_has_parent(passes@[q]@, z)]
                0 <= p < q < passes@.len() && pass_has_child(
                    passes@[p]@,
                    z,
                ) implies !pass_has_parent(passes@[q]@, z) by {
                let (i, c): (int, int) = choose|i: int, c: int|
                    0 <= i < passes@[p]@.len() && 0 <= c < passes@[p]@[i].children@.len()
                        && passes@[p]@[i].children@[c] == z;
                assert(!pass_has_parent(passes@[q]@, passes@[p]@[i].children@[c]));
            }
        }
        if well_formed_hierarchy(passes@) {
            assert(nonempty);
            assert(distinct);
            assert forall|p: int, i: int|
                0 <= p < passes@.len() && 0 <= i < passes@[p]@.len() implies !pass_has_child(
                passes@[p]@,
                (#[trigger] passes@[p]@[i]).parent,
            ) by {
                if pass_has_child(passes@[p]@, passes@[p]@[i].parent) {
                    assert(pass_has_parent(passes@[p]@, passes@[p]@[i].parent));
                }
            }
            assert forall|p: int, i: int, c: int, q: int|
                #![trigger passes@[p]@[i].children@[c], passes@[q]@]
                0 <= p < passes@.len() && 0 <= i < passes@[p]@.len() && 0 <= c
                    < passes@[p]@[i].children@.len() && p < q < passes@.len()
                    implies !pass_has_child(passes@[q]@, passes@[p]@[i].children@[c])
                    && !pass_has_parent(passes@[q]@, passes@[p]@[i].children@[c]) by {
                assert(pass_has_child(passes@[p]@, passes@[p]@[i].children@[c]));
            }
        }
    }
    r
}

/// Membership in a sequence with one element prepended.
proof fn lemma_cons_contains(h: u64, t: Seq<u64>, x: u64)
    ensures
        (seq![h] + t).contains(x) <==> x == h || t.contains(x),
{
    let c = seq![h] + t;
    if c.contains(x) {
        let i = choose|i: int| 0 <= i < c.len() && c[i] == x;
        if i > 0 {
            assert(t[i - 1] == x);
        }
    }
    if t.contains(x) {
        let i = choose|i: int| 0 <= i < t.len() && t[i] == x;
        assert(c[i + 1] == x);
    }
    assert(c[0] == h);
}

/// Membership split at the head of a non-empty sequence.
proof fn lemma_head_tail_contains(s: Seq<u64>, x: u64)
    requires
        s.len() > 0,
    ensures
        s.contains(x) <==> x == s[0] || s.drop_first().contains(x),
{
    if s.contains(x) {
        let i = choose|i: int| 0 <= i < s.len() && s[i] == x;
        if i > 0 {
            assert(s.drop_first()[i - 1] == x);
        }
    }
    if s.drop_first().contains(x) {
        let i = choose|i: int| 0 <= i < s.drop_first().len() && s.drop_first()[i] == x;
        assert(s[i + 1] == x);
    }
}

/// `has_any_child` split at the head of a non-empty sequence.
proof fn lemma_has_any_child_split(s: Seq<u64>, g: SiblingGroup)
    requires
        s.len() > 0,
    ensures
        has_any_child(s, g) <==> g.children@.contains(s[0]) || has_any_child(s.drop_first(), g),
{
    if has_any_child(s, g) {
        let i = choose|i: int| 0 <= i < s.len() && g.children@.contains(#[trigger] s[i]);
        if i > 0 {
            assert(s.drop_first()[i - 1] == s[i]);
            assert(g.children@.contains(s.drop_first()[i - 1]));
        }
    }
    if g.children@.contains(s[0]) {
        assert(g.children@.contains(s[0]));
    }
    if has_any_child(s.drop_first(), g) {
        let i = choose|i: int|
            0 <= i < s.drop_first().len() && g.children@.contains(#[trigger] s.drop_first()[i]);
        assert(s[i + 1] == s.drop_first()[i]);
        assert(g.children@.contains(s[i + 1]));
    }
}

/// What the merge scan keeps: zones outside the group survive, the
/// group's children disappear, and the parent appears exactly when the
/// parent had not been emitted yet and some child was present.
proof fn lemma_merge_scan_membership(s: Seq<u64>, g: SiblingGroup, replaced: bool, x: u64)
    ensures
        merge_scan(s, g, replaced).contains(x) <==> ((s.contains(x) && !g.children@.contains(x))
            || (!replaced && x == g.parent && has_any_child(s, g))),
    decreases s.len(),
{
    if s.len() == 0 {
    } else {
        let rest = s.drop_first();
        lemma_head_tail_contains(s, x);
        lemma_has_any_child_split(s, g);
        if !g.children@.contains(s[0]) {
            lemma_merge_scan_membership(rest, g, replaced, x);
            lemma_cons_contains(s[0], merge_scan(rest, g, replaced), x);
        } else if !replaced {
            lemma_merge_scan_membership(rest, g, true, x);
            lemma_cons_contains(g.parent, merge_scan(rest, g, true), x);
            assert(has_any_child(s, g));
        } else {
            lemma_merge_scan_membership(rest, g, true, x);
        }
    }
}

/// What applying one group does to membership: when the group is merged,
/// its children leave, its parent enters, and everything else stays; when
/// it is not merged, nothing changes.
pub proof fn lemma_apply_group_membership(s: Seq<u64>, g: SiblingGroup, x: u64)
    ensures
        group_applicable(s, g) ==> (apply_group(s, g).contains(x) <==> ((s.contains(x)
            && !g.children@.contains(x)) || x == g.parent)),
        !group_applicable(s, g) ==> apply_group(s, g) == s,
{
    if group_applicable(s, g) {
        lemma_merge_scan_membership(s, g, false, x);
        let c0 = g.children@[0];
        assert(s.contains(c0));
        let i = choose|i: int| 0 <= i < s.len() && s[i] == c0;
        assert(g.children@.contains(s[i]));
        assert(has_any_child(s, g));
    }
}

/// The merge scan emits the parent at most once and otherwise keeps
/// distinct zones distinct: it never introduces a duplicate.
proof fn lemma_merge_scan_no_dups(s: Seq<u64>, g: SiblingGroup, replaced: bool)
    requires
        crate::zone::no_dups(s),
        !s.contains(g.parent),
    ensures
        crate::zone::no_dups(merge_scan(s, g, replaced)),
    decreases s.len(),
{
    if s.len() == 0 {
    } else {
        let rest = s.drop_first();
        assert forall|i: int| 0 <= i < rest.len() implies rest[i] == s[i + 1] by {}
        assert(crate::zone::no_dups(rest));
        assert(!rest.contains(g.parent)) by {
            if rest.contains(g.parent) {
                let i = choose|i: int| 0 <= i < rest.len() && rest[i] == g.parent;
                assert(s[i + 1] == g.parent);
            }
        }
        if !g.children@.contains(s[0]) {
            lemma_merge_scan_no_dups(rest, g, replaced);
            let tail = merge_scan(rest, g, replaced);
            assert(!tail.contains(s[0])) by {
                lemma_merge_scan_membership(rest, g, replaced, s[0]);
                if rest.contains(s[0]) {
                    let i = choose|i: int| 0 <= i < rest.len() && rest[i] == s[0];
                    assert(s[i + 1] == s[0]);
                }
                assert(s.contains(s[0]));
            }
            let whole = seq![s[0]] + tail;
            assert forall|i: int, j: int| 0 <= i < j < whole.len() implies whole[i]
                != whole[j] by {
                if i == 0 {
                    assert(whole[j] == tail[j - 1]);
                    assert(tail.contains(tail[j - 1]));
                } else {
                    assert(whole[i] == tail[i - 1]);
                    assert(whole[j] == tail[j - 1]);
                }
            }
        } else if !replaced {
            lemma_merge_scan_no_dups(rest, g, true);
            let tail = merge_scan(rest, g, true);
            assert(!tail.contains(g.parent)) by {
                lemma_merge_scan_membership(rest, g, true, g.parent);
            }
            let whole = seq![g.parent] + tail;
            assert forall|i: int, j: int| 0 <= i < j < whole.len() implies whole[i]
                != whole[j] by {
                if i == 0 {
                    assert(whole[j] == tail[j - 1]);
                    assert(tail.contains(tail[j - 1]));
                } else {
                    assert(whole[i] == tail[i - 1]);
                    assert(whole[j] == tail[j - 1]);
                }
            }
        } else {
            lemma_merge_scan_no_dups(rest, g, true);
        }
    }
}

/// Compaction never introduces a duplicate zone: a listed set, each
/// zone once, stays that way through every pass.
pub proof fn lemma_compact_preserves_no_dups(zones: Seq<u64>, passes: Seq<Vec<SiblingGroup>>)
    requires
        crate::zone::no_dups(zones),
    ensures
        crate::zone::no_dups(run_passes(zones, passes)),
    decreases passes.len(),
{
    if passes.len() == 0 {
    } else {
        lemma_run_pass_preserves_no_dups(zones, passes[0]@);
        lemma_compact_preserves_no_dups(run_pass(zones, passes[0]@), passes.drop_first());
    }
}

/// One pass never introduces a duplicate zone.
proof fn lemma_run_pass_preserves_no_dups(s: Seq<u64>, gs: Seq<SiblingGroup>)
    requires
        crate::zone::no_dups(s),
    ensures
        crate::zone::no_dups(run_pass(s, gs)),
    decreases gs.len(),
{
    if gs.len() == 0 {
    } else {
        if group_applicable(s, gs[0]) {
            lemma_merge_scan_no_dups(s, gs[0], false);
        }
        lemma_run_pass_preserves_no_dups(apply_group(s, gs[0]), gs.drop_first());
    }
}

/// Running the passes from index `p` on: the tail of `run_passes` that
/// keeps the pass indices visible.
spec fn run_from(s: Seq<u64>, passes: Seq<Vec<SiblingGroup>>, p: int) -> Seq<u64>
    decreases passes.len() - p,
{
    if p < 0 || p >= passes.len() {
        s
    } else {
        run_from(run_pass(s, passes[p]@), passes, p + 1)
    }
}

/// `run_from` at index 0 is full compaction.
proof fn lemma_run_from_equals_run_passes(s: Seq<u64>, passes: Seq<Vec<SiblingGroup>>, p: int)
    requires
        0 <= p <= passes.len(),
    ensures
        run_from(s, passes, p) == run_passes(s, passes.skip(p)),
    decreases passes.len() - p,
{
    if p == passes.len() {
        assert(passes.skip(p) =~= Seq::<Vec<SiblingGroup>>::empty());
    } else {
        assert(passes.skip(p)[0] == passes[p]);
        assert(passes.skip(p).drop_first() =~= passes.skip(p + 1));
        lemma_run_from_equals_run_passes(run_pass(s, passes[p]@), passes, p + 1);
    }
}

/// A zone of a pass's result was either there before or is the parent of
/// one of the pass's groups.
proof fn lemma_run_pass_sources(s: Seq<u64>, gs: Seq<SiblingGroup>, x: u64)
    ensures
        run_pass(s, gs).contains(x) ==> s.contains(x) || pass_has_parent(gs, x),
    decreases gs.len(),
{
    if gs.len() == 0 {
    } else {
        let s1 = apply_group(s, gs[0]);
        lemma_run_pass_sources(s1, gs.drop_first(), x);
        lemma_apply_group_membership(s, gs[0], x);
        if run_pass(s, gs).contains(x) {
            if s1.contains(x) {
                if !s.contains(x) {
                    assert(x == gs[0].parent);
                    assert(pass_has_parent(gs, x));
                }
            } else {
                assert(pass_has_parent(gs.drop_first(), x));
                let i = choose|i: int|
                    0 <= i < gs.drop_first().len() && (#[trigger] gs.drop_first()[i]).parent == x;
                assert(gs[i + 1].parent == x);
                assert(pass_has_parent(gs, x));
            }
        }
    }
}

/// A zone of the final result was either in the state at pass `p` or is
/// the parent of a group of one of the passes from `p` on.
proof fn lemma_run_from_sources(s: Seq<u64>, passes: Seq<Vec<SiblingGroup>>, p: int, x: u64)
    requires
        0 <= p,
    ensures
        run_from(s, passes, p).contains(x) ==> s.contains(x) || exists|q: int|
            p <= q < passes.len() && pass_has_parent(#[trigger] passes[q]@, x),
    decreases passes.len() - p,
{
    if p >= passes.len() {
    } else {
        let s1 = run_pass(s, passes[p]@);
        lemma_run_from_sources(s1, passes, p + 1, x);
        lemma_run_pass_sources(s, passes[p]@, x);
        if run_from(s, passes, p).contains(x) && !s.contains(x) {
            if s1.contains(x) {
                assert(pass_has_parent(passes[p]@, x));
            }
        }
    }
}

/// After one pass, every group of that pass is missing at least one
/// child, provided no group's parent was present beforehand.
proof fn lemma_run_pass_incomplete(s: Seq<u64>, gs: Seq<SiblingGroup>)
    requires
        forall|i: int, j: int|
            0 <= i < gs.len() && 0 <= j < gs.len() && i != j ==> (#[trigger] gs[i]).parent != (
            #[trigger] gs[j]).parent,
        forall|i: int, j: int|
            0 <= i < gs.len() && 0 <= j < gs.len() ==> !(#[trigger] gs[j]).children@.contains(
                (#[trigger] gs[i]).parent,
            ),
        forall|i: int| 0 <= i < gs.len() ==> !s.contains((#[trigger] gs[i]).parent),
        forall|i: int| 0 <= i < gs.len() ==> (#[trigger] gs[i]).children@.len() > 0,
    ensures
        forall|i: int|
            0 <= i < gs.len() ==> !group_complete(run_pass(s, gs), #[trigger] gs[i]),
    decreases gs.len(),
{
    if gs.len() == 0 {
    } else {
        let g0 = gs[0];
        let rest = gs.drop_first();
        let s1 = apply_group(s, g0);
        assert forall|i: int| 0 <= i < rest.len() implies !s1.contains(
            (#[trigger] rest[i]).parent,
        ) by {
            assert(rest[i] == gs[i + 1]);
            lemma_apply_group_membership(s, g0, rest[i].parent);
        }
        assert forall|i: int, j: int|
            0 <= i < rest.len() && 0 <= j < rest.len() && i != j implies (#[trigger] rest[i]).parent
            != (#[trigger] rest[j]).parent by {
            assert(rest[i] == gs[i + 1]);
            assert(rest[j] == gs[j + 1]);
        }
        assert forall|i: int, j: int|
            0 <= i < rest.len() && 0 <= j < rest.len() implies !(#[trigger] rest[j]).children@.contains(
            (#[trigger] rest[i]).parent,
        ) by {
            assert(rest[i] == gs[i + 1]);
            assert(rest[j] == gs[j + 1]);
        }
        assert forall|i: int| 0 <= i < rest.len() implies (#[trigger] rest[i]).children@.len()
            > 0 by {
            assert(rest[i] == gs[i + 1]);
        }
        lemma_run_pass_incomplete(s1, rest);
        let result = run_pass(s, gs);
        assert(result == run_pass(s1, rest));
        assert forall|i: int| 0 <= i < gs.len() implies !group_complete(
            result,
            #[trigger] gs[i],
        ) by {
            if i == 0 {
                // find a child of g0 that is absent from s1 and can never return
                let c = if group_applicable(s, g0) {
                    g0.children@[0]
                } else {
                    // not applicable, parent absent and children non-empty,
                    // so some child is missing from s
                    choose|c: u64| g0.children@.contains(c) && !s.contains(c)
                };
                if group_applicable(s, g0) {
                    lemma_apply_group_membership(s, g0, c);
                    assert(g0.children@.contains(c));
                    assert(!s1.contains(c));
                } else {
                    assert(!group_complete(s, g0));
                    let k = choose|k: int|
                        0 <= k < g0.children@.len() && !s.contains(#[trigger] g0.children@[k]);
                    assert(g0.children@.contains(g0.children@[k]) && !s.contains(
                        g0.children@[k],
                    ));
                    lemma_apply_group_membership(s, g0, c);
                    assert(!s1.contains(c));
                }
                assert(g0.children@.contains(c));
                assert(!s1.contains(c));
                lemma_run_pass_sources(s1, rest, c);
                assert(!pass_has_parent(rest, c)) by {
                    if pass_has_parent(rest, c) {
                        let k = choose|k: int|
                            0 <= k < rest.len() && (#[trigger] rest[k]).parent == c;
                        assert(rest[k] == gs[k + 1]);
                        assert(gs[0].children@.contains(gs[k + 1].parent));
                    }
                }
                assert(!result.contains(c));
                let kk = choose|kk: int| 0 <= kk < g0.children@.len() && g0.children@[kk] == c;
                assert(!result.contains(g0.children@[kk]));
            } else {
                assert(gs[i] == rest[i - 1]);
            }
        }
    }
}

/// After compaction has run from pass `p0` on, every group of those
/// passes is missing at least one child, provided no group's parent was
/// present at the start.
proof fn lemma_run_from_all_incomplete(s: Seq<u64>, passes: Seq<Vec<SiblingGroup>>, p0: int)
    requires
        well_formed_hierarchy(passes),
        0 <= p0 <= passes.len(),
        forall|q: int, i: int|
            p0 <= q < passes.len() && 0 <= i < passes[q]@.len() ==> !s.contains(
                (#[trigger] passes[q]@[i]).parent,
            ),
    ensures
        forall|q: int, i: int|
            p0 <= q < passes.len() && 0 <= i < passes[q]@.len() ==> !group_complete(
                run_from(s, passes, p0),
                #[trigger] passes[q]@[i],
            ),
    decreases passes.len() - p0,
{
    if p0 == passes.len() {
    } else {
        let gs = passes[p0]@;
        let s1 = run_pass(s, gs);
        let result = run_from(s, passes, p0);
        assert(result == run_from(s1, passes, p0 + 1));

        // this pass meets the single-pass lemma's conditions
        assert forall|i: int, j: int|
            0 <= i < gs.len() && 0 <= j < gs.len() implies !(#[trigger] gs[j]).children@.contains(
            (#[trigger] gs[i]).parent,
        ) by {
            if gs[j].children@.contains(gs[i].parent) {
                let k = choose|k: int|
                    0 <= k < gs[j].children@.len() && gs[j].children@[k] == gs[i].parent;
                assert(pass_has_parent(gs, gs[i].parent));
                assert(pass_has_child(gs, gs[i].parent));
            }
        }
        lemma_run_pass_incomplete(s, gs);

        // no parent of a later pass has appeared in this pass's result
        assert forall|q: int, i: int|
            p0 + 1 <= q < passes.len() && 0 <= i < passes[q]@.len() implies !s1.contains(
            (#[trigger] passes[q]@[i]).parent,
        ) by {
            let parent = passes[q]@[i].parent;
            lemma_run_pass_sources(s, gs, parent);
            if s1.contains(parent) {
                assert(pass_has_parent(gs, parent));
                let k = choose|k: int| 0 <= k < gs.len() && (#[trigger] gs[k]).parent == parent;
                assert(passes[p0]@[k].parent == passes[q]@[i].parent);
            }
        }
        lemma_run_from_all_incomplete(s1, passes, p0 + 1);

        // this pass's groups stay incomplete through the later passes
        assert forall|q: int, i: int|
            p0 <= q < passes.len() && 0 <= i < passes[q]@.len() implies !group_complete(
            result,
            #[trigger] passes[q]@[i],
        ) by {
            if q == p0 {
                let g = gs[i];
                assert(!group_complete(s1, g));
                let k = choose|k: int|
                    0 <= k < g.children@.len() && !s1.contains(#[trigger] g.children@[k]);
                let c = g.children@[k];
                assert(pass_has_child(gs, c));
                lemma_run_from_sources(s1, passes, p0 + 1, c);
                if result.contains(c) {
                    let q2 = choose|q2: int|
                        p0 + 1 <= q2 < passes.len() && pass_has_parent(#[trigger] passes[q2]@, c);
                    assert(pass_has_child(passes[p0]@, c) && !pass_has_parent(passes[q2]@, c));
                }
                assert(!result.contains(g.children@[k]));
            }
        }
    }
}

/// A pass whose groups are all incomplete changes nothing.
proof fn lemma_run_pass_noop(s: Seq<u64>, gs: Seq<SiblingGroup>)
    requires
        forall|i: int| 0 <= i < gs.len() ==> !group_complete(s, #[trigger] gs[i]),
    ensures
        run_pass(s, gs) == s,
    decreases gs.len(),
{
    if gs.len() == 0 {
    } else {
        assert(!group_applicable(s, gs[0]));
        assert(apply_group(s, gs[0]) == s);
        assert forall|i: int| 0 <= i < gs.drop_first().len() implies !group_complete(
            s,
            #[trigger] gs.drop_first()[i],
        ) by {
            assert(gs.drop_first()[i] == gs[i + 1]);
        }
        lemma_run_pass_noop(s, gs.drop_first());
    }
}

/// Passes whose groups are all incomplete change nothing.
proof fn lemma_run_from_noop(s: Seq<u64>, passes: Seq<Vec<SiblingGroup>>, p0: int)
    requires
        0 <= p0 <= passes.len(),
        forall|q: int, i: int|
            p0 <= q < passes.len() && 0 <= i < passes[q]@.len() ==> !group_complete(
                s,
                #[trigger] passes[q]@[i],
            ),
    ensures
        run_from(s, passes, p0) == s,
    decreases passes.len() - p0,
{
    if p0 == passes.len() {
    } else {
        lemma_run_pass_noop(s, passes[p0]@);
        lemma_run_from_noop(s, passes, p0 + 1);
    }
}

/// Compaction is idempotent: compacting an already-compacted zone set
/// against the same well-formed hierarchy data returns it unchanged.
/// The input set must not already hold a zone that the hierarchy data
/// knows as a parent (a listed set at one level never does).
pub proof fn lemma_compact_idempotent(zones: Seq<u64>, passes: Seq<Vec<SiblingGroup>>)
    requires
        well_formed_hierarchy(passes),
        forall|q: int, i: int|
            0 <= q < passes.len() && 0 <= i < passes[q]@.len() ==> !zones.contains(
                (#[trigger] passes[q]@[i]).parent,
            ),
    ensures
        run_passes(run_passes(zones, passes), passes) == run_passes(zones, passes),
{
    let r = run_from(zones, passes, 0);
    lemma_run_from_equals_run_passes(zones, passes, 0);
    assert(passes.skip(0) =~= passes);
    lemma_run_from_all_incomplete(zones, passes, 0);
    lemma_run_from_noop(r, passes, 0);
    lemma_run_from_equals_run_passes(r, passes, 0);
}

/// A pass holds no group for `z` exactly when `z` is no group's parent.
proof fn lemma_find_group_none(gs: Seq<SiblingGroup>, z: u64)
    ensures
        (find_group(gs, z) is None) <==> !pass_has_parent(gs, z),
    decreases gs.len(),
{
    if gs.len() == 0 {
    } else {
        lemma_find_group_none(gs.drop_first(), z);
        if gs[0].parent == z {
            assert(pass_has_parent(gs, z));
        } else {
            if pass_has_parent(gs.drop_first(), z) {
                let i = choose|i: int|
                    0 <= i < gs.drop_first().len() && (#[trigger] gs.drop_first()[i]).parent == z;
                assert(gs[i + 1].parent == z);
                assert(pass_has_parent(gs, z));
            }
            if pass_has_parent(gs, z) {
                let i = choose|i: int| 0 <= i < gs.len() && (#[trigger] gs[i]).parent == z;
                assert(i > 0);
                assert(gs.drop_first()[i - 1].parent == z);
                assert(pass_has_parent(gs.drop_first(), z));
            }
        }
    }
}

/// With distinct parents, looking a group's parent up finds that group.
proof fn lemma_find_group_some(gs: Seq<SiblingGroup>, g: SiblingGroup)
    requires
        forall|i: int, j: int|
            0 <= i < gs.len() && 0 <= j < gs.len() && i != j ==> (#[trigger] gs[i]).parent != (
            #[trigger] gs[j]).parent,
        gs.contains(g),
    ensures
        find_group(gs, g.parent) == Some(g),
    decreases gs.len(),
{
    let i0 = choose|i: int| 0 <= i < gs.len() && gs[i] == g;
    if gs[0].parent == g.parent {
        assert(i0 == 0);
    } else {
        assert(i0 > 0);
        assert(gs.drop_first()[i0 - 1] == g);
        assert(gs.drop_first().contains(g));
        assert forall|i: int, j: int|
            0 <= i < gs.drop_first().len() && 0 <= j < gs.drop_first().len() && i != j implies (
        #[trigger] gs.drop_first()[i]).parent != (#[trigger] gs.drop_first()[j]).parent by {
            assert(gs.drop_first()[i] == gs[i + 1]);
            assert(gs.drop_first()[j] == gs[j + 1]);
        }
        lemma_find_group_some(gs.drop_first(), g);
    }
}

/// A zone that no pass between `lo` and `hi` knows as a parent has the
/// same descendants whether the walk starts at `hi` or at `lo`.
proof fn lemma_descendants_fall_through(
    passes: Seq<Vec<SiblingGroup>>,
    z: u64,
    hi: nat,
    lo: nat,
)
    requires
        lo <= hi <= passes.len(),
        forall|q: int| lo <= q < hi ==> !pass_has_parent(#[trigger] passes[q]@, z),
    ensures
        descendants(passes, z, hi) == descendants(passes, z, lo),
    decreases hi - lo,
{
    if hi == lo {
    } else {
        lemma_find_group_none(passes[hi - 1]@, z);
        assert(find_group(passes[hi - 1]@, z) is None);
        lemma_descendants_fall_through(passes, z, (hi - 1) as nat, lo);
    }
}

/// A child of a group of pass `p` expands the same way from the top of
/// the hierarchy as from pass `p`: no pass at or above `p` knows it as a
/// parent.
proof fn lemma_child_descendants(
    passes: Seq<Vec<SiblingGroup>>,
    g: SiblingGroup,
    p: int,
    c: u64,
)
    requires
        well_formed_hierarchy(passes),
        0 <= p < passes.len(),
        passes[p]@.contains(g),
        g.children@.contains(c),
    ensures
        descendants(passes, c, passes.len()) == descendants(passes, c, p as nat),
{
    let j0 = choose|j: int| 0 <= j < passes[p]@.len() && passes[p]@[j] == g;
    let k0 = choose|k: int| 0 <= k < g.children@.len() && g.children@[k] == c;
    assert(passes[p]@[j0].children@[k0] == c);
    assert(pass_has_child(passes[p]@, c));
    assert forall|q: int| p <= q < passes.len() implies !pass_has_parent(
        #[trigger] passes[q]@,
        c,
    ) by {
        if q == p {
            assert(pass_has_parent(passes[p]@, c) ==> !pass_has_child(passes[p]@, c));
        }
    }
    lemma_descendants_fall_through(passes, c, passes.len(), p as nat);
}

/// Merging one sibling group does not change what the zone set expands
/// to: the parent's descendants are exactly its children's.
proof fn lemma_apply_group_preserves_expansion(
    s: Seq<u64>,
    g: SiblingGroup,
    passes: Seq<Vec<SiblingGroup>>,
    p: int,
)
    requires
        well_formed_hierarchy(passes),
        0 <= p < passes.len(),
        passes[p]@.contains(g),
    ensures
        expansion(passes, apply_group(s, g)) == expansion(passes, s),
{
    if !group_applicable(s, g) {
        assert(apply_group(s, g) == s);
    } else {
        let m = passes.len();
        let s2 = apply_group(s, g);
        let ch = g.children@;
        let j0 = choose|j: int| 0 <= j < passes[p]@.len() && passes[p]@[j] == g;

        // the parent's descendants are its children's descendants
        assert forall|q: int| p + 1 <= q < m implies !pass_has_parent(
            #[trigger] passes[q]@,
            g.parent,
        ) by {
            if pass_has_parent(passes[q]@, g.parent) {
                let k = choose|k: int|
                    0 <= k < passes[q]@.len() && (#[trigger] passes[q]@[k]).parent == g.parent;
                assert(passes[p]@[j0].parent == passes[q]@[k].parent);
            }
        }
        lemma_descendants_fall_through(passes, g.parent, m, (p + 1) as nat);
        assert forall|i: int, j: int|
            0 <= i < passes[p]@.len() && 0 <= j < passes[p]@.len() && i != j implies (
        #[trigger] passes[p]@[i]).parent != (#[trigger] passes[p]@[j]).parent by {}
        lemma_find_group_some(passes[p]@, g);
        assert(descendants(passes, g.parent, (p + 1) as nat) == seq_descendants(
            passes,
            ch,
            p as nat,
        ));
        assert(descendants(passes, g.parent, m) == seq_descendants(passes, ch, p as nat));

        assert forall|x: u64|
            expansion(passes, s2).contains(x) == expansion(passes, s).contains(x) by {
            lemma_seq_descendants_membership(passes, s2, m, x);
            lemma_seq_descendants_membership(passes, s, m, x);
            if expansion(passes, s2).contains(x) {
                let z = choose|z: u64|
                    s2.contains(z) && #[trigger] descendants(passes, z, m).contains(x);
                lemma_apply_group_membership(s, g, z);
                if s.contains(z) && !ch.contains(z) {
                    assert(s.contains(z) && descendants(passes, z, m).contains(x));
                } else {
                    assert(z == g.parent);
                    assert(seq_descendants(passes, ch, p as nat).contains(x));
                    lemma_seq_descendants_membership(passes, ch, p as nat, x);
                    let c = choose|c: u64|
                        ch.contains(c) && #[trigger] descendants(passes, c, p as nat).contains(x);
                    lemma_child_descendants(passes, g, p, c);
                    assert(s.contains(c));
                    assert(descendants(passes, c, m).contains(x));
                }
            }
            if expansion(passes, s).contains(x) {
                let z = choose|z: u64|
                    s.contains(z) && #[trigger] descendants(passes, z, m).contains(x);
                lemma_apply_group_membership(s, g, z);
                if !ch.contains(z) {
                    assert(s2.contains(z) && descendants(passes, z, m).contains(x));
                } else {
                    lemma_child_descendants(passes, g, p, z);
                    assert(descendants(passes, z, p as nat).contains(x));
                    lemma_seq_descendants_membership(passes, ch, p as nat, x);
                    assert(ch.contains(z) && descendants(passes, z, p as nat).contains(x));
                    assert(seq_descendants(passes, ch, p as nat).contains(x));
                    assert(descendants(passes, g.parent, m).contains(x));
                    lemma_apply_group_membership(s, g, g.parent);
                    assert(s2.contains(g.parent));
                }
            }
        }
        assert(expansion(passes, s2) =~= expansion(passes, s));
    }
}

/// A whole pass of merges does not change what the zone set expands to.
proof fn lemma_run_pass_preserves_expansion(
    s: Seq<u64>,
    gs: Seq<SiblingGroup>,
    passes: Seq<Vec<SiblingGroup>>,
    p: int,
)
    requires
        well_formed_hierarchy(passes),
        0 <= p < passes.len(),
        forall|i: int| 0 <= i < gs.len() ==> passes[p]@.contains(#[trigger] gs[i]),
    ensures
        expansion(passes, run_pass(s, gs)) == expansion(passes, s),
    decreases gs.len(),
{
    if gs.len() == 0 {
    } else {
        assert(passes[p]@.contains(gs[0]));
        lemma_apply_group_preserves_expansion(s, gs[0], passes, p);
        assert forall|i: int| 0 <= i < gs.drop_first().len() implies passes[p]@.contains(
            #[trigger] gs.drop_first()[i],
        ) by {
            assert(gs.drop_first()[i] == gs[i + 1]);
        }
        lemma_run_pass_preserves_expansion(apply_group(s, gs[0]), gs.drop_first(), passes, p);
    }
}

/// Compaction from pass `p0` on does not change what the set expands to.
proof fn lemma_run_from_preserves_expansion(
    s: Seq<u64>,
    passes: Seq<Vec<SiblingGroup>>,
    p0: int,
)
    requires
        well_formed_hierarchy(passes),
        0 <= p0 <= passes.len(),
    ensures
        expansion(passes, run_from(s, passes, p0)) == expansion(passes, s),
    decreases passes.len() - p0,
{
    if p0 == passes.len() {
    } else {
        assert forall|i: int| 0 <= i < passes[p0]@.len() implies passes[p0]@.contains(
            #[trigger] passes[p0]@[i],
        ) by {}
        lemma_run_pass_preserves_expansion(s, passes[p0]@, passes, p0);
        lemma_run_from_preserves_expansion(run_pass(s, passes[p0]@), passes, p0 + 1);
    }
}

/// Compaction is correct: expanding a compacted zone set to the deepest
/// level reproduces exactly the zones that the original set expands to,
/// for well-formed hierarchy data.
pub proof fn lemma_compact_preserves_expansion(zones: Seq<u64>, passes: Seq<Vec<SiblingGroup>>)
    requires
        well_formed_hierarchy(passes),
    ensures
        expansion(passes, run_passes(zones, passes)) == expansion(passes, zones),
{
    lemma_run_from_equals_run_passes(zones, passes, 0);
    assert(passes.skip(0) =~= passes);
    lemma_run_from_preserves_expansion(zones, passes, 0);
}

} // verus!
