//! Zone-set expansion: the inverse of compaction.
//!
//! Expanding a zone set replaces every zone that the hierarchy data knows
//! as a parent by that parent's children, repeatedly, until only zones of
//! the deepest level remain. The hierarchy data is the same pass-by-pass
//! sibling-group structure that compaction consumes: expansion walks the
//! passes in the opposite direction, from the shallowest to the deepest.

use vstd::prelude::*;

verus! {

use crate::compact::SiblingGroup;
use crate::zone::no_dups;
use crate::zone::zones_contain;

/// The first group of `gs` whose parent is `z`, if any.
pub open spec fn find_group(gs: Seq<SiblingGroup>, z: u64) -> Option<SiblingGroup>
    decreases gs.len(),
{
    if gs.len() == 0 {
        None
    } else if gs[0].parent == z {
        Some(gs[0])
    } else {
        find_group(gs.drop_first(), z)
    }
}

/// All deepest-level descendants of `z`, considering only the first `n`
/// passes of the hierarchy data: if pass `n - 1` knows `z` as a parent,
/// `z` expands to its children's descendants one pass further down;
/// otherwise `z` is carried down unchanged. With `n == 0` the zone stands
/// for itself.
pub open spec fn descendants(passes: Seq<Vec<SiblingGroup>>, z: u64, n: nat) -> Set<u64>
    decreases n, 0int, 0int,
{
    if n == 0 {
        set![z]
    } else {
        match find_group(passes[n - 1]@, z) {
            Some(g) => seq_descendants(passes, g.children@, (n - 1) as nat),
            None => descendants(passes, z, (n - 1) as nat),
        }
    }
}

/// The union of the descendants of every zone of `cs`, considering only
/// the first `n` passes.
pub open spec fn seq_descendants(passes: Seq<Vec<SiblingGroup>>, cs: Seq<u64>, n: nat) -> Set<u64>
    decreases n, 1int, cs.len(),
{
    if cs.len() == 0 {
        Set::empty()
    } else {
        descendants(passes, cs[0], n).union(seq_descendants(passes, cs.drop_first(), n))
    }
}

/// The full expansion of the zone set `s` through all passes of the
/// hierarchy data: every zone replaced by all its deepest-level
/// descendants.
pub open spec fn expansion(passes: Seq<Vec<SiblingGroup>>, s: Seq<u64>) -> Set<u64> {
    seq_descendants(passes, s, passes.len())
}

/// A zone is in a sequence's expansion exactly when it descends from one
/// of the sequence's members.
pub proof fn lemma_seq_descendants_membership(
    passes: Seq<Vec<SiblingGroup>>,
    cs: Seq<u64>,
    n: nat,
    x: u64,
)
    ensures
        seq_descendants(passes, cs, n).contains(x) <==> exists|z: u64|
            cs.contains(z) && #[trigger] descendants(passes, z, n).contains(x),
    decreases cs.len(),
{
    if cs.len() == 0 {
    } else {
        lemma_seq_descendants_membership(passes, cs.drop_first(), n, x);
        if seq_descendants(passes, cs, n).contains(x) {
            if descendants(passes, cs[0], n).contains(x) {
                assert(cs.contains(cs[0]));
            } else {
                let z0 = choose|z: u64|
                    cs.drop_first().contains(z) && #[trigger] descendants(passes, z, n).contains(
                        x,
                    );
                let i0 = choose|i: int|
                    0 <= i < cs.drop_first().len() && cs.drop_first()[i] == z0;
                assert(cs[i0 + 1] == z0);
                assert(cs.contains(z0));
            }
        }
        if exists|z: u64| cs.contains(z) && #[trigger] descendants(passes, z, n).contains(x) {
            let z0 = choose|z: u64| cs.contains(z) && descendants(passes, z, n).contains(x);
            let i0 = choose|i: int| 0 <= i < cs.len() && cs[i] == z0;
            if i0 == 0 {
                assert(descendants(passes, cs[0], n).contains(x));
            } else {
                assert(cs.drop_first()[i0 - 1] == z0);
                assert(cs.drop_first().contains(z0));
                assert(seq_descendants(passes, cs.drop_first(), n).contains(x));
            }
        }
    }
}

/// Two zone sequences holding the same zones have the same expansion.
pub proof fn lemma_seq_descendants_same_set(
    passes: Seq<Vec<SiblingGroup>>,
    a: Seq<u64>,
    b: Seq<u64>,
    n: nat,
)
    requires
        a.to_set() == b.to_set(),
    ensures
        seq_descendants(passes, a, n) == seq_descendants(passes, b, n),
{
    assert forall|x: u64|
        seq_descendants(passes, a, n).contains(x) == seq_descendants(passes, b, n).contains(
            x,
        ) by {
        lemma_seq_descendants_membership(passes, a, n, x);
        lemma_seq_descendants_membership(passes, b, n, x);
        if seq_descendants(passes, a, n).contains(x) {
            let z0 = choose|z: u64| a.contains(z) && #[trigger] descendants(passes, z, n).contains(x);
            assert(b.to_set().contains(z0));
            assert(b.contains(z0) && descendants(passes, z0, n).contains(x));
        }
        if seq_descendants(passes, b, n).contains(x) {
            let z0 = choose|z: u64| b.contains(z) && #[trigger] descendants(passes, z, n).contains(x);
            assert(a.to_set().contains(z0));
            assert(a.contains(z0) && descendants(passes, z0, n).contains(x));
        }
    }
    assert(seq_descendants(passes, a, n) =~= seq_descendants(passes, b, n));
}

/// With no passes left, a zone sequence expands to exactly its own zones.
pub proof fn lemma_seq_descendants_zero(passes: Seq<Vec<SiblingGroup>>, s: Seq<u64>)
    ensures
        seq_descendants(passes, s, 0) == s.to_set(),
{
    assert forall|x: u64| seq_descendants(passes, s, 0).contains(x) == s.to_set().contains(x) by {
        lemma_seq_descendants_membership(passes, s, 0, x);
        if seq_descendants(passes, s, 0).contains(x) {
            let z0 = choose|z: u64| s.contains(z) && #[trigger] descendants(passes, z, 0).contains(x);
            assert(x == z0);
        }
        if s.to_set().contains(x) {
            assert(s.contains(x) && descendants(passes, x, 0).contains(x));
        }
    }
    assert(seq_descendants(passes, s, 0) =~= s.to_set());
}

/// Splitting a zone sequence splits its expansion.
pub proof fn lemma_seq_descendants_union(
    passes: Seq<Vec<SiblingGroup>>,
    a: Seq<u64>,
    b: Seq<u64>,
    c: Seq<u64>,
    n: nat,
)
    requires
        c.to_set() == a.to_set().union(b.to_set()),
    ensures
        seq_descendants(passes, c, n) == seq_descendants(passes, a, n).union(
            seq_descendants(passes, b, n),
        ),
{
    assert forall|x: u64|
        seq_descendants(passes, c, n).contains(x) == seq_descendants(passes, a, n).union(
            seq_descendants(passes, b, n),
        ).contains(x) by {
        lemma_seq_descendants_membership(passes, a, n, x);
        lemma_seq_descendants_membership(passes, b, n, x);
        lemma_seq_descendants_membership(passes, c, n, x);
        if seq_descendants(passes, c, n).contains(x) {
            let z0 = choose|z: u64| c.contains(z) && #[trigger] descendants(passes, z, n).contains(x);
            assert(c.to_set().contains(z0));
            assert(a.to_set().contains(z0) || b.to_set().contains(z0));
            assert(a.contains(z0) || b.contains(z0));
        }
        if seq_descendants(passes, a, n).contains(x) {
            let z0 = choose|z: u64| a.contains(z) && #[trigger] descendants(passes, z, n).contains(x);
            assert(c.to_set().contains(z0));
            assert(c.contains(z0));
        }
        if seq_descendants(passes, b, n).contains(x) {
            let z0 = choose|z: u64| b.contains(z) && #[trigger] descendants(passes, z, n).contains(x);
            assert(c.to_set().contains(z0));
            assert(c.contains(z0));
        }
    }
    assert(seq_descendants(passes, c, n) =~= seq_descendants(passes, a, n).union(
        seq_descendants(passes, b, n),
    ));
}

/// Membership in a pushed sequence.
pub proof fn lemma_push_contains(s: Seq<u64>, z: u64, x: u64)
    ensures
        s.push(z).contains(x) <==> s.contains(x) || x == z,
{
    if s.push(z).contains(x) {
        let i = choose|i: int| 0 <= i < s.push(z).len() && s.push(z)[i] == x;
        if i < s.len() {
            assert(s[i] == x);
        }
    }
    if s.contains(x) {
        let i = choose|i: int| 0 <= i < s.len() && s[i] == x;
        assert(s.push(z)[i] == x);
    }
    assert(s.push(z)[s.len() as int] == z);
}

/// The first group of `gs` whose parent is `z`, if any.
fn find_group_in<'a>(gs: &'a Vec<SiblingGroup>, z: u64) -> (r: Option<&'a SiblingGroup>)
    ensures
        match r {
            Some(g) => find_group(gs@, z) == Some(*g),
            None => find_group(gs@, z) is None,
        },
{
    let k = gs.len();
    proof {
        assert(gs@.skip(0) =~= gs@);
    }
    for j in 0..k
        invariant
            k == gs@.len(),
            find_group(gs@, z) == find_group(gs@.skip(j as int), z),
    {
        proof {
            assert(gs@.skip(j as int).drop_first() =~= gs@.skip(j + 1));
            assert(gs@.skip(j as int)[0] == gs@[j as int]);
        }
        if gs[j].parent == z {
            return Some(&gs[j]);
        }
    }
    proof {
        assert(gs@.skip(k as int) =~= Seq::<SiblingGroup>::empty());
    }
    None
}

/// Append `z` to `v` unless it is already present.
fn push_unique(v: &mut Vec<u64>, z: u64)
    ensures
        final(v)@.to_set() == old(v)@.to_set().insert(z),
        no_dups(old(v)@) ==> no_dups(final(v)@),
{
    if !zones_contain(v, z) {
        v.push(z);
        proof {
            assert forall|i: int, j: int|
                no_dups(old(v)@) && 0 <= i < j < v@.len() implies v@[i] != v@[j] by {
                if j == v@.len() - 1 {
                    assert(v@[i] == old(v)@[i]);
                    assert(old(v)@.contains(old(v)@[i]));
                }
            }
            assert forall|x: u64| v@.to_set().contains(x) == old(v)@.to_set().insert(z).contains(
                x,
            ) by {
                lemma_push_contains(old(v)@, z, x);
            }
        }
    }
    proof {
        assert(v@.to_set() =~= old(v)@.to_set().insert(z));
    }
}

/// Append every zone of `zs` not already present in `v`, in order.
fn extend_unique(v: &mut Vec<u64>, zs: &Vec<u64>)
    ensures
        final(v)@.to_set() == old(v)@.to_set().union(zs@.to_set()),
        no_dups(old(v)@) ==> no_dups(final(v)@),
{
    let k = zs.len();
    for i in 0..k
        invariant
            k == zs@.len(),
            v@.to_set() == old(v)@.to_set().union(zs@.take(i as int).to_set()),
            no_dups(old(v)@) ==> no_dups(v@),
    {
        push_unique(v, zs[i]);
        proof {
            assert(zs@.take(i + 1) =~= zs@.take(i as int).push(zs@[i as int]));
            assert forall|x: u64|
                zs@.take(i + 1).to_set().contains(x) == zs@.take(i as int).to_set().insert(
                    zs@[i as int],
                ).contains(x) by {
                lemma_push_contains(zs@.take(i as int), zs@[i as int], x);
            }
            assert(zs@.take(i + 1).to_set() =~= zs@.take(i as int).to_set().insert(zs@[i as int]));
            assert(v@.to_set() =~= old(v)@.to_set().union(zs@.take(i + 1).to_set()));
        }
    }
    proof {
        assert(zs@.take(k as int) =~= zs@);
    }
}

/// Expand the zone set `zones` through the supplied hierarchy data: walk
/// the passes from the shallowest to the deepest, replacing every zone
/// known as a parent by its children, and return the deepest-level zones,
/// each listed once.
pub fn expand_zones(zones: &Vec<u64>, passes: &Vec<Vec<SiblingGroup>>) -> (r: Vec<u64>)
    ensures
        r@.to_set() == expansion(passes@, zones@),
        no_dups(r@),
{
    let m = passes.len();
    let mut cur: Vec<u64> = Vec::new();
    extend_unique(&mut cur, zones);
    proof {
        assert(Seq::<u64>::empty().to_set() =~= Set::<u64>::empty());
        assert(cur@.to_set() =~= zones@.to_set());
        lemma_seq_descendants_same_set(passes@, cur@, zones@, m as nat);
    }
    let mut n = m;
    while n > 0
        invariant
            n <= m,
            m == passes@.len(),
            no_dups(cur@),
            seq_descendants(passes@, cur@, n as nat) == expansion(passes@, zones@),
        decreases n,
    {
        let gs = &passes[n - 1];
        let mut next: Vec<u64> = Vec::new();
        let klen = cur.len();
        proof {
            assert(cur@.skip(0) =~= cur@);
            assert(Seq::<u64>::empty().to_set() =~= Set::<u64>::empty());
            assert(seq_descendants(passes@, next@, (n - 1) as nat) =~= Set::<u64>::empty());
            assert(seq_descendants(passes@, next@, (n - 1) as nat).union(
                seq_descendants(passes@, cur@, n as nat),
            ) =~= seq_descendants(passes@, cur@, n as nat));
        }
        for i in 0..klen
            invariant
                klen == cur@.len(),
                n > 0,
                n <= m,
                m == passes@.len(),
                gs@ == passes@[n - 1]@,
                no_dups(next@),
                seq_descendants(passes@, next@, (n - 1) as nat).union(
                    seq_descendants(passes@, cur@.skip(i as int), n as nat),
                ) == seq_descendants(passes@, cur@, n as nat),
        {
            proof {
                assert(cur@.skip(i as int).drop_first() =~= cur@.skip(i + 1));
                assert(cur@.skip(i as int)[0] == cur@[i as int]);
            }
            let ghost next_before = next@;
            let z = cur[i];
            match find_group_in(gs, z) {
                Some(g) => {
                    let children = &g.children;
                    extend_unique(&mut next, children);
                    proof {
                        lemma_seq_descendants_union(
                            passes@,
                            next_before,
                            children@,
                            next@,
                            (n - 1) as nat,
                        );
                        assert(descendants(passes@, z, n as nat) == seq_descendants(
                            passes@,
                            children@,
                            (n - 1) as nat,
                        ));
                    }
                },
                None => {
                    push_unique(&mut next, z);
                    proof {
                        let single = seq![z];
                        assert(single[0] == z);
                        assert(single.drop_first() =~= Seq::<u64>::empty());
                        assert(seq_descendants(passes@, single.drop_first(), (n - 1) as nat)
                            =~= Set::<u64>::empty());
                        assert(seq_descendants(passes@, single, (n - 1) as nat) =~= descendants(
                            passes@,
                            z,
                            (n - 1) as nat,
                        ));
                        assert(single.to_set() =~= Set::<u64>::empty().insert(z));
                        assert(next@.to_set() =~= next_before.to_set().union(single.to_set()));
                        lemma_seq_descendants_union(
                            passes@,
                            next_before,
                            single,
                            next@,
                            (n - 1) as nat,
                        );
                        assert(descendants(passes@, z, n as nat) == descendants(
                            passes@,
                            z,
                            (n - 1) as nat,
                        ));
                    }
                },
            }
            proof {
                assert(seq_descendants(passes@, next@, (n - 1) as nat).union(
                    seq_descendants(passes@, cur@.skip(i + 1), n as nat),
                ) =~= seq_descendants(passes@, next_before, (n - 1) as nat).union(
                    seq_descendants(passes@, cur@.skip(i as int), n as nat),
                ));
            }
        }
        proof {
            assert(cur@.skip(klen as int) =~= Seq::<u64>::empty());
            assert(seq_descendants(passes@, next@, (n - 1) as nat).union(Set::<u64>::empty())
                =~= seq_descendants(passes@, next@, (n - 1) as nat));
        }
        cur = next;
        n = n - 1;
    }
    proof {
        lemma_seq_descendants_zero(passes@, cur@);
    }
    cur
}

} // verus!
