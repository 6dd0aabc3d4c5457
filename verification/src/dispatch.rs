//! Dynamic-dispatch resolution and native-buffer translation.
//!
//! The external grid component resolves operations through method
//! tables: an instance may expose its own table of entry points, and a
//! shared table of the abstract grid-system type holds the defaults.
//! An entry point is an opaque machine word; the reserved value zero
//! marks an absent entry. Resolution never fails: an absent entry means
//! the operation is unsupported and the caller returns its documented
//! default instead.
//!
//! Operations that fill fixed-capacity native buffers report a count;
//! the binding copies exactly that many entries into an owned sequence
//! and never exposes the fixed capacity. A count beyond the buffer's
//! capacity is invalid input from the external component and is
//! reported as such rather than read out of bounds.

use vstd::prelude::*;

verus! {

/// The reserved entry-point value marking an absent method.
pub const NO_ENTRY: usize = 0;

/// A method table: one opaque entry point per operation, indexed by
/// the operation's slot, with zero for an absent method.
#[derive(Debug)]
pub struct MethodTable {
    /// The entry points, indexed by operation slot.
    pub slots: Vec<usize>,
}

/// Where an operation was resolved, and to what entry point.
#[derive(Clone, Copy, PartialEq, Eq, Structural, Debug)]
pub enum Resolution {
    /// The instance's own table holds the entry point: a per-instance
    /// override.
    PerInstance(usize),
    /// The shared table of the abstract type holds the entry point: a
    /// default shared across grid systems.
    ClassDefault(usize),
    /// Neither table holds an entry point for this operation; the
    /// caller must return the operation's documented default result.
    Unsupported,
}

/// The outcome of looking operation `op` up in the table `slots`:
/// an entry point, or nothing for an absent or out-of-range slot.
pub open spec fn spec_lookup(slots: Seq<usize>, op: int) -> Option<usize> {
    if 0 <= op < slots.len() && slots[op] != NO_ENTRY {
        Some(slots[op])
    } else {
        None
    }
}

/// Resolve operation `op`: if the instance exposes its own method
/// table, the operation is looked up there; otherwise it is looked up
/// in the abstract type's shared table. An absent entry is
/// `Unsupported`, never an error.
pub fn resolve(instance: Option<&MethodTable>, class_table: &MethodTable, op: usize) -> (r:
    Resolution)
    ensures
        match instance {
            Some(t) => match spec_lookup(t.slots@, op as int) {
                Some(entry) => r == Resolution::PerInstance(entry),
                None => r == Resolution::Unsupported,
            },
            None => match spec_lookup(class_table.slots@, op as int) {
                Some(entry) => r == Resolution::ClassDefault(entry),
                None => r == Resolution::Unsupported,
            },
        },
{
    match instance {
        Some(t) => {
            if op < t.slots.len() {
                let entry = t.slots[op];
                if entry != NO_ENTRY {
                    return Resolution::PerInstance(entry);
                }
            }
            Resolution::Unsupported
        },
        None => {
            if op < class_table.slots.len() {
                let entry = class_table.slots[op];
                if entry != NO_ENTRY {
                    return Resolution::ClassDefault(entry);
                }
            }
            Resolution::Unsupported
        },
    }
}

/// Copy the first `count` entries of a native result buffer into an
/// owned vector, or report a count beyond the buffer's capacity as
/// invalid.
pub fn counted_prefix<T: Copy>(buf: &[T], count: usize) -> (r: Option<Vec<T>>)
    ensures
        match r {
            Some(v) => count <= buf@.len() && v@ == buf@.take(count as int),
            None => count > buf@.len(),
        },
{
    if count > buf.len() {
        return None;
    }
    let mut v: Vec<T> = Vec::new();
    proof {
        assert(v@ =~= buf@.take(0));
    }
    for i in 0..count
        invariant
            count <= buf@.len(),
            v@ == buf@.take(i as int),
    {
        v.push(buf[i]);
        proof {
            assert(buf@.take(i + 1) =~= buf@.take(i as int).push(buf@[i as int]));
        }
    }
    Some(v)
}

/// A neighbor descriptor: a zone and the direction code under which
/// the grid system reports it. Direction codes are small integers whose
/// meaning belongs to the concrete grid system.
#[derive(Clone, Copy, PartialEq, Eq, Structural, Debug)]
pub struct Neighbor {
    /// The neighboring zone.
    pub zone: u64,
    /// The grid-system-defined direction code.
    pub direction: i32,
}

/// Pair the first `count` zones of a native result buffer with their
/// direction codes, or report a count beyond either buffer's capacity
/// as invalid.
pub fn counted_neighbors(zones: &[u64], directions: &[i32], count: usize) -> (r: Option<
    Vec<Neighbor>,
>)
    ensures
        match r {
            Some(v) => {
                &&& count <= zones@.len()
                &&& count <= directions@.len()
                &&& v@.len() == count
                &&& forall|i: int|
                    0 <= i < count ==> (#[trigger] v@[i]).zone == zones@[i] && v@[i].direction
                        == directions@[i]
            },
            None => count > zones@.len() || count > directions@.len(),
        },
{
    if count > zones.len() || count > directions.len() {
        return None;
    }
    let mut v: Vec<Neighbor> = Vec::new();
    for i in 0..count
        invariant
            count <= zones@.len(),
            count <= directions@.len(),
            v@.len() == i,
            forall|j: int|
                0 <= j < i ==> (#[trigger] v@[j]).zone == zones@[j] && v@[j].direction
                    == directions@[j],
    {
        v.push(Neighbor { zone: zones[i], direction: directions[i] });
    }
    Some(v)
}

} // verus!

