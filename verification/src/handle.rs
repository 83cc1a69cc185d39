//! Ownership handles: a table that keeps lifted values until they are
//! reclaimed, and answers a stale or forged handle with `None`.

use vstd::prelude::*;

verus! {

/// The token that stands for a lifted value: a slot of the table and the
/// generation of the value that was put there.
#[derive(Clone, Copy, Debug, PartialEq, Eq, Structural)]
pub struct RawHandle {
    pub index: usize,
    pub generation: u64,
}

/// The values that were lifted and not reclaimed yet, each under its handle.
pub struct HandleTable<T> {
    /// For each slot, the generation of the last value put there.
    generations: Vec<u64>,
    /// For each slot, the value it holds now.
    values: Vec<Option<T>>,
    /// The empty slots that can take another value.
    free: Vec<usize>,
    /// The number of slots that hold a value.
    live: usize,
}

impl<T> View for HandleTable<T> {
    type V = Map<RawHandle, T>;

    /// The live handles, each with the value it owns.
    closed spec fn view(&self) -> Map<RawHandle, T> {
        Map::new(|h: RawHandle| self.holds(h), |h: RawHandle| self.values@[h.index as int]->0)
    }
}

impl<T> HandleTable<T> {
    /// True when the handle names a slot at its present generation and the
    /// slot holds a value.
    closed spec fn holds(&self, h: RawHandle) -> bool {
        &&& h.index < self.generations@.len()
        &&& h.generation == self.generations@[h.index as int]
        &&& self.values@[h.index as int] is Some
    }

    /// True for every handle that the table has handed out so far, reclaimed
    /// or not.
    pub closed spec fn issued(&self, h: RawHandle) -> bool {
        &&& h.index < self.generations@.len()
        &&& 1 <= h.generation <= self.generations@[h.index as int]
    }

    /// The table's invariant.
    pub closed spec fn wf(&self) -> bool {
        &&& self.generations@.len() == self.values@.len()
        &&& forall|i: int| 0 <= i < self.generations@.len() ==> self.generations@[i] >= 1
        &&& forall|k: int|
            0 <= k < self.free@.len() ==> {
                &&& (#[trigger] self.free@[k]) < self.values@.len()
                &&& self.values@[self.free@[k] as int] is None
                &&& self.generations@[self.free@[k] as int] < u64::MAX
            }
        &&& forall|j: int, k: int|
            0 <= j < k < self.free@.len() ==> self.free@[j] != self.free@[k]
        &&& self@.dom().finite()
        &&& self.live == self@.len()
        &&& self.live + self.free@.len() <= self.values@.len()
    }

    /// The live handles are finitely many, and the table handed out each of
    /// them.
    pub proof fn lemma_live_handles(&self)
        requires
            self.wf(),
        ensures
            self@.dom().finite(),
            forall|h: RawHandle| self@.contains_key(h) ==> self.issued(h),
    {
    }

    /// An empty table.
    pub fn new() -> (table: Self)
        ensures
            table.wf(),
            table@ == Map::<RawHandle, T>::empty(),
            forall|h: RawHandle| !table.issued(h),
    {
        let table = HandleTable {
            generations: Vec::new(),
            values: Vec::new(),
            free: Vec::new(),
            live: 0,
        };
        assert(table@ =~= Map::<RawHandle, T>::empty());
        table
    }

    /// The number of values that were lifted and not reclaimed.
    pub fn outstanding(&self) -> (n: usize)
        requires
            self.wf(),
        ensures
            n == self@.len(),
    {
        self.live
    }

    /// Tells whether the handle owns a value.
    pub fn is_live(&self, handle: RawHandle) -> (live: bool)
        requires
            self.wf(),
        ensures
            live == self@.contains_key(handle),
    {
        handle.index < self.generations.len() && self.generations[handle.index]
            == handle.generation && self.values[handle.index].is_some()
    }
}

/// What reclaiming `handle` gives, by the live handles: the value it owns,
/// or nothing where it owns none.
pub open spec fn reclaimed<T>(live: Map<RawHandle, T>, handle: RawHandle) -> Option<T> {
    if live.contains_key(handle) {
        Some(live[handle])
    } else {
        None
    }
}

/// Lifts a value into the table and gives the handle that owns it from now
/// on.
///
/// The handle is one that the table never handed out before, so no handle
/// from an earlier lift, reclaimed or not, can reach the new value.
pub fn into_raw_ptr<T>(table: &mut HandleTable<T>, value: T) -> (handle: RawHandle)
    requires
        old(table).wf(),
    ensures
        final(table).wf(),
        !old(table).issued(handle),
        !old(table)@.contains_key(handle),
        final(table)@ == old(table)@.insert(handle, value),
        forall|h: RawHandle| final(table).issued(h) <==> old(table).issued(h) || h == handle,
{
    let handle = match table.free.pop() {
        Some(index) => {
            let generation: u64 = table.generations[index] + 1;
            table.generations.set(index, generation);
            table.values.set(index, Some(value));
            RawHandle { index, generation }
        },
        None => {
            let index: usize = table.values.len();
            table.generations.push(1);
            table.values.push(Some(value));
            RawHandle { index, generation: 1 }
        },
    };
    proof {
        assert(table.values.len() == table.values@.len());
    }
    table.live = table.live + 1;
    proof {
        assert(table@ =~= old(table)@.insert(handle, value));
        assert(table@.dom() =~= old(table)@.dom().insert(handle));
    }
    handle
}

/// Takes back the value that `handle` owns.
///
/// A handle that owns nothing (reclaimed before, or never handed out) gives
/// `None` and leaves the table as it was.
pub fn reclaim<T>(table: &mut HandleTable<T>, handle: RawHandle) -> (value: Option<T>)
    requires
        old(table).wf(),
    ensures
        final(table).wf(),
        value == reclaimed(old(table)@, handle),
        final(table)@ == old(table)@.remove(handle),
        forall|h: RawHandle| final(table).issued(h) <==> old(table).issued(h),
{
    if !table.is_live(handle) {
        assert(table@ =~= old(table)@.remove(handle));
        return None;
    }
    let mut value: Option<T> = None;
    table.values.set_and_swap(handle.index, &mut value);
    if table.generations[handle.index] < u64::MAX {
        table.free.push(handle.index);
    }
    proof {
        assert(old(table)@.dom().contains(handle));
        assert(old(table)@.dom().len() > 0);
    }
    table.live = table.live - 1;
    proof {
        assert(table@ =~= old(table)@.remove(handle));
        assert(table@.dom() =~= old(table)@.dom().remove(handle));
    }
    value
}

/// Reclaiming the handle that a lift gave returns the lifted value, whatever
/// the table held before; a second reclaim returns nothing; and where the
/// handle was fresh, as every handle of a lift is, the table is then as it was
/// before the lift.
pub proof fn lemma_lift_then_reclaim<T>(live: Map<RawHandle, T>, handle: RawHandle, value: T)
    ensures
        reclaimed(live.insert(handle, value), handle) == Some(value),
        reclaimed(live.insert(handle, value).remove(handle), handle) == None::<T>,
        !live.contains_key(handle) ==> live.insert(handle, value).remove(handle) == live,
{
    assert(!live.contains_key(handle) ==> live.insert(handle, value).remove(handle) =~= live);
}

/// What a handle owns is untouched by a lift that gives another handle and
/// by a reclaim of another handle.
pub proof fn lemma_other_handles_keep_their_values<T>(
    live: Map<RawHandle, T>,
    handle: RawHandle,
    other: RawHandle,
    value: T,
)
    requires
        other != handle,
    ensures
        reclaimed(live.insert(other, value), handle) == reclaimed(live, handle),
        reclaimed(live.remove(other), handle) == reclaimed(live, handle),
{
}

} // verus!
