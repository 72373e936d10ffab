//! The trusted boundary to the persistent storage crate.
//!
//! One persistent memory space is partitioned into numbered regions; one
//! region holds the identifier counter and each collection holds its records
//! in one region as an ordered map from a 64-bit key to a byte string. The
//! wrappers here carry the contracts this library relies on; their bodies
//! call into `ic_stable_structures` and are not verified.
use vstd::prelude::*;

verus! {

/// A handle to one region of the persistent memory space.
#[verifier::external_body]
pub struct RegionHandle {
    mem: ic_stable_structures::memory_manager::VirtualMemory<
        ic_stable_structures::DefaultMemoryImpl,
    >,
}

/// Partitions one persistent memory space into numbered, disjoint,
/// independently growable regions.
///
/// Each region must be owned by at most one live cell or map: two maps
/// opened over one region would not see each other's writes coherently.
/// Restoring a service consumes the allocator, so one allocator yields at
/// most one live service; open at most one allocator per memory space.
#[verifier::external_body]
pub struct RegionAllocator {
    mgr: ic_stable_structures::memory_manager::MemoryManager<
        ic_stable_structures::DefaultMemoryImpl,
    >,
}

impl RegionAllocator {
    /// Relies on MemoryManager::init (over DefaultMemoryImpl::default):
    /// opens the persistent memory space and its region table.
    #[verifier::external_body]
    pub fn init() -> RegionAllocator {
        RegionAllocator {
            mgr: ic_stable_structures::memory_manager::MemoryManager::init(
                ic_stable_structures::DefaultMemoryImpl::default(),
            ),
        }
    }

    /// Relies on MemoryManager::get: the same index always resolves to the
    /// same region, and distinct indices to disjoint regions. Index 255 is
    /// the manager's reserved marker and is refused with a panic, so it is
    /// excluded here.
    #[verifier::external_body]
    pub(crate) fn region(&self, index: u8) -> RegionHandle
        requires
            index != 255,
    {
        RegionHandle {
            mem: self.mgr.get(ic_stable_structures::memory_manager::MemoryId::new(index)),
        }
    }
}

/// A 64-bit value stored durably in one region.
#[verifier::external_body]
pub struct CounterCell {
    cell: ic_stable_structures::Cell<
        u64,
        ic_stable_structures::memory_manager::VirtualMemory<
            ic_stable_structures::DefaultMemoryImpl,
        >,
    >,
}

/// The value a counter cell holds.
pub uninterp spec fn counter_value(c: CounterCell) -> u64;

impl CounterCell {
    /// Relies on Cell::init: restores the value persisted in the region, or
    /// writes `default_value` into a fresh region. An incompatible persisted
    /// layout aborts the call instead of returning.
    #[verifier::external_body]
    pub(crate) fn init(region: RegionHandle, default_value: u64) -> CounterCell {
        CounterCell { cell: ic_stable_structures::Cell::init(region.mem, default_value) }
    }

    /// Relies on Cell::get: returns the current value.
    #[verifier::external_body]
    pub(crate) fn get(&self) -> (r: u64)
        ensures
            r == counter_value(*self),
    {
        *self.cell.get()
    }

    /// Relies on Cell::set: persists the new value before returning; a
    /// persistence write failure aborts the call instead of returning.
    #[verifier::external_body]
    pub(crate) fn set(&mut self, value: u64)
        ensures
            counter_value(*final(self)) == value,
    {
        self.cell.set(value);
    }
}

/// An ordered map from a 64-bit key to a byte string, stored in one region.
#[verifier::external_body]
pub struct RegionByteMap {
    map: ic_stable_structures::BTreeMap<
        u64,
        Vec<u8>,
        ic_stable_structures::memory_manager::VirtualMemory<
            ic_stable_structures::DefaultMemoryImpl,
        >,
    >,
}

/// The entries a region map holds.
pub uninterp spec fn byte_map_contents(m: RegionByteMap) -> Map<u64, Seq<u8>>;

impl RegionByteMap {
    /// Relies on BTreeMap::init: loads the map persisted in the region, or
    /// creates an empty one in a fresh region. An unsupported persisted
    /// layout aborts the call instead of returning.
    #[verifier::external_body]
    pub(crate) fn init(region: RegionHandle) -> RegionByteMap {
        RegionByteMap { map: ic_stable_structures::BTreeMap::init(region.mem) }
    }

    /// Relies on BTreeMap::get: returns the value stored under the key, if
    /// any.
    #[verifier::external_body]
    pub(crate) fn get(&self, key: u64) -> (r: Option<Vec<u8>>)
        ensures
            match r {
                Some(v) => byte_map_contents(*self).contains_pair(key, v@),
                None => !byte_map_contents(*self).dom().contains(key),
            },
    {
        self.map.get(&key)
    }

    /// Relies on BTreeMap::insert: stores the value under the key,
    /// overwriting and returning any previous value.
    #[verifier::external_body]
    pub(crate) fn insert(&mut self, key: u64, value: Vec<u8>) -> (prev: Option<Vec<u8>>)
        ensures
            byte_map_contents(*final(self)) == byte_map_contents(*old(self)).insert(key, value@),
            match prev {
                Some(v) => byte_map_contents(*old(self)).contains_pair(key, v@),
                None => !byte_map_contents(*old(self)).dom().contains(key),
            },
    {
        self.map.insert(key, value)
    }

    /// Relies on BTreeMap::remove: removes and returns the value stored
    /// under the key, if any.
    #[verifier::external_body]
    pub(crate) fn remove(&mut self, key: u64) -> (prev: Option<Vec<u8>>)
        ensures
            byte_map_contents(*final(self)) == byte_map_contents(*old(self)).remove(key),
            match prev {
                Some(v) => byte_map_contents(*old(self)).contains_pair(key, v@),
                None => !byte_map_contents(*old(self)).dom().contains(key),
            },
    {
        self.map.remove(&key)
    }

    /// Relies on BTreeMap::iter: visits every entry exactly once, in
    /// ascending key order.
    #[verifier::external_body]
    pub(crate) fn entries(&self) -> (r: Vec<(u64, Vec<u8>)>)
        ensures
            forall|i: int|
                0 <= i < r@.len() ==> byte_map_contents(*self).contains_pair(
                    (#[trigger] r@[i]).0,
                    r@[i].1@,
                ),
            forall|k: u64|
                byte_map_contents(*self).dom().contains(k) ==> exists|i: int|
                    0 <= i < r@.len() && (#[trigger] r@[i]).0 == k,
            forall|i: int, j: int| 0 <= i < j < r@.len() ==> r@[i].0 < r@[j].0,
    {
        let mut out = Vec::new();
        for e in self.map.iter() {
            out.push(e.into_pair());
        }
        out
    }
}

} // verus!
