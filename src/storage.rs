//! The storage engine: a stable B-tree map from id to encoded record, and a
//! stable cell holding the id counter, each in its own virtual memory.
//!
//! The engine's types are held in private fields of structs that Verus
//! treats as opaque; what the store relies on is stated over
//! [`records_of`] and [`counter_of`].
use ic_stable_structures::memory_manager::{MemoryId, MemoryManager, VirtualMemory};
use ic_stable_structures::storable::Blob;
use ic_stable_structures::{Cell, DefaultMemoryImpl, StableBTreeMap};
use vstd::prelude::*;

verus! {

/// The stable memory, split into virtual memories.
#[verifier::external_body]
pub struct Memories {
    manager: MemoryManager<DefaultMemoryImpl>,
}

/// A stable map from id to encoded record, each record at most 1024 bytes.
#[verifier::external_body]
pub struct RecordMap {
    map: StableBTreeMap<u64, Blob<1024>, VirtualMemory<DefaultMemoryImpl>>,
}

/// A stable cell holding the id counter.
#[verifier::external_body]
pub struct IdCell {
    cell: Cell<u64, VirtualMemory<DefaultMemoryImpl>>,
}

/// The entries of a record map.
pub uninterp spec fn records_of(m: RecordMap) -> Map<u64, Seq<u8>>;

/// The value held by a counter cell.
pub uninterp spec fn counter_of(c: IdCell) -> u64;

impl Memories {
    /// Relies on `MemoryManager::init` over the default memory.
    #[verifier::external_body]
    pub(crate) fn init() -> (r: Memories) {
        Memories { manager: MemoryManager::init(DefaultMemoryImpl::default()) }
    }
}

impl RecordMap {
    /// Relies on `StableBTreeMap::init` over the virtual memory `id`: it
    /// loads the map found there, or makes an empty one. The engine panics
    /// where that memory holds a map of another layout version, and
    /// `MemoryId::new` on the id 255, which it reserves.
    #[verifier::external_body]
    pub(crate) fn init(memories: &Memories, id: u8) -> (r: RecordMap)
        requires
            id < 255,
    {
        RecordMap { map: StableBTreeMap::init(memories.manager.get(MemoryId::new(id))) }
    }

    /// Relies on `StableBTreeMap::get`: the value under `key`, if any.
    #[verifier::external_body]
    pub(crate) fn get(&self, key: u64) -> (r: Option<Vec<u8>>)
        ensures
            r is Some <==> records_of(*self).contains_key(key),
            r matches Some(v) ==> v@ == records_of(*self)[key],
    {
        self.map.get(&key).map(|b| b.as_slice().to_vec())
    }

    /// Relies on `StableBTreeMap::insert`: `key` maps to `value` afterwards,
    /// the other entries are kept. The value fits the map's 1024-byte slots;
    /// the engine panics only where the stable memory cannot grow.
    #[verifier::external_body]
    pub(crate) fn insert(&mut self, key: u64, value: &Vec<u8>)
        requires
            value.len() <= 1024,
        ensures
            records_of(*final(self)) == records_of(*old(self)).insert(key, value@),
    {
        self.map.insert(key, Blob::try_from(value.as_slice()).unwrap());
    }

    /// Relies on `StableBTreeMap::remove`: the entry under `key` leaves and is
    /// returned, the others are kept.
    #[verifier::external_body]
    pub(crate) fn remove(&mut self, key: u64) -> (r: Option<Vec<u8>>)
        ensures
            r is Some <==> records_of(*old(self)).contains_key(key),
            r matches Some(v) ==> v@ == records_of(*old(self))[key],
            records_of(*final(self)) == records_of(*old(self)).remove(key),
    {
        self.map.remove(&key).map(|b| b.as_slice().to_vec())
    }

    /// Relies on `StableBTreeMap::last_key_value`: the largest key, if any.
    #[verifier::external_body]
    pub(crate) fn last_key(&self) -> (r: Option<u64>)
        ensures
            r is None <==> records_of(*self).dom().is_empty(),
            r matches Some(k) ==> records_of(*self).contains_key(k) && forall|j: u64|
                #[trigger] records_of(*self).contains_key(j) ==> j <= k,
    {
        self.map.last_key_value().map(|(k, _)| k)
    }
}

impl IdCell {
    /// Relies on `Cell::init` over the virtual memory `id`: it loads the
    /// value found there, or stores `default`; `None` where the memory holds
    /// a cell of another layout. `MemoryId::new` panics on the id 255, which
    /// it reserves.
    #[verifier::external_body]
    pub(crate) fn init(memories: &Memories, id: u8, default: u64) -> (r: Option<IdCell>)
        requires
            id < 255,
    {
        Cell::init(memories.manager.get(MemoryId::new(id)), default).ok().map(|cell| IdCell { cell })
    }

    /// Relies on `Cell::get`: the value held.
    #[verifier::external_body]
    pub(crate) fn get(&self) -> (r: u64)
        ensures
            r == counter_of(*self),
    {
        *self.cell.get()
    }

    /// Relies on `Cell::set`: the cell holds `value` afterwards. It fails
    /// only where the memory must grow, and an 8-byte value always fits the
    /// page that `Cell::init` has already written, so it succeeds here.
    #[verifier::external_body]
    pub(crate) fn set(&mut self, value: u64) -> (r: bool)
        ensures
            r,
            counter_of(*final(self)) == value,
    {
        self.cell.set(value).is_ok()
    }
}

} // verus!
