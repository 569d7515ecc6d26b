//! Trusted boundary to the persistence substrate: one virtual address
//! space partitioned into independently growable regions, a counter cell
//! and one ordered byte map per record kind, all from the
//! `ic_stable_structures` crate. Everything above this module is
//! verified against the contracts stated here.
use vstd::prelude::*;
use ic_stable_structures::memory_manager::MemoryId;
use ic_stable_structures::memory_manager::MemoryManager;
use ic_stable_structures::memory_manager::VirtualMemory;
use ic_stable_structures::Cell;
use ic_stable_structures::DefaultMemoryImpl;
use ic_stable_structures::StableBTreeMap;

verus! {

/// One persistent region holding an ordered map from identifier to the
/// encoded bytes of one record.
#[verifier::external_body]
pub struct ByteMap {
    pub(crate) map: StableBTreeMap<u64, Vec<u8>, VirtualMemory<DefaultMemoryImpl>>,
}

/// What a [`ByteMap`] holds: its identifier-to-bytes entries.
pub uninterp spec fn byte_map_entries(m: ByteMap) -> Map<u64, Seq<u8>>;

/// One persistent region holding the identifier counter.
#[verifier::external_body]
pub struct IdCell {
    pub(crate) cell: Cell<u64, VirtualMemory<DefaultMemoryImpl>>,
}

/// What an [`IdCell`] holds: the counter value.
pub uninterp spec fn id_cell_value(c: IdCell) -> u64;

/// What [`fresh_backing`] hands out: a counter at zero and two empty maps.
pub open spec fn fresh_backing_spec(r: (IdCell, ByteMap, ByteMap)) -> bool {
    &&& id_cell_value(r.0) == 0
    &&& byte_map_entries(r.1) == Map::<u64, Seq<u8>>::empty()
    &&& byte_map_entries(r.2) == Map::<u64, Seq<u8>>::empty()
}

/// Relies on `MemoryManager::init` and `MemoryManager::get` to hand out
/// non-overlapping regions of one fresh address space, on `Cell::new` to
/// start a cell at the value it is given, and on `StableBTreeMap::new`
/// to start a map empty; both overwrite whatever the regions held.
///
/// On the deployment target the default memory is the one stable
/// memory, so construct at most one backing per process: a second one
/// would alias the first one's regions and void these contracts.
#[verifier::external_body]
pub fn fresh_backing() -> (r: (IdCell, ByteMap, ByteMap))
    ensures
        fresh_backing_spec(r),
{
    let manager = MemoryManager::init(DefaultMemoryImpl::default());
    let cell = Cell::new(manager.get(MemoryId::new(0)), 0u64);
    let containers = StableBTreeMap::new(manager.get(MemoryId::new(1)));
    let items = StableBTreeMap::new(manager.get(MemoryId::new(2)));
    (IdCell { cell }, ByteMap { map: containers }, ByteMap { map: items })
}

impl IdCell {
    /// Relies on `Cell::get`: it returns the value the cell holds.
    #[verifier::external_body]
    pub fn read(&self) -> (r: u64)
        ensures
            r == id_cell_value(*self),
    {
        *self.cell.get()
    }

    /// Relies on `Cell::set`: it writes the value through to the backing
    /// region before returning. An eight-byte value never exceeds the
    /// region's capacity.
    #[verifier::external_body]
    pub fn write(&mut self, v: u64)
        ensures
            id_cell_value(*final(self)) == v,
    {
        self.cell.set(v);
    }
}

impl ByteMap {
    /// Relies on `StableBTreeMap::get`: it returns the value stored
    /// under the key, or nothing when the key is absent.
    #[verifier::external_body]
    pub fn get(&self, key: u64) -> (r: Option<Vec<u8>>)
        ensures
            match r {
                Some(v) => byte_map_entries(*self).contains_key(key) && v@ == byte_map_entries(
                    *self,
                )[key],
                None => !byte_map_entries(*self).contains_key(key),
            },
    {
        self.map.get(&key)
    }

    /// Relies on `StableBTreeMap::insert`: an upsert that returns the
    /// previous value under the key, if there was one. The node writer
    /// stores the value's length as 32 bits, so values must stay below
    /// that bound.
    #[verifier::external_body]
    pub fn insert(&mut self, key: u64, value: Vec<u8>) -> (prev: Option<Vec<u8>>)
        requires
            value@.len() < 0x1_0000_0000,
        ensures
            byte_map_entries(*final(self)) == byte_map_entries(*old(self)).insert(key, value@),
            match prev {
                Some(v) => byte_map_entries(*old(self)).contains_key(key) && v@ == byte_map_entries(
                    *old(self),
                )[key],
                None => !byte_map_entries(*old(self)).contains_key(key),
            },
    {
        self.map.insert(key, value)
    }

    /// Relies on `StableBTreeMap::iter`: it walks every entry once, in
    /// ascending key order.
    #[verifier::external_body]
    pub fn entries(&self) -> (r: Vec<(u64, Vec<u8>)>)
        ensures
            forall|i: int, j: int| 0 <= i < j < r@.len() ==> r@[i].0 < r@[j].0,
            forall|i: int|
                0 <= i < r@.len() ==> byte_map_entries(*self).contains_key(#[trigger] r@[i].0)
                    && r@[i].1@ == byte_map_entries(*self)[r@[i].0],
            forall|k: u64|
                byte_map_entries(*self).contains_key(k) ==> exists|i: int|
                    0 <= i < r@.len() && #[trigger] r@[i].0 == k,
            byte_map_entries(*self).dom().finite() ==> r@.len() == byte_map_entries(
                *self,
            ).dom().len(),
    {
        let mut out = Vec::new();
        for entry in self.map.iter() {
            out.push(entry.into_pair());
        }
        out
    }
}

} // verus!
