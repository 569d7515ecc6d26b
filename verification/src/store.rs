//! The store: an identifier allocator and one entity store per record
//! kind over the persistence substrate, and the create/read/update
//! operations on them.
use vstd::prelude::*;
use vstd::string::StringExecFns;
use crate::backing::byte_map_entries;
use crate::backing::fresh_backing;
use crate::backing::id_cell_value;
use crate::backing::ByteMap;
use crate::backing::IdCell;
use crate::codec::container_enc_len;
use crate::codec::dec_container;
use crate::codec::dec_item;
use crate::codec::decode_container;
use crate::codec::decode_item;
use crate::codec::encode_container;
use crate::codec::encode_item;
use crate::codec::item_enc_len;
use crate::codec::lemma_container_enc_len;
use crate::codec::lemma_container_round_trip;
use crate::codec::lemma_item_enc_len;
use crate::codec::lemma_item_round_trip;
use crate::codec::MAX_RECORD_BYTES;
use crate::records::Container;
use crate::records::ContainerModel;
use crate::records::Error;
use crate::records::Item;
use crate::records::ItemModel;
use crate::records::valid_text;
use crate::text::char_count_bytes;
use crate::text::contains_bytes;
use crate::text::contains_seq;
use crate::text::fold_case;
use crate::text::lower_of;
use ic_stable_structures::memory_manager::MemoryId;
use ic_stable_structures::memory_manager::MemoryManager;
use ic_stable_structures::Cell;
use ic_stable_structures::DefaultMemoryImpl;
use ic_stable_structures::StableBTreeMap;

verus! {

/// Mathematical model of the whole store: the allocator's next value and
/// one identifier-to-record map per record kind.
pub struct StoreModel {
    pub next: u64,
    pub containers: Map<u64, ContainerModel>,
    pub items: Map<u64, ItemModel>,
}

/// The container records a region's byte entries decode to.
pub open spec fn dec_container_map(cc: Map<u64, Seq<u8>>) -> Map<u64, ContainerModel> {
    cc.map_values(|b: Seq<u8>| dec_container(b).unwrap())
}

/// The item records a region's byte entries decode to.
pub open spec fn dec_item_map(ic: Map<u64, Seq<u8>>) -> Map<u64, ItemModel> {
    ic.map_values(|b: Seq<u8>| dec_item(b).unwrap())
}

/// Every identifier the store holds is below the allocator's next value,
/// so the next created record can never collide with a stored one.
pub open spec fn ids_below_next(m: StoreModel) -> bool {
    &&& forall|k: u64| m.containers.contains_key(k) ==> k < m.next
    &&& forall|k: u64| m.items.contains_key(k) ==> k < m.next
}

/// Every stored record carries the identifier it is keyed under.
pub open spec fn keyed_by_id(m: StoreModel) -> bool {
    &&& forall|k: u64| m.containers.contains_key(k) ==> (#[trigger] m.containers[k]).id == k
    &&& forall|k: u64| m.items.contains_key(k) ==> (#[trigger] m.items[k]).id == k
}

/// Whether a container's name matches a search query: the query's
/// Unicode case folding occurs inside the name's.
pub open spec fn name_matches(c: ContainerModel, query: Seq<u8>) -> bool {
    contains_seq(lower_of(c.name), lower_of(query))
}

/// Decoding a region's entries keeps its set of identifiers.
proof fn lemma_dec_container_map_dom(cc: Map<u64, Seq<u8>>)
    ensures
        dec_container_map(cc).dom() == cc.dom(),
{
    assert(dec_container_map(cc).dom() =~= cc.dom());
}

/// The record store. Construct one at process start — [`Store::attach`]
/// to keep persisted contents, [`Store::new`] for a fresh store — and
/// route every operation through it.
pub struct Store {
    counter: IdCell,
    containers: ByteMap,
    items: ByteMap,
}

impl View for Store {
    type V = StoreModel;

    closed spec fn view(&self) -> StoreModel {
        StoreModel {
            next: id_cell_value(self.counter),
            containers: dec_container_map(byte_map_entries(self.containers)),
            items: dec_item_map(byte_map_entries(self.items)),
        }
    }
}

impl Store {
    /// Both entity stores hold byte for byte the same entries.
    pub closed spec fn same_stores(self, other: Store) -> bool {
        &&& byte_map_entries(self.containers) == byte_map_entries(other.containers)
        &&& byte_map_entries(self.items) == byte_map_entries(other.items)
    }

    /// The store's invariant: every stored byte entry decodes to a
    /// record that fits the size bound and carries its key as its
    /// identifier, and every key is below the allocator's next value.
    pub closed spec fn inv(&self) -> bool {
        let cc = byte_map_entries(self.containers);
        let ic = byte_map_entries(self.items);
        let next = id_cell_value(self.counter);
        &&& cc.dom().finite()
        &&& ic.dom().finite()
        &&& forall|k: u64|
            #[trigger] cc.contains_key(k) ==> dec_container(cc[k]) is Some && dec_container(
                cc[k],
            ).unwrap().id == k && container_enc_len(dec_container(cc[k]).unwrap())
                <= MAX_RECORD_BYTES && k < next
        &&& forall|k: u64|
            #[trigger] ic.contains_key(k) ==> dec_item(ic[k]) is Some && dec_item(
                ic[k],
            ).unwrap().id == k && item_enc_len(dec_item(ic[k]).unwrap()) <= MAX_RECORD_BYTES && k
                < next
    }

    /// The invariant puts every stored identifier below the next value.
    pub proof fn lemma_ids_below_next(&self)
        requires
            self.inv(),
        ensures
            ids_below_next(self@),
    {
    }

    /// The invariant keys every record by its own identifier.
    pub proof fn lemma_keyed_by_id(&self)
        requires
            self.inv(),
        ensures
            keyed_by_id(self@),
    {
    }

    /// Creates a fresh, empty store: the allocator starts at zero and
    /// both entity stores start empty, overwriting whatever the address
    /// space held. To keep persisted contents across a restart use
    /// [`Store::attach`] instead, and construct at most one store per
    /// process either way.
    pub fn new() -> (s: Store)
        ensures
            s.inv(),
            s@.next == 0,
            s@.containers == Map::<u64, ContainerModel>::empty(),
            s@.items == Map::<u64, ItemModel>::empty(),
    {
        let (counter, containers, items) = fresh_backing();
        let s = Store { counter, containers, items };
        proof {
            assert(s@.containers =~= Map::<u64, ContainerModel>::empty());
            assert(s@.items =~= Map::<u64, ItemModel>::empty());
        }
        s
    }

    /// Attaches to the persistent address space, reloading whatever an
    /// earlier run left in it; fresh memory starts at counter zero with
    /// both entity stores empty. Relies on `MemoryManager::init` and
    /// `MemoryManager::get` for the same non-overlapping regions as
    /// before, and on `Cell::init` and `StableBTreeMap::init` to reload
    /// the persisted contents. The store is trusted to be
    /// append-consistent: only this library's own operations write the
    /// regions, and they all preserve the invariant, so the reloaded
    /// contents are assumed to satisfy it. Construct at most one store
    /// per process: on the deployment target a second one would alias
    /// the same regions.
    #[verifier::external_body]
    pub fn attach() -> (s: Store)
        ensures
            s.inv(),
    {
        let manager = MemoryManager::init(DefaultMemoryImpl::default());
        let counter = IdCell { cell: Cell::init(manager.get(MemoryId::new(0)), 0u64) };
        let containers = ByteMap { map: StableBTreeMap::init(manager.get(MemoryId::new(1))) };
        let items = ByteMap { map: StableBTreeMap::init(manager.get(MemoryId::new(2))) };
        Store { counter, containers, items }
    }

    /// The identifier the allocator will hand out next.
    pub fn peek_next_id(&self) -> (r: u64)
        ensures
            r == self@.next,
    {
        self.counter.read()
    }

    /// Allocates a fresh identifier: hands out the allocator's current
    /// value and persists the incremented value before returning, so no
    /// identifier is ever handed out twice. Shared by both record kinds:
    /// there is exactly one sequence.
    pub fn next_id(&mut self) -> (r: u64)
        requires
            old(self).inv(),
            old(self)@.next < u64::MAX,
        ensures
            final(self).inv(),
            r == old(self)@.next,
            final(self)@.next == old(self)@.next + 1,
            final(self)@.containers == old(self)@.containers,
            final(self)@.items == old(self)@.items,
            old(self).same_stores(*final(self)),
    {
        let id = self.counter.read();
        self.counter.write(id + 1);
        id
    }

    /// Validates the name and the address, allocates a fresh identifier,
    /// stores the new container and returns it. Rejected input leaves
    /// the store untouched.
    pub fn create_container(&mut self, name: Vec<u8>, address: Vec<u8>) -> (r: Result<
        Container,
        Error,
    >)
        requires
            old(self).inv(),
            old(self)@.next < u64::MAX,
            valid_text(name@) && valid_text(address@) ==> 16 + name@.len() + address@.len()
                <= MAX_RECORD_BYTES,
        ensures
            final(self).inv(),
            match r {
                Ok(c) => {
                    &&& valid_text(name@) && valid_text(address@)
                    &&& c@ == (ContainerModel {
                        id: old(self)@.next,
                        name: name@,
                        address: address@,
                    })
                    &&& final(self)@.next == old(self)@.next + 1
                    &&& final(self)@.containers == old(self)@.containers.insert(
                        old(self)@.next,
                        c@,
                    )
                    &&& final(self)@.items == old(self)@.items
                },
                Err(e) => {
                    &&& e is InvalidPayload
                    &&& !(valid_text(name@) && valid_text(address@))
                    &&& final(self)@ == old(self)@
                },
            },
    {
        if char_count_bytes(&name) < 3 || char_count_bytes(&address) < 3 {
            return Err(
                Error::InvalidPayload {
                    msg: String::from_str("name and address must each have at least 3 characters"),
                },
            );
        }
        let id = self.next_id();
        let container = Container { id, name, address };
        let blob = encode_container(&container).unwrap();
        proof {
            lemma_container_enc_len(container@);
        }
        let prev = self.containers.insert(id, blob);
        proof {
            assert(prev is None);
            lemma_container_round_trip(container@);
            let old_cc = byte_map_entries(old(self).containers);
            let new_cc = byte_map_entries(self.containers);
            assert(dec_container_map(new_cc) =~= dec_container_map(old_cc).insert(
                id,
                container@,
            ));
        }
        Ok(container)
    }

    /// Returns the container stored under the identifier, or reports
    /// that there is none.
    pub fn get_container(&self, container_id: u64) -> (r: Result<Container, Error>)
        requires
            self.inv(),
        ensures
            match r {
                Ok(c) => self@.containers.contains_key(container_id) && c@
                    == self@.containers[container_id],
                Err(e) => e is NotFound && !self@.containers.contains_key(container_id),
            },
    {
        match self.containers.get(container_id) {
            Some(blob) => Ok(decode_container(&blob).unwrap()),
            None => Err(Error::NotFound { msg: String::from_str("container id not found") }),
        }
    }

    /// Replaces only the name of the container stored under the
    /// identifier, keeping its identifier and address, or reports that
    /// there is none.
    pub fn edit_container(&mut self, container_id: u64, name: Vec<u8>) -> (r: Result<
        Container,
        Error,
    >)
        requires
            old(self).inv(),
            old(self)@.containers.contains_key(container_id) ==> 16 + name@.len() + old(
                self,
            )@.containers[container_id].address.len() <= MAX_RECORD_BYTES,
        ensures
            final(self).inv(),
            match r {
                Ok(c) => {
                    &&& old(self)@.containers.contains_key(container_id)
                    &&& c@ == (ContainerModel {
                        id: container_id,
                        name: name@,
                        address: old(self)@.containers[container_id].address,
                    })
                    &&& final(self)@.containers == old(self)@.containers.insert(container_id, c@)
                    &&& final(self)@.items == old(self)@.items
                    &&& final(self)@.next == old(self)@.next
                },
                Err(e) => {
                    &&& e is NotFound
                    &&& !old(self)@.containers.contains_key(container_id)
                    &&& final(self)@ == old(self)@
                },
            },
    {
        let stored = match self.containers.get(container_id) {
            Some(blob) => decode_container(&blob).unwrap(),
            None => {
                return Err(Error::NotFound { msg: String::from_str("container id not found") });
            },
        };
        let updated = Container { id: stored.id, name, address: stored.address };
        let blob = encode_container(&updated).unwrap();
        proof {
            lemma_container_enc_len(updated@);
        }
        let _prev = self.containers.insert(container_id, blob);
        proof {
            lemma_container_round_trip(updated@);
            let old_cc = byte_map_entries(old(self).containers);
            let new_cc = byte_map_entries(self.containers);
            assert(dec_container_map(new_cc) =~= dec_container_map(old_cc).insert(
                container_id,
                updated@,
            ));
        }
        Ok(updated)
    }

    /// Returns every stored container in ascending identifier order, or
    /// reports that none exist.
    #[verifier::loop_isolation(false)]
    pub fn list_containers(&self) -> (r: Result<Vec<Container>, Error>)
        requires
            self.inv(),
        ensures
            match r {
                Ok(v) => {
                    &&& v@.len() == self@.containers.dom().len()
                    &&& v@.len() > 0
                    &&& forall|i: int|
                        0 <= i < v@.len() ==> self@.containers.contains_key(
                            (#[trigger] v@[i])@.id,
                        ) && v@[i]@ == self@.containers[v@[i]@.id]
                    &&& forall|i: int, j: int| 0 <= i < j < v@.len() ==> v@[i]@.id < v@[j]@.id
                    &&& forall|k: u64|
                        #[trigger] self@.containers.contains_key(k) ==> exists|i: int|
                            0 <= i < v@.len() && (#[trigger] v@[i])@.id == k
                },
                Err(e) => e is NotFound && self@.containers.dom().len() == 0,
            },
    {
        proof {
            lemma_dec_container_map_dom(byte_map_entries(self.containers));
        }
        let entries = self.containers.entries();
        let mut out: Vec<Container> = Vec::new();
        let mut idx: usize = 0;
        while idx < entries.len()
            invariant
                0 <= idx <= entries@.len(),
                out@.len() == idx,
                forall|i: int|
                    0 <= i < idx ==> (#[trigger] out@[i])@.id == entries@[i].0 && out@[i]@
                        == self@.containers[entries@[i].0],
            decreases entries@.len() - idx,
        {
            proof {
                let k = entries@[idx as int].0;
                assert(byte_map_entries(self.containers).contains_key(k));
                assert(dec_container(byte_map_entries(self.containers)[k]) is Some);
            }
            let c = decode_container(&entries[idx].1).unwrap();
            out.push(c);
            idx = idx + 1;
        }
        if out.len() == 0 {
            proof {
                assert(byte_map_entries(self.containers).dom() =~= Set::<u64>::empty());
            }
            Err(Error::NotFound { msg: String::from_str("no containers found") })
        } else {
            proof {
                assert forall|k: u64| #[trigger] self@.containers.contains_key(k) implies exists|
                    i: int,
                |
                    0 <= i < out@.len() && (#[trigger] out@[i])@.id == k by {
                    let wi = choose|i: int| 0 <= i < entries@.len() && entries@[i].0 == k;
                    assert(out@[wi]@.id == k);
                };
            }
            Ok(out)
        }
    }

    /// Returns every stored container whose name contains the query,
    /// compared case-insensitively, in ascending identifier order, or
    /// reports that none match.
    #[verifier::loop_isolation(false)]
    #[verifier::rlimit(60)]
    pub fn find_containers_by_name(&self, search: Vec<u8>) -> (r: Result<Vec<Container>, Error>)
        requires
            self.inv(),
        ensures
            match r {
                Ok(v) => {
                    &&& v@.len() > 0
                    &&& forall|i: int|
                        0 <= i < v@.len() ==> self@.containers.contains_key(
                            (#[trigger] v@[i])@.id,
                        ) && v@[i]@ == self@.containers[v@[i]@.id] && name_matches(v@[i]@, search@)
                    &&& forall|i: int, j: int| 0 <= i < j < v@.len() ==> v@[i]@.id < v@[j]@.id
                    &&& forall|k: u64|
                        self@.containers.contains_key(k) && name_matches(
                            #[trigger] self@.containers[k],
                            search@,
                        ) ==> exists|i: int| 0 <= i < v@.len() && (#[trigger] v@[i])@.id == k
                },
                Err(e) => {
                    &&& e is NotFound
                    &&& forall|k: u64|
                        #[trigger] self@.containers.contains_key(k) ==> !name_matches(
                            self@.containers[k],
                            search@,
                        )
                },
            },
    {
        proof {
            lemma_dec_container_map_dom(byte_map_entries(self.containers));
        }
        let query = fold_case(&search);
        let entries = self.containers.entries();
        let mut out: Vec<Container> = Vec::new();
        let mut idx: usize = 0;
        while idx < entries.len()
            invariant
                0 <= idx <= entries@.len(),
                forall|i: int|
                    0 <= i < out@.len() ==> self@.containers.contains_key((#[trigger] out@[i])@.id)
                        && out@[i]@ == self@.containers[out@[i]@.id] && name_matches(
                        out@[i]@,
                        search@,
                    ),
                forall|i: int, j: int| 0 <= i < j < out@.len() ==> out@[i]@.id < out@[j]@.id,
                forall|i: int|
                    0 <= i < out@.len() ==> exists|j: int|
                        0 <= j < idx && (#[trigger] out@[i])@.id == entries@[j].0,
                forall|j: int|
                    0 <= j < idx && name_matches(
                        self@.containers[(#[trigger] entries@[j]).0],
                        search@,
                    ) ==> exists|i: int| 0 <= i < out@.len() && (#[trigger] out@[i])@.id
                        == entries@[j].0,
            decreases entries@.len() - idx,
        {
            proof {
                let k = entries@[idx as int].0;
                assert(byte_map_entries(self.containers).contains_key(k));
                assert(dec_container(byte_map_entries(self.containers)[k]) is Some);
            }
            let c = decode_container(&entries[idx].1).unwrap();
            proof {
                let k = entries@[idx as int].0;
                assert(self@.containers.contains_key(k));
                assert(c@ == self@.containers[k]);
                assert(c@.id == k);
            }
            let folded = fold_case(&c.name);
            let ghost k = entries@[idx as int].0;
            let ghost cv = c;
            if contains_bytes(&folded, &query) {
                proof {
                    assert forall|i: int| 0 <= i < out@.len() implies (#[trigger] out@[i])@.id
                        < k by {
                        let j = choose|j: int| 0 <= j < idx && out@[i]@.id == entries@[j].0;
                        assert(entries@[j].0 < entries@[idx as int].0);
                    };
                }
                let ghost pre = out@;
                out.push(c);
                proof {
                    assert(out@ == pre.push(cv));
                    assert((out@[pre.len() as int])@.id == k);
                    assert forall|j: int|
                        0 <= j < idx + 1 && name_matches(
                            self@.containers[(#[trigger] entries@[j]).0],
                            search@,
                        ) implies exists|i: int|
                        0 <= i < out@.len() && (#[trigger] out@[i])@.id == entries@[j].0 by {
                        if j == idx {
                            assert((out@[pre.len() as int])@.id == entries@[j].0);
                        } else {
                            let wi = choose|i: int|
                                0 <= i < pre.len() && (#[trigger] pre[i])@.id == entries@[j].0;
                            assert((out@[wi])@.id == entries@[j].0);
                        }
                    };
                }
            } else {
                proof {
                    assert(!name_matches(self@.containers[k], search@));
                }
            }
            idx = idx + 1;
        }
        if out.len() == 0 {
            proof {
                assert forall|k: u64| #[trigger] self@.containers.contains_key(k) implies
                    !name_matches(self@.containers[k], search@) by {
                    let j = choose|i: int| 0 <= i < entries@.len() && entries@[i].0 == k;
                    assert(entries@[j].0 == k);
                };
            }
            Err(Error::NotFound { msg: String::from_str("no containers match the name") })
        } else {
            proof {
                assert forall|k: u64|
                    self@.containers.contains_key(k) && name_matches(
                        #[trigger] self@.containers[k],
                        search@,
                    ) implies exists|i: int| 0 <= i < out@.len() && (#[trigger] out@[i])@.id
                    == k by {
                    let j = choose|i: int| 0 <= i < entries@.len() && entries@[i].0 == k;
                    assert(entries@[j].0 == k);
                    assert(name_matches(self@.containers[entries@[j].0], search@));
                };
            }
            Ok(out)
        }
    }

    /// Validates the name, looks the container up, allocates a fresh
    /// identifier and stores a new item that embeds a snapshot of the
    /// container and carries `now` as both of its timestamps. Rejected
    /// input leaves the store untouched.
    pub fn create_item(
        &mut self,
        name: Vec<u8>,
        category: Vec<u8>,
        quantity: u32,
        container_id: u64,
        now: u64,
    ) -> (r: Result<Item, Error>)
        requires
            old(self).inv(),
            old(self)@.next < u64::MAX,
            valid_text(name@) && old(self)@.containers.contains_key(container_id) ==> 36
                + name@.len() + category@.len() + container_enc_len(
                old(self)@.containers[container_id],
            ) <= MAX_RECORD_BYTES,
        ensures
            final(self).inv(),
            match r {
                Ok(it) => {
                    &&& valid_text(name@)
                    &&& old(self)@.containers.contains_key(container_id)
                    &&& it@ == (ItemModel {
                        id: old(self)@.next,
                        name: name@,
                        quantity: quantity,
                        category: category@,
                        container: old(self)@.containers[container_id],
                        added_at: now,
                        restocked_at: now,
                    })
                    &&& final(self)@.next == old(self)@.next + 1
                    &&& final(self)@.items == old(self)@.items.insert(old(self)@.next, it@)
                    &&& final(self)@.containers == old(self)@.containers
                },
                Err(e) => {
                    &&& final(self)@ == old(self)@
                    &&& if !valid_text(name@) {
                        e is InvalidPayload
                    } else {
                        e is NotFound && !old(self)@.containers.contains_key(container_id)
                    }
                },
            },
    {
        if char_count_bytes(&name) < 3 {
            return Err(
                Error::InvalidPayload {
                    msg: String::from_str("name must have at least 3 characters"),
                },
            );
        }
        let container = match self.containers.get(container_id) {
            Some(blob) => decode_container(&blob).unwrap(),
            None => {
                return Err(Error::NotFound { msg: String::from_str("container id not found") });
            },
        };
        let id = self.next_id();
        let item = Item {
            id,
            name,
            quantity,
            category,
            container,
            added_at: now,
            restocked_at: now,
        };
        let blob = encode_item(&item).unwrap();
        proof {
            lemma_item_enc_len(item@);
        }
        let prev = self.items.insert(id, blob);
        proof {
            assert(prev is None);
            lemma_item_round_trip(item@);
            let old_ic = byte_map_entries(old(self).items);
            let new_ic = byte_map_entries(self.items);
            assert(dec_item_map(new_ic) =~= dec_item_map(old_ic).insert(id, item@));
        }
        Ok(item)
    }

    /// Returns the item stored under the identifier, or reports that
    /// there is none.
    pub fn get_item(&self, item_id: u64) -> (r: Result<Item, Error>)
        requires
            self.inv(),
        ensures
            match r {
                Ok(it) => self@.items.contains_key(item_id) && it@ == self@.items[item_id],
                Err(e) => e is NotFound && !self@.items.contains_key(item_id),
            },
    {
        match self.items.get(item_id) {
            Some(blob) => Ok(decode_item(&blob).unwrap()),
            None => Err(Error::NotFound { msg: String::from_str("item id not found") }),
        }
    }

    /// Replaces only the name of the item stored under the identifier,
    /// keeping its identifier, quantity, category, embedded container
    /// and timestamps, or reports that there is none.
    pub fn edit_item(&mut self, item_id: u64, name: Vec<u8>) -> (r: Result<Item, Error>)
        requires
            old(self).inv(),
            old(self)@.items.contains_key(item_id) ==> 36 + name@.len() + old(
                self,
            )@.items[item_id].category.len() + container_enc_len(
                old(self)@.items[item_id].container,
            ) <= MAX_RECORD_BYTES,
        ensures
            final(self).inv(),
            match r {
                Ok(it) => {
                    &&& old(self)@.items.contains_key(item_id)
                    &&& it@ == (ItemModel {
                        id: item_id,
                        name: name@,
                        quantity: old(self)@.items[item_id].quantity,
                        category: old(self)@.items[item_id].category,
                        container: old(self)@.items[item_id].container,
                        added_at: old(self)@.items[item_id].added_at,
                        restocked_at: old(self)@.items[item_id].restocked_at,
                    })
                    &&& final(self)@.items == old(self)@.items.insert(item_id, it@)
                    &&& final(self)@.containers == old(self)@.containers
                    &&& final(self)@.next == old(self)@.next
                },
                Err(e) => {
                    &&& e is NotFound
                    &&& !old(self)@.items.contains_key(item_id)
                    &&& final(self)@ == old(self)@
                },
            },
    {
        let stored = match self.items.get(item_id) {
            Some(blob) => decode_item(&blob).unwrap(),
            None => {
                return Err(Error::NotFound { msg: String::from_str("item id not found") });
            },
        };
        let updated = Item {
            id: stored.id,
            name,
            quantity: stored.quantity,
            category: stored.category,
            container: stored.container,
            added_at: stored.added_at,
            restocked_at: stored.restocked_at,
        };
        let blob = encode_item(&updated).unwrap();
        proof {
            lemma_item_enc_len(updated@);
        }
        let _prev = self.items.insert(item_id, blob);
        proof {
            lemma_item_round_trip(updated@);
            let old_ic = byte_map_entries(old(self).items);
            let new_ic = byte_map_entries(self.items);
            assert(dec_item_map(new_ic) =~= dec_item_map(old_ic).insert(item_id, updated@));
        }
        Ok(updated)
    }

    /// Withdraws a quantity from the item stored under the identifier.
    /// Asking for more than is stocked is rejected and leaves the store
    /// untouched, so a stored quantity never falls below zero.
    pub fn withdraw_item_quantity(&mut self, item_id: u64, amount: u32) -> (r: Result<Item, Error>)
        requires
            old(self).inv(),
        ensures
            final(self).inv(),
            match r {
                Ok(it) => {
                    &&& old(self)@.items.contains_key(item_id)
                    &&& amount <= old(self)@.items[item_id].quantity
                    &&& it@ == (ItemModel {
                        id: item_id,
                        name: old(self)@.items[item_id].name,
                        quantity: (old(self)@.items[item_id].quantity - amount) as u32,
                        category: old(self)@.items[item_id].category,
                        container: old(self)@.items[item_id].container,
                        added_at: old(self)@.items[item_id].added_at,
                        restocked_at: old(self)@.items[item_id].restocked_at,
                    })
                    &&& final(self)@.items == old(self)@.items.insert(item_id, it@)
                    &&& final(self)@.containers == old(self)@.containers
                    &&& final(self)@.next == old(self)@.next
                },
                Err(e) => {
                    &&& final(self)@ == old(self)@
                    &&& if old(self)@.items.contains_key(item_id) {
                        e is InvalidPayload && old(self)@.items[item_id].quantity < amount
                    } else {
                        e is NotFound
                    }
                },
            },
    {
        let stored = match self.items.get(item_id) {
            Some(blob) => decode_item(&blob).unwrap(),
            None => {
                return Err(Error::NotFound { msg: String::from_str("item id not found") });
            },
        };
        if stored.quantity < amount {
            return Err(
                Error::InvalidPayload {
                    msg: String::from_str("not enough quantity of the item in stock"),
                },
            );
        }
        let updated = Item {
            id: stored.id,
            name: stored.name,
            quantity: stored.quantity - amount,
            category: stored.category,
            container: stored.container,
            added_at: stored.added_at,
            restocked_at: stored.restocked_at,
        };
        let blob = encode_item(&updated).unwrap();
        proof {
            lemma_item_enc_len(updated@);
        }
        let _prev = self.items.insert(item_id, blob);
        proof {
            lemma_item_round_trip(updated@);
            let old_ic = byte_map_entries(old(self).items);
            let new_ic = byte_map_entries(self.items);
            assert(dec_item_map(new_ic) =~= dec_item_map(old_ic).insert(item_id, updated@));
        }
        Ok(updated)
    }
}

} // verus!
