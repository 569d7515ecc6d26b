//! Binary codec for the two record kinds: a fixed byte format, an exact
//! round trip, and a maximum serialized size per record.
//!
//! Layout of a container: the id as eight little-endian bytes, then the
//! name and the address, each as four little-endian length bytes followed
//! by that many bytes. An item adds quantity and the two timestamps ahead
//! of its variable fields and ends with its embedded container.
use vstd::prelude::*;
use vstd::bytes::*;
use vstd::slice::slice_subrange;
use vstd::slice::slice_to_vec;
use crate::records::Container;
use crate::records::ContainerModel;
use crate::records::Item;
use crate::records::ItemModel;

verus! {

/// Upper bound on the serialized size of one record, in bytes.
pub const MAX_RECORD_BYTES: usize = 1024;

/// A length-prefixed field: four little-endian length bytes, then the bytes.
pub open spec fn enc_field(s: Seq<u8>) -> Seq<u8> {
    spec_u32_to_le_bytes(s.len() as u32) + s
}

/// How many bytes the encoding of a container takes.
pub open spec fn container_enc_len(c: ContainerModel) -> int {
    16 + c.name.len() as int + c.address.len() as int
}

/// The byte encoding of a container.
pub open spec fn enc_container(c: ContainerModel) -> Seq<u8> {
    spec_u64_to_le_bytes(c.id) + enc_field(c.name) + enc_field(c.address)
}

/// What a byte sequence decodes to as a container, if anything: the
/// inverse of [`enc_container`] on its range, rejecting all other input.
pub open spec fn dec_container(b: Seq<u8>) -> Option<ContainerModel> {
    if b.len() < 12 {
        None
    } else {
        let id = spec_u64_from_le_bytes(b.subrange(0, 8));
        let nlen = spec_u32_from_le_bytes(b.subrange(8, 12)) as int;
        if b.len() < 16 + nlen {
            None
        } else {
            let name = b.subrange(12, 12 + nlen);
            let alen = spec_u32_from_le_bytes(b.subrange(12 + nlen, 16 + nlen)) as int;
            if b.len() != 16 + nlen + alen {
                None
            } else {
                let address = b.subrange(16 + nlen, 16 + nlen + alen);
                Some(ContainerModel { id, name, address })
            }
        }
    }
}

/// How many bytes the encoding of an item takes.
pub open spec fn item_enc_len(m: ItemModel) -> int {
    36 + m.name.len() as int + m.category.len() as int + container_enc_len(m.container)
}

/// The byte encoding of an item.
pub open spec fn enc_item(m: ItemModel) -> Seq<u8> {
    spec_u64_to_le_bytes(m.id) + spec_u32_to_le_bytes(m.quantity)
        + spec_u64_to_le_bytes(m.added_at) + spec_u64_to_le_bytes(m.restocked_at)
        + enc_field(m.name) + enc_field(m.category) + enc_container(m.container)
}

/// What a byte sequence decodes to as an item, if anything.
pub open spec fn dec_item(b: Seq<u8>) -> Option<ItemModel> {
    if b.len() < 36 {
        None
    } else {
        let id = spec_u64_from_le_bytes(b.subrange(0, 8));
        let quantity = spec_u32_from_le_bytes(b.subrange(8, 12));
        let added_at = spec_u64_from_le_bytes(b.subrange(12, 20));
        let restocked_at = spec_u64_from_le_bytes(b.subrange(20, 28));
        let nlen = spec_u32_from_le_bytes(b.subrange(28, 32)) as int;
        if b.len() < 36 + nlen {
            None
        } else {
            let name = b.subrange(32, 32 + nlen);
            let clen = spec_u32_from_le_bytes(b.subrange(32 + nlen, 36 + nlen)) as int;
            if b.len() < 36 + nlen + clen {
                None
            } else {
                let category = b.subrange(36 + nlen, 36 + nlen + clen);
                match dec_container(b.subrange(36 + nlen + clen, b.len() as int)) {
                    Some(container) => Some(
                        ItemModel { id, name, quantity, category, container, added_at, restocked_at },
                    ),
                    None => None,
                }
            }
        }
    }
}

/// The encoding of a container always takes exactly [`container_enc_len`] bytes.
pub proof fn lemma_container_enc_len(c: ContainerModel)
    ensures
        enc_container(c).len() == container_enc_len(c),
{
    lemma_auto_spec_u64_to_from_le_bytes();
    lemma_auto_spec_u32_to_from_le_bytes();
}

/// The encoding of an item always takes exactly [`item_enc_len`] bytes.
pub proof fn lemma_item_enc_len(m: ItemModel)
    ensures
        enc_item(m).len() == item_enc_len(m),
{
    lemma_auto_spec_u64_to_from_le_bytes();
    lemma_auto_spec_u32_to_from_le_bytes();
    lemma_container_enc_len(m.container);
}

/// Round trip: decoding the encoding of any container that fits the size
/// bound gives that container back exactly.
pub proof fn lemma_container_round_trip(c: ContainerModel)
    requires
        container_enc_len(c) <= MAX_RECORD_BYTES,
    ensures
        dec_container(enc_container(c)) == Some(c),
{
    lemma_auto_spec_u64_to_from_le_bytes();
    lemma_auto_spec_u32_to_from_le_bytes();
    let e = enc_container(c);
    let n = c.name.len() as int;
    let a = c.address.len() as int;
    lemma_container_enc_len(c);
    assert(e.subrange(0, 8) =~= spec_u64_to_le_bytes(c.id));
    assert(e.subrange(8, 12) =~= spec_u32_to_le_bytes(c.name.len() as u32));
    assert(e.subrange(12, 12 + n) =~= c.name);
    assert(e.subrange(12 + n, 16 + n) =~= spec_u32_to_le_bytes(c.address.len() as u32));
    assert(e.subrange(16 + n, 16 + n + a) =~= c.address);
}

/// Round trip: decoding the encoding of any item that fits the size bound
/// gives that item back exactly.
pub proof fn lemma_item_round_trip(m: ItemModel)
    requires
        item_enc_len(m) <= MAX_RECORD_BYTES,
    ensures
        dec_item(enc_item(m)) == Some(m),
{
    lemma_auto_spec_u64_to_from_le_bytes();
    lemma_auto_spec_u32_to_from_le_bytes();
    let e = enc_item(m);
    let n = m.name.len() as int;
    let c = m.category.len() as int;
    lemma_item_enc_len(m);
    lemma_container_enc_len(m.container);
    assert(e.subrange(0, 8) =~= spec_u64_to_le_bytes(m.id));
    assert(e.subrange(8, 12) =~= spec_u32_to_le_bytes(m.quantity));
    assert(e.subrange(12, 20) =~= spec_u64_to_le_bytes(m.added_at));
    assert(e.subrange(20, 28) =~= spec_u64_to_le_bytes(m.restocked_at));
    assert(e.subrange(28, 32) =~= spec_u32_to_le_bytes(m.name.len() as u32));
    assert(e.subrange(32, 32 + n) =~= m.name);
    assert(e.subrange(32 + n, 36 + n) =~= spec_u32_to_le_bytes(m.category.len() as u32));
    assert(e.subrange(36 + n, 36 + n + c) =~= m.category);
    assert(e.subrange(36 + n + c, e.len() as int) =~= enc_container(m.container));
    lemma_container_round_trip(m.container);
}

/// Encodes a container, or reports that the size bound would be exceeded.
pub fn encode_container(c: &Container) -> (r: Option<Vec<u8>>)
    ensures
        match r {
            Some(v) => container_enc_len(c@) <= MAX_RECORD_BYTES && v@ == enc_container(c@),
            None => container_enc_len(c@) > MAX_RECORD_BYTES,
        },
{
    if c.name.len() > MAX_RECORD_BYTES || c.address.len() > MAX_RECORD_BYTES {
        return None;
    }
    if 16 + c.name.len() + c.address.len() > MAX_RECORD_BYTES {
        return None;
    }
    let mut out = u64_to_le_bytes(c.id);
    let mut nl = u32_to_le_bytes(c.name.len() as u32);
    out.append(&mut nl);
    let mut nb = slice_to_vec(c.name.as_slice());
    out.append(&mut nb);
    let mut al = u32_to_le_bytes(c.address.len() as u32);
    out.append(&mut al);
    let mut ab = slice_to_vec(c.address.as_slice());
    out.append(&mut ab);
    proof {
        assert(out@ =~= enc_container(c@));
    }
    Some(out)
}

/// Decodes a container from bytes produced by [`encode_container`];
/// reports failure on any other byte sequence.
pub fn decode_container(b: &Vec<u8>) -> (r: Option<Container>)
    ensures
        match r {
            Some(c) => dec_container(b@) == Some(c@),
            None => dec_container(b@) is None,
        },
{
    if b.len() < 16 {
        return None;
    }
    let id = u64_from_le_bytes(slice_subrange(b.as_slice(), 0, 8));
    let nlen = u32_from_le_bytes(slice_subrange(b.as_slice(), 8, 12)) as usize;
    if b.len() - 16 < nlen {
        return None;
    }
    let name = slice_to_vec(slice_subrange(b.as_slice(), 12, 12 + nlen));
    let alen = u32_from_le_bytes(slice_subrange(b.as_slice(), 12 + nlen, 16 + nlen)) as usize;
    if b.len() - 16 - nlen != alen {
        return None;
    }
    let address = slice_to_vec(slice_subrange(b.as_slice(), 16 + nlen, b.len()));
    Some(Container { id, name, address })
}

/// Encodes an item, or reports that the size bound would be exceeded.
pub fn encode_item(it: &Item) -> (r: Option<Vec<u8>>)
    ensures
        match r {
            Some(v) => item_enc_len(it@) <= MAX_RECORD_BYTES && v@ == enc_item(it@),
            None => item_enc_len(it@) > MAX_RECORD_BYTES,
        },
{
    if it.name.len() > MAX_RECORD_BYTES || it.category.len() > MAX_RECORD_BYTES {
        return None;
    }
    let cb = match encode_container(&it.container) {
        Some(cb) => cb,
        None => {
            return None;
        },
    };
    proof {
        lemma_container_enc_len(it.container@);
    }
    if 36 + it.name.len() + it.category.len() + cb.len() > MAX_RECORD_BYTES {
        return None;
    }
    let mut out = u64_to_le_bytes(it.id);
    let mut qb = u32_to_le_bytes(it.quantity);
    out.append(&mut qb);
    let mut tb = u64_to_le_bytes(it.added_at);
    out.append(&mut tb);
    let mut rb = u64_to_le_bytes(it.restocked_at);
    out.append(&mut rb);
    let mut nl = u32_to_le_bytes(it.name.len() as u32);
    out.append(&mut nl);
    let mut nb = slice_to_vec(it.name.as_slice());
    out.append(&mut nb);
    let mut cl = u32_to_le_bytes(it.category.len() as u32);
    out.append(&mut cl);
    let mut cab = slice_to_vec(it.category.as_slice());
    out.append(&mut cab);
    let mut cbb = cb;
    out.append(&mut cbb);
    proof {
        assert(out@ =~= enc_item(it@));
    }
    Some(out)
}

/// Decodes an item from bytes produced by [`encode_item`]; reports
/// failure on any other byte sequence.
pub fn decode_item(b: &Vec<u8>) -> (r: Option<Item>)
    ensures
        match r {
            Some(it) => dec_item(b@) == Some(it@),
            None => dec_item(b@) is None,
        },
{
    if b.len() < 36 {
        return None;
    }
    let id = u64_from_le_bytes(slice_subrange(b.as_slice(), 0, 8));
    let quantity = u32_from_le_bytes(slice_subrange(b.as_slice(), 8, 12));
    let added_at = u64_from_le_bytes(slice_subrange(b.as_slice(), 12, 20));
    let restocked_at = u64_from_le_bytes(slice_subrange(b.as_slice(), 20, 28));
    let nlen = u32_from_le_bytes(slice_subrange(b.as_slice(), 28, 32)) as usize;
    if b.len() - 36 < nlen {
        return None;
    }
    let name = slice_to_vec(slice_subrange(b.as_slice(), 32, 32 + nlen));
    let clen = u32_from_le_bytes(slice_subrange(b.as_slice(), 32 + nlen, 36 + nlen)) as usize;
    if b.len() - 36 - nlen < clen {
        return None;
    }
    let category = slice_to_vec(slice_subrange(b.as_slice(), 36 + nlen, 36 + nlen + clen));
    let tail = slice_to_vec(slice_subrange(b.as_slice(), 36 + nlen + clen, b.len()));
    match decode_container(&tail) {
        Some(container) => Some(
            Item { id, name, quantity, category, container, added_at, restocked_at },
        ),
        None => None,
    }
}

} // verus!
