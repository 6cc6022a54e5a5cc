//! `.worldSaveData.ItemContainerSaveData` RawData blobs: inventories. Two shapes:
//! the container's own permissions (`decode_container`) and one inventory slot's item
//! and count (`decode_slot`). Both keep their tail as an unparsed byte blob.

use vstd::prelude::*;
use super::error::RawDataError;
use crate::gvas::error::GvasError;
use crate::gvas::primitives::{
    lemma_fstring_reads_back, lemma_fstring_view, lemma_i32_reads_back, lemma_le_round_trips, lemma_read_back_u32,
    lemma_window_is_encoding, lemma_guid_ext,
    FString, FStringView, Guid, append_bytes, copy_range, fits, fstring_end, fstring_view_at, i32_at, i32_bytes,
    read_fstring, read_guid, read_i32_le, read_u32_le, u32_at, u32_bytes, write_fstring, write_guid, write_i32_le,
    write_u32_le,
};

verus! {

#[derive(Debug, Clone, PartialEq, Eq)]
pub struct ItemContainer {
    pub type_a: Vec<u8>,
    pub type_b: Vec<u8>,
    pub item_static_ids: Vec<FString>,
    pub trailing_unparsed_data: Vec<u8>,
}

/// Where `n` consecutive FStrings starting at `p` end.
pub open spec fn strings_end(buf: Seq<u8>, p: int, n: nat) -> Option<int>
    decreases n,
{
    if n == 0 {
        Some(p)
    } else {
        match strings_end(buf, p, (n - 1) as nat) {
            Some(q) => fstring_end(buf, q),
            None => None,
        }
    }
}

/// The encodings of a run of FStrings, in order.
pub open spec fn strings_bytes(ids: Seq<FString>) -> Seq<u8>
    decreases ids.len(),
{
    if ids.len() == 0 {
        Seq::empty()
    } else {
        strings_bytes(ids.drop_last()) + ids.last()@.bytes()
    }
}

proof fn lemma_strings_none(buf: Seq<u8>, p: int, m: nat, n: nat)
    requires
        m <= n,
        strings_end(buf, p, m) is None,
    ensures
        strings_end(buf, p, n) is None,
    decreases n - m,
{
    if m < n {
        lemma_strings_none(buf, p, m + 1, n);
    }
}

/// Reads `n` bytes one at a time; fails at the first byte past the end.
pub(crate) fn read_n_bytes(buf: &[u8], pos: &mut usize, n: u32) -> (r: Result<Vec<u8>, GvasError>)
    requires
        *old(pos) <= buf@.len(),
    ensures
        fits(buf@, *old(pos) as int, n as int) <==> r is Ok,
        r matches Ok(v) ==> v@ == buf@.subrange(*old(pos) as int, *old(pos) + n) && *final(pos) == *old(pos) + n,
        r matches Err(e) ==> e is UnexpectedEof,
{
    let len = buf.len();
    if (n as usize) > len - *pos {
        return Err(GvasError::UnexpectedEof { need: 1, at: len, have: 0 });
    }
    let v = copy_range(buf, *pos, *pos + n as usize);
    *pos = *pos + n as usize;
    Ok(v)
}

fn read_strings(buf: &[u8], pos: &mut usize, n: u32) -> (r: Result<Vec<FString>, GvasError>)
    ensures
        strings_end(buf@, *old(pos) as int, n as nat) is Some <==> r is Ok,
        r matches Ok(ids) ==> {
            &&& *final(pos) == strings_end(buf@, *old(pos) as int, n as nat)->0
            &&& ids@.len() == n
            &&& forall|i: int|
                0 <= i < n ==> (#[trigger] ids@[i])@ == fstring_view_at(buf@, strings_end(buf@, *old(pos) as int, i as nat)->0)
        },
        r matches Err(e) ==> e is UnexpectedEof,
{
    let ghost p = *pos as int;
    let mut ids: Vec<FString> = Vec::new();
    let mut i: u32 = 0;
    while i < n
        invariant
            i <= n,
            p == *old(pos),
            strings_end(buf@, p, i as nat) == Some(*pos as int),
            ids@.len() == i,
            forall|j: int| 0 <= j < i ==> (#[trigger] ids@[j])@ == fstring_view_at(buf@, strings_end(buf@, p, j as nat)->0),
        decreases n - i,
    {
        let s = match read_fstring(buf, pos) {
            Ok(s) => s,
            Err(e) => {
                proof {
                    lemma_strings_none(buf@, p, (i + 1) as nat, n as nat);
                }
                return Err(e);
            },
        };
        ids.push(s);
        i = i + 1;
    }
    Ok(ids)
}

/// Offsets of an item container blob's parts: the second byte list's count, the id
/// list's count, and where the unparsed tail starts.
pub open spec fn container_parts(bytes: Seq<u8>) -> Option<(int, int, int)> {
    if !fits(bytes, 0, 4) || !fits(bytes, 4, u32_at(bytes, 0) as int) {
        None
    } else {
        let p1 = 4 + u32_at(bytes, 0);
        if !fits(bytes, p1, 4) || !fits(bytes, p1 + 4, u32_at(bytes, p1) as int) {
            None
        } else {
            let p2 = p1 + 4 + u32_at(bytes, p1);
            if !fits(bytes, p2, 4) {
                None
            } else {
                match strings_end(bytes, p2 + 4, u32_at(bytes, p2) as nat) {
                    Some(t) => Some((p1, p2, t)),
                    None => None,
                }
            }
        }
    }
}

/// `c` is what a decode of `bytes` yields.
pub open spec fn container_decodes(bytes: Seq<u8>, c: ItemContainer) -> bool {
    container_parts(bytes) matches Some((p1, p2, t)) && {
        let n = u32_at(bytes, p2) as nat;
        &&& c.type_a@ == bytes.subrange(4, p1)
        &&& c.type_b@ == bytes.subrange(p1 + 4, p2)
        &&& c.item_static_ids@.len() == n
        &&& forall|i: int|
            0 <= i < n ==> (#[trigger] c.item_static_ids@[i])@ == fstring_view_at(bytes, strings_end(bytes, p2 + 4, i as nat)->0)
        &&& c.trailing_unparsed_data@ == bytes.subrange(t, bytes.len() as int)
    }
}

/// The container's encoding: each list with its u32 count, then the tail.
pub open spec fn container_bytes(c: ItemContainer) -> Seq<u8> {
    u32_bytes(c.type_a@.len() as u32) + c.type_a@ + u32_bytes(c.type_b@.len() as u32) + c.type_b@ + u32_bytes(
        c.item_static_ids@.len() as u32,
    ) + strings_bytes(c.item_static_ids@) + c.trailing_unparsed_data@
}

pub fn decode_container(bytes: &[u8]) -> (r: Result<ItemContainer, RawDataError>)
    ensures
        r is Ok <==> container_parts(bytes@) is Some,
        r matches Ok(c) ==> container_decodes(bytes@, c),
        r matches Err(e) ==> e is Gvas,
{
    let mut pos: usize = 0;
    let type_a_count = match read_u32_le(bytes, &mut pos) {
        Ok(n) => n,
        Err(e) => {
            return Err(RawDataError::Gvas(e));
        },
    };
    let type_a = match read_n_bytes(bytes, &mut pos, type_a_count) {
        Ok(v) => v,
        Err(e) => {
            return Err(RawDataError::Gvas(e));
        },
    };
    let type_b_count = match read_u32_le(bytes, &mut pos) {
        Ok(n) => n,
        Err(e) => {
            return Err(RawDataError::Gvas(e));
        },
    };
    let type_b = match read_n_bytes(bytes, &mut pos, type_b_count) {
        Ok(v) => v,
        Err(e) => {
            return Err(RawDataError::Gvas(e));
        },
    };
    let ids_count = match read_u32_le(bytes, &mut pos) {
        Ok(n) => n,
        Err(e) => {
            return Err(RawDataError::Gvas(e));
        },
    };
    let item_static_ids = match read_strings(bytes, &mut pos, ids_count) {
        Ok(v) => v,
        Err(e) => {
            return Err(RawDataError::Gvas(e));
        },
    };
    let trailing_unparsed_data = copy_range(bytes, pos, bytes.len());
    Ok(ItemContainer { type_a, type_b, item_static_ids, trailing_unparsed_data })
}

fn write_strings(out: &mut Vec<u8>, ids: &Vec<FString>)
    ensures
        final(out)@ == old(out)@ + strings_bytes(ids@),
{
    let mut i: usize = 0;
    while i < ids.len()
        invariant
            i <= ids@.len(),
            out@ == old(out)@ + strings_bytes(ids@.take(i as int)),
        decreases ids@.len() - i,
    {
        write_fstring(out, &ids[i]);
        proof {
            assert(ids@.take(i + 1).drop_last() =~= ids@.take(i as int));
        }
        i = i + 1;
    }
    assert(ids@.take(i as int) =~= ids@);
}

pub fn encode_container(data: &ItemContainer) -> (out: Vec<u8>)
    ensures
        out@ == container_bytes(*data),
{
    let mut out: Vec<u8> = Vec::new();
    write_u32_le(&mut out, data.type_a.len() as u32);
    append_bytes(&mut out, data.type_a.as_slice());
    write_u32_le(&mut out, data.type_b.len() as u32);
    append_bytes(&mut out, data.type_b.as_slice());
    write_u32_le(&mut out, data.item_static_ids.len() as u32);
    write_strings(&mut out, &data.item_static_ids);
    append_bytes(&mut out, data.trailing_unparsed_data.as_slice());
    assert(out@ =~= container_bytes(*data));
    out
}

#[derive(Debug, Clone, Copy, PartialEq, Eq, PartialOrd, Ord, Hash)]
pub struct DynamicId {
    pub created_world_id: Guid,
    pub local_id_in_created_world: Guid,
}

impl DynamicId {
    /// Both guids are all zero: the slot's item has no per-instance state.
    pub fn is_zero(&self) -> (r: bool)
        ensures
            r == (forall|j: int| 0 <= j < 16 ==> self.created_world_id@[j] == 0 && self.local_id_in_created_world@[j]
                == 0),
    {
        crate::gvas::primitives::guid_is_zero(&self.created_world_id) && crate::gvas::primitives::guid_is_zero(
            &self.local_id_in_created_world,
        )
    }
}

#[derive(Debug, Clone, PartialEq, Eq)]
pub struct ItemId {
    pub static_id: FString,
    pub dynamic_id: DynamicId,
}

#[derive(Debug, Clone, PartialEq, Eq)]
pub struct ItemContainerSlot {
    pub slot_index: i32,
    pub count: i32,
    pub item: ItemId,
    pub trailing_bytes: Vec<u8>,
}

/// Where a slot's fixed part ends, if the blob holds one.
pub open spec fn item_slot_end(bytes: Seq<u8>) -> Option<int> {
    if !fits(bytes, 0, 8) {
        None
    } else {
        match fstring_end(bytes, 8) {
            Some(e) => if fits(bytes, e, 32) { Some(e + 32) } else { None },
            None => None,
        }
    }
}

/// `s` is what a decode of `bytes` yields.
pub open spec fn item_slot_decodes(bytes: Seq<u8>, s: ItemContainerSlot) -> bool {
    item_slot_end(bytes) matches Some(t) && {
        let e = fstring_end(bytes, 8)->0;
        &&& s.slot_index == i32_at(bytes, 0)
        &&& s.count == i32_at(bytes, 4)
        &&& s.item.static_id@ == fstring_view_at(bytes, 8)
        &&& s.item.dynamic_id.created_world_id@ == bytes.subrange(e, e + 16)
        &&& s.item.dynamic_id.local_id_in_created_world@ == bytes.subrange(e + 16, e + 32)
        &&& s.trailing_bytes@ == bytes.subrange(t, bytes.len() as int)
    }
}

/// The slot's encoding.
pub open spec fn item_slot_bytes(s: ItemContainerSlot) -> Seq<u8> {
    i32_bytes(s.slot_index) + i32_bytes(s.count) + s.item.static_id@.bytes() + s.item.dynamic_id.created_world_id@
        + s.item.dynamic_id.local_id_in_created_world@ + s.trailing_bytes@
}

pub fn decode_slot(bytes: &[u8]) -> (r: Result<ItemContainerSlot, RawDataError>)
    ensures
        r is Ok <==> item_slot_end(bytes@) is Some,
        r matches Ok(s) ==> item_slot_decodes(bytes@, s),
        r matches Err(e) ==> e is Gvas,
{
    let mut pos: usize = 0;
    let slot_index = match read_i32_le(bytes, &mut pos) {
        Ok(v) => v,
        Err(e) => {
            return Err(RawDataError::Gvas(e));
        },
    };
    let count = match read_i32_le(bytes, &mut pos) {
        Ok(v) => v,
        Err(e) => {
            return Err(RawDataError::Gvas(e));
        },
    };
    let static_id = match read_fstring(bytes, &mut pos) {
        Ok(v) => v,
        Err(e) => {
            return Err(RawDataError::Gvas(e));
        },
    };
    let created_world_id = match read_guid(bytes, &mut pos) {
        Ok(v) => v,
        Err(e) => {
            return Err(RawDataError::Gvas(e));
        },
    };
    let local_id_in_created_world = match read_guid(bytes, &mut pos) {
        Ok(v) => v,
        Err(e) => {
            return Err(RawDataError::Gvas(e));
        },
    };
    let trailing_bytes = copy_range(bytes, pos, bytes.len());
    Ok(ItemContainerSlot {
        slot_index,
        count,
        item: ItemId { static_id, dynamic_id: DynamicId { created_world_id, local_id_in_created_world } },
        trailing_bytes,
    })
}

pub fn encode_slot(data: &ItemContainerSlot) -> (out: Vec<u8>)
    ensures
        out@ == item_slot_bytes(*data),
{
    let mut out: Vec<u8> = Vec::new();
    write_i32_le(&mut out, data.slot_index);
    write_i32_le(&mut out, data.count);
    write_fstring(&mut out, &data.item.static_id);
    write_guid(&mut out, &data.item.dynamic_id.created_world_id);
    write_guid(&mut out, &data.item.dynamic_id.local_id_in_created_world);
    append_bytes(&mut out, data.trailing_bytes.as_slice());
    assert(out@ =~= item_slot_bytes(*data));
    out
}


/// Each FString of a run of canonical strings reads back from the run's encoding.
proof fn lemma_strings_read_back(ids: Seq<FString>, before: Seq<u8>, rest: Seq<u8>)
    requires
        forall|i: int| 0 <= i < ids.len() ==> (#[trigger] ids[i])@.canonical(),
    ensures
        strings_end(before + strings_bytes(ids) + rest, before.len() as int, ids.len())
            == Some((before.len() + strings_bytes(ids).len()) as int),
        forall|i: int|
            0 <= i < ids.len() ==> fstring_view_at(
                before + strings_bytes(ids) + rest,
                strings_end(before + strings_bytes(ids) + rest, before.len() as int, i as nat)->0,
            ) == (#[trigger] ids[i])@,
    decreases ids.len(),
{
    if ids.len() > 0 {
        let init = ids.drop_last();
        let last = ids.last();
        let tail = last@.bytes() + rest;
        assert(before + strings_bytes(ids) + rest =~= before + strings_bytes(init) + tail);
        lemma_strings_read_back(init, before, tail);
        let x = before + strings_bytes(ids) + rest;
        let b2 = before + strings_bytes(init);
        assert(x =~= b2 + last@.bytes() + rest);
        lemma_fstring_reads_back(last@, b2, rest);
        assert forall|i: int| 0 <= i < ids.len() implies fstring_view_at(
            x,
            strings_end(x, before.len() as int, i as nat)->0,
        ) == (#[trigger] ids[i])@ by {
            if i < init.len() {
                assert(ids[i] == init[i]);
            }
        }
    }
}

/// The bytes a run of strings was read from are the run's encoding.
proof fn lemma_strings_bytes_of_read(bytes: Seq<u8>, p: int, ids: Seq<FString>)
    requires
        0 <= p <= bytes.len(),
        strings_end(bytes, p, ids.len()) is Some,
        forall|i: int| 0 <= i < ids.len() ==> (#[trigger] ids[i])@ == fstring_view_at(bytes, strings_end(bytes, p, i as nat)->0),
    ensures
        strings_bytes(ids) == bytes.subrange(p, strings_end(bytes, p, ids.len())->0),
        p <= strings_end(bytes, p, ids.len())->0 <= bytes.len(),
    decreases ids.len(),
{
    if ids.len() == 0 {
        assert(bytes.subrange(p, p) =~= Seq::<u8>::empty());
    } else {
        let init = ids.drop_last();
        assert forall|i: int| 0 <= i < init.len() implies (#[trigger] init[i])@ == fstring_view_at(
            bytes,
            strings_end(bytes, p, i as nat)->0,
        ) by {
            assert(init[i] == ids[i]);
        }
        lemma_strings_bytes_of_read(bytes, p, init);
        let q = strings_end(bytes, p, init.len())->0;
        lemma_fstring_view(bytes, q);
        let e = strings_end(bytes, p, ids.len())->0;
        assert(bytes.subrange(p, e) =~= bytes.subrange(p, q) + bytes.subrange(q, e));
    }
}


/// Law: encoding a decoded item container reproduces its bytes, and decoding an
/// encoded container (counts within u32, canonical ids) gives it back.
pub proof fn container_round_trip(bytes: Seq<u8>, c: ItemContainer, d: ItemContainer)
    ensures
        container_decodes(bytes, c) ==> container_bytes(c) == bytes,
        ({
            let enc = container_bytes(d);
            (d.type_a@.len() <= u32::MAX && d.type_b@.len() <= u32::MAX && d.item_static_ids@.len() <= u32::MAX
                && forall|i: int| 0 <= i < d.item_static_ids@.len() ==> (#[trigger] d.item_static_ids@[i])@.canonical())
                ==> container_parts(enc) is Some && forall|e: ItemContainer| container_decodes(enc, e) ==> {
                    &&& e.type_a@ == d.type_a@
                    &&& e.type_b@ == d.type_b@
                    &&& e.item_static_ids@.len() == d.item_static_ids@.len()
                    &&& forall|i: int| 0 <= i < d.item_static_ids@.len() ==> (#[trigger] e.item_static_ids@[i])@
                        == d.item_static_ids@[i]@
                    &&& e.trailing_unparsed_data@ == d.trailing_unparsed_data@
                }
        }),
{
    lemma_le_round_trips();
    if container_decodes(bytes, c) {
        let (p1, p2, t) = container_parts(bytes)->0;
        lemma_window_is_encoding(bytes, 0);
        lemma_window_is_encoding(bytes, p1);
        lemma_window_is_encoding(bytes, p2);
        lemma_strings_bytes_of_read(bytes, p2 + 4, c.item_static_ids@);
        assert(container_bytes(c) =~= bytes);
    }
    let enc = container_bytes(d);
    if d.type_a@.len() <= u32::MAX && d.type_b@.len() <= u32::MAX && d.item_static_ids@.len() <= u32::MAX
        && forall|i: int| 0 <= i < d.item_static_ids@.len() ==> (#[trigger] d.item_static_ids@[i])@.canonical() {
        let a = d.type_a@;
        let b = d.type_b@;
        let ids = d.item_static_ids@;
        let sb = strings_bytes(ids);
        let tail = d.trailing_unparsed_data@;
        lemma_read_back_u32(a.len() as u32, a + u32_bytes(b.len() as u32) + b + u32_bytes(ids.len() as u32) + sb + tail, Seq::empty());
        assert(enc =~= Seq::<u8>::empty() + u32_bytes(a.len() as u32) + (a + u32_bytes(b.len() as u32) + b + u32_bytes(
            ids.len() as u32,
        ) + sb + tail));
        let pre1 = u32_bytes(a.len() as u32) + a;
        lemma_read_back_u32(b.len() as u32, b + u32_bytes(ids.len() as u32) + sb + tail, pre1);
        assert(enc =~= pre1 + u32_bytes(b.len() as u32) + (b + u32_bytes(ids.len() as u32) + sb + tail));
        let pre2 = pre1 + u32_bytes(b.len() as u32) + b;
        lemma_read_back_u32(ids.len() as u32, sb + tail, pre2);
        assert(enc =~= pre2 + u32_bytes(ids.len() as u32) + (sb + tail));
        let pre3 = pre2 + u32_bytes(ids.len() as u32);
        lemma_strings_read_back(ids, pre3, tail);
        assert(enc =~= pre3 + sb + tail);
        assert forall|e: ItemContainer| container_decodes(enc, e) implies {
            &&& e.type_a@ == d.type_a@
            &&& e.type_b@ == d.type_b@
            &&& e.item_static_ids@.len() == d.item_static_ids@.len()
            &&& forall|i: int| 0 <= i < d.item_static_ids@.len() ==> (#[trigger] e.item_static_ids@[i])@
                == d.item_static_ids@[i]@
            &&& e.trailing_unparsed_data@ == d.trailing_unparsed_data@
        } by {
            assert(enc.subrange(4, 4 + a.len() as int) =~= a);
            assert(enc.subrange(pre1.len() as int + 4, pre2.len() as int) =~= b);
            assert(enc.subrange((pre3.len() + sb.len()) as int, enc.len() as int) =~= tail);
        }
    }
}

/// Law: encoding a decoded slot reproduces its bytes, and decoding an encoded slot
/// (canonical item id) gives it back.
pub proof fn slot_round_trip(bytes: Seq<u8>, s: ItemContainerSlot, d: ItemContainerSlot)
    ensures
        item_slot_decodes(bytes, s) ==> item_slot_bytes(s) == bytes,
        d.item.static_id@.canonical() ==> item_slot_end(item_slot_bytes(d)) is Some && forall|e: ItemContainerSlot|
            item_slot_decodes(item_slot_bytes(d), e) ==> {
                &&& e.slot_index == d.slot_index
                &&& e.count == d.count
                &&& e.item.static_id@ == d.item.static_id@
                &&& e.item.dynamic_id == d.item.dynamic_id
                &&& e.trailing_bytes@ == d.trailing_bytes@
            },
{
    lemma_le_round_trips();
    if item_slot_decodes(bytes, s) {
        lemma_window_is_encoding(bytes, 0);
        lemma_window_is_encoding(bytes, 4);
        lemma_fstring_view(bytes, 8);
        assert(item_slot_bytes(s) =~= bytes);
    }
    if d.item.static_id@.canonical() {
        let enc = item_slot_bytes(d);
        let sid = d.item.static_id@;
        let rest = d.item.dynamic_id.created_world_id@ + d.item.dynamic_id.local_id_in_created_world@ + d.trailing_bytes@;
        lemma_i32_reads_back(d.slot_index, Seq::empty(), i32_bytes(d.count) + sid.bytes() + rest);
        assert(enc =~= Seq::<u8>::empty() + i32_bytes(d.slot_index) + (i32_bytes(d.count) + sid.bytes() + rest));
        lemma_i32_reads_back(d.count, i32_bytes(d.slot_index), sid.bytes() + rest);
        assert(enc =~= i32_bytes(d.slot_index) + i32_bytes(d.count) + (sid.bytes() + rest));
        let pre = i32_bytes(d.slot_index) + i32_bytes(d.count);
        lemma_fstring_reads_back(sid, pre, rest);
        assert(enc =~= pre + sid.bytes() + rest);
        let e0: int = (pre.len() + sid.bytes().len()) as int;
        assert forall|e: ItemContainerSlot| item_slot_decodes(enc, e) implies {
            &&& e.slot_index == d.slot_index
            &&& e.count == d.count
            &&& e.item.static_id@ == d.item.static_id@
            &&& e.item.dynamic_id == d.item.dynamic_id
            &&& e.trailing_bytes@ == d.trailing_bytes@
        } by {
            assert(enc.subrange(e0, e0 + 16) =~= d.item.dynamic_id.created_world_id@);
            assert(enc.subrange(e0 + 16, e0 + 32) =~= d.item.dynamic_id.local_id_in_created_world@);
            assert(enc.subrange(e0 + 32, enc.len() as int) =~= d.trailing_bytes@);
            assert(e.item.dynamic_id.created_world_id@ =~= d.item.dynamic_id.created_world_id@);
            assert(e.item.dynamic_id.local_id_in_created_world@ =~= d.item.dynamic_id.local_id_in_created_world@);
            lemma_guid_ext(e.item.dynamic_id.created_world_id, d.item.dynamic_id.created_world_id);
            lemma_guid_ext(e.item.dynamic_id.local_id_in_created_world, d.item.dynamic_id.local_id_in_created_world);
        }
    }
}

} // verus!
