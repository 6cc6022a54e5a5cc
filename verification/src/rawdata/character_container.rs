//! `.worldSaveData.CharacterContainerSaveData.Value.Slots[].RawData`: which Pal sits
//! in which Pal-box or party slot. Every slot seen is 38 bytes: 16 constant leading
//! bytes, the Pal's instance id, and 6 zero bytes; the tail is read to the end so an
//! appended field still yields a correct instance id.

use vstd::prelude::*;
use super::error::RawDataError;
use crate::gvas::primitives::{Guid, copy_range, fits, read_guid, write_guid, append_bytes};

verus! {

/// One occupied slot of a Pal box, party, or base-camp Pal container.
#[derive(Debug, Clone, PartialEq, Eq)]
pub struct PalContainerSlot {
    /// Constant in every slot of every world seen so far; not an owner uid.
    pub leading_bytes: [u8; 16],
    /// Joins to a `CharacterSaveParameterMap` entry — the Pal itself.
    pub instance_id: Guid,
    pub trailing_bytes: Vec<u8>,
}

/// The slot's encoding: leading bytes, instance id, trailing bytes.
pub open spec fn slot_bytes(d: PalContainerSlot) -> Seq<u8> {
    d.leading_bytes@ + d.instance_id@ + d.trailing_bytes@
}

/// `d` is what a decode of `bytes` yields.
pub open spec fn slot_decodes(bytes: Seq<u8>, d: PalContainerSlot) -> bool {
    &&& bytes.len() >= 32
    &&& d.leading_bytes@ == bytes.subrange(0, 16)
    &&& d.instance_id@ == bytes.subrange(16, 32)
    &&& d.trailing_bytes@ == bytes.subrange(32, bytes.len() as int)
}

pub fn decode_slot(bytes: &[u8]) -> (r: Result<PalContainerSlot, RawDataError>)
    ensures
        r is Ok <==> bytes@.len() >= 32,
        r matches Ok(d) ==> slot_decodes(bytes@, d),
        r matches Err(e) ==> e is Gvas,
{
    let mut pos: usize = 0;
    let leading_bytes = match read_guid(bytes, &mut pos) {
        Ok(g) => g,
        Err(e) => {
            return Err(RawDataError::Gvas(e));
        },
    };
    let instance_id = match read_guid(bytes, &mut pos) {
        Ok(g) => g,
        Err(e) => {
            return Err(RawDataError::Gvas(e));
        },
    };
    let trailing_bytes = copy_range(bytes, pos, bytes.len());
    Ok(PalContainerSlot { leading_bytes, instance_id, trailing_bytes })
}

pub fn encode_slot(data: &PalContainerSlot) -> (out: Vec<u8>)
    ensures
        out@ == slot_bytes(*data),
{
    let mut out: Vec<u8> = Vec::new();
    write_guid(&mut out, &data.leading_bytes);
    write_guid(&mut out, &data.instance_id);
    append_bytes(&mut out, data.trailing_bytes.as_slice());
    out
}

/// Law: decoding a slot's encoding gives the slot back, and encoding a decoded slot
/// gives the bytes back.
pub proof fn slot_round_trip(d: PalContainerSlot, bytes: Seq<u8>, e: PalContainerSlot)
    ensures
        slot_bytes(d).len() >= 32,
        slot_decodes(slot_bytes(d), e) ==> e.leading_bytes@ == d.leading_bytes@ && e.instance_id@ == d.instance_id@
            && e.trailing_bytes@ == d.trailing_bytes@,
        slot_decodes(bytes, e) ==> slot_bytes(e) == bytes,
{
    let b = slot_bytes(d);
    assert(b.subrange(0, 16) =~= d.leading_bytes@);
    assert(b.subrange(16, 32) =~= d.instance_id@);
    assert(b.subrange(32, b.len() as int) =~= d.trailing_bytes@);
    if slot_decodes(bytes, e) {
        assert(slot_bytes(e) =~= bytes);
    }
}

} // verus!
