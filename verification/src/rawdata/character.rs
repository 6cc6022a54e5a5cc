//! `.worldSaveData.CharacterSaveParameterMap` value's "RawData" blob: players and
//! Pals. A nested, None-terminated GVAS property list (the stats, IVs, passives,
//! level, ...), then 4 unknown bytes, the group id, and 4 trailing bytes; the blob
//! must be consumed exactly. The list's spans are offsets into the blob itself.

use vstd::prelude::*;
use super::error::RawDataError;
use crate::gvas::PropertyEntry;
use crate::gvas::error::GvasError;
use crate::gvas::primitives::{Guid, append_bytes, fits, read_guid, read_u8, write_guid};
use crate::gvas::value::{property_list_at, property_list_end, property_list_terminator, read_property_list};
use vstd::slice::slice_subrange;

verus! {

#[derive(Debug, Clone, PartialEq, Eq)]
pub struct CharacterData {
    /// The Pal's or player's own properties, indexed against the blob.
    pub object: Vec<PropertyEntry>,
    /// Where the property list — including its "None" terminator — ends.
    pub object_end: usize,
    pub unknown_bytes: [u8; 4],
    pub group_id: Guid,
    pub trailing_bytes: [u8; 4],
}

/// Reads four bytes.
pub fn read_array4(buf: &[u8], pos: &mut usize) -> (r: Result<[u8; 4], GvasError>)
    ensures
        fits(buf@, *old(pos) as int, 4) <==> r is Ok,
        r matches Ok(a) ==> a@ == buf@.subrange(*old(pos) as int, *old(pos) + 4) && *final(pos) == *old(pos) + 4,
        r matches Err(e) ==> e is UnexpectedEof,
{
    let ghost p = *pos as int;
    let b0 = read_u8(buf, pos)?;
    let b1 = read_u8(buf, pos)?;
    let b2 = read_u8(buf, pos)?;
    let b3 = read_u8(buf, pos)?;
    let a = [b0, b1, b2, b3];
    assert(a@ =~= buf@.subrange(p, p + 4));
    Ok(a)
}

/// Where a character blob's fixed trailer ends, if the blob holds one.
pub open spec fn character_end(bytes: Seq<u8>, g: bool) -> Option<int> {
    match property_list_end(bytes, 0, g) {
        Some(e) => if fits(bytes, e, 24) { Some(e + 24) } else { None },
        None => None,
    }
}

/// `d` is what a decode of `bytes` yields.
pub open spec fn character_decodes(bytes: Seq<u8>, g: bool, d: CharacterData) -> bool {
    let e = property_list_end(bytes, 0, g)->0;
    &&& property_list_end(bytes, 0, g) is Some
    &&& property_list_at(bytes, d.object@, 0, property_list_terminator(bytes, 0, g), g)
    &&& d.object_end == e
    &&& d.unknown_bytes@ == bytes.subrange(e, e + 4)
    &&& d.group_id@ == bytes.subrange(e + 4, e + 20)
    &&& d.trailing_bytes@ == bytes.subrange(e + 20, e + 24)
}

/// The blob `encode` writes: the source's property list bytes, then the trailer.
pub open spec fn character_bytes(source: Seq<u8>, d: CharacterData) -> Seq<u8> {
    source.subrange(0, d.object_end as int) + d.unknown_bytes@ + d.group_id@ + d.trailing_bytes@
}

/// `has_property_guid` should come from the enclosing save's header.
pub fn decode(bytes: &[u8], has_property_guid: bool) -> (r: Result<CharacterData, RawDataError>)
    ensures
        r is Ok <==> character_end(bytes@, has_property_guid) == Some(bytes@.len() as int),
        match r {
            Ok(d) => character_decodes(bytes@, has_property_guid, d),
            Err(RawDataError::NotExhausted { consumed, total }) => character_end(bytes@, has_property_guid)
                == Some(consumed as int) && total == bytes@.len() && consumed != total,
            Err(RawDataError::Gvas(_)) => character_end(bytes@, has_property_guid) is None,
        },
{
    let mut pos: usize = 0;
    let object = match read_property_list(bytes, &mut pos, has_property_guid) {
        Ok(o) => o,
        Err(e) => {
            return Err(RawDataError::Gvas(e));
        },
    };
    let object_end = pos;
    let unknown_bytes = match read_array4(bytes, &mut pos) {
        Ok(a) => a,
        Err(e) => {
            return Err(RawDataError::Gvas(e));
        },
    };
    let group_id = match read_guid(bytes, &mut pos) {
        Ok(g) => g,
        Err(e) => {
            return Err(RawDataError::Gvas(e));
        },
    };
    let trailing_bytes = match read_array4(bytes, &mut pos) {
        Ok(a) => a,
        Err(e) => {
            return Err(RawDataError::Gvas(e));
        },
    };
    if pos != bytes.len() {
        return Err(RawDataError::NotExhausted { consumed: pos, total: bytes.len() });
    }
    Ok(CharacterData { object, object_end, unknown_bytes, group_id, trailing_bytes })
}

/// Re-emits the blob from `source`: the property list's bytes (including its "None"
/// terminator) are replayed verbatim, so the result is byte-identical to what was
/// decoded.
pub fn encode(source: &[u8], data: &CharacterData) -> (out: Vec<u8>)
    requires
        data.object_end <= source@.len(),
    ensures
        out@ == character_bytes(source@, *data),
{
    let mut out: Vec<u8> = Vec::new();
    append_bytes(&mut out, slice_subrange(source, 0, data.object_end));
    append_bytes(&mut out, &data.unknown_bytes);
    write_guid(&mut out, &data.group_id);
    append_bytes(&mut out, &data.trailing_bytes);
    out
}

/// Law: encoding what a complete decode of `bytes` gave reproduces `bytes` exactly.
pub proof fn character_round_trip(bytes: Seq<u8>, g: bool, d: CharacterData)
    requires
        character_end(bytes, g) == Some(bytes.len() as int),
        character_decodes(bytes, g, d),
    ensures
        character_bytes(bytes, d) == bytes,
{
    assert(character_bytes(bytes, d) =~= bytes);
}

} // verus!
