//! `.worldSaveData.DynamicItemSaveData[].RawData`: the per-instance state of items
//! that have any — armour durability, a gun's loaded ammo, what is inside an egg.
//!
//! The blob starts with two guids and the item's `static_id`; the payload's shape
//! depends on the kind of item, and nothing in the blob says which kind that is. The
//! payload takes one of three shapes:
//!
//! ```text
//!  12 bytes        u32, f32 durability, i32 remaining_bullets
//!  24+n bytes      ... plus u32, FString, u32
//!  40+n+m bytes    u32, FString, FString, 28 bytes
//! ```
//!
//! [`decode`] tries each shape and requires it to consume the payload to the byte.
//! If more than one shape fits exactly, or none does, the payload stays
//! [`DynamicItemPayload::Opaque`]: a refusal, not a guess. Re-encoding is exact for
//! every shape, `Opaque` included. Floats are kept as their IEEE-754 bit patterns.

use vstd::prelude::*;
use super::error::RawDataError;
use super::item_container::DynamicId;
use vstd::slice::slice_subrange;
use crate::gvas::primitives::{
    FString, FStringView, append_bytes, copy_range, fits, fstring_end, fstring_view_at, i32_at, i32_bytes,
    lemma_fstring_view, lemma_window_is_encoding, read_fstring, read_guid, read_i32_le, read_u32_le, u32_at,
    u32_bytes, write_fstring, write_guid, write_i32_le, write_u32_le,
};

verus! {

/// Bytes of fixed trailer on the egg shape, after its two strings.
pub const EGG_TRAILER_LEN: usize = 28;

#[derive(Debug, Clone, PartialEq, Eq)]
pub enum DynamicItemPayload {
    /// Armour and other single-durability items. `durability` is an `f32`'s bits.
    Durability { unknown_0: u32, durability: u32, remaining_bullets: i32 },
    /// Weapons and tools: durability plus a named ammunition slot. `ammo_static_id` is
    /// the literal string `None` when nothing is loaded — the game's own sentinel, kept
    /// so re-encoding is exact.
    WithAmmo {
        unknown_0: u32,
        durability: u32,
        remaining_bullets: i32,
        unknown_1: u32,
        ammo_static_id: FString,
        unknown_2: u32,
    },
    /// Pal eggs: which Pal is inside.
    Egg { unknown_0: u32, character_id: FString, unknown_name: FString, trailing_bytes: Vec<u8> },
    /// No shape fit exactly, or more than one did. Preserved verbatim.
    Opaque(Vec<u8>),
}

#[derive(Debug, Clone, PartialEq, Eq)]
pub struct DynamicItem {
    pub id: DynamicId,
    pub static_id: FString,
    pub payload: DynamicItemPayload,
}

// ---------------------------------------------------------------------------
// The three shapes
// ---------------------------------------------------------------------------

pub open spec fn durability_shape(p: Seq<u8>) -> bool {
    p.len() == 12
}

/// Where the ammunition name ends, when the payload has room for the fixed part.
pub open spec fn ammo_name_end(p: Seq<u8>) -> Option<int> {
    if fits(p, 0, 16) { fstring_end(p, 16) } else { None }
}

pub open spec fn with_ammo_shape(p: Seq<u8>) -> bool {
    ammo_name_end(p) matches Some(e) && e + 4 == p.len()
}

/// Where the egg's two strings end.
pub open spec fn egg_names_end(p: Seq<u8>) -> Option<(int, int)> {
    if !fits(p, 0, 4) {
        None
    } else {
        match fstring_end(p, 4) {
            Some(a) => match fstring_end(p, a) {
                Some(b) => Some((a, b)),
                None => None,
            },
            None => None,
        }
    }
}

pub open spec fn egg_shape(p: Seq<u8>) -> bool {
    egg_names_end(p) matches Some((a, b)) && p.len() - b == EGG_TRAILER_LEN
}

/// How many of the three shapes fit `p` exactly.
pub open spec fn shape_count(p: Seq<u8>) -> nat {
    (if durability_shape(p) { 1nat } else { 0nat }) + (if with_ammo_shape(p) { 1nat } else { 0nat }) + (if egg_shape(
        p,
    ) {
        1nat
    } else {
        0nat
    })
}

pub open spec fn durability_decodes(p: Seq<u8>, v: DynamicItemPayload) -> bool {
    v matches DynamicItemPayload::Durability { unknown_0, durability, remaining_bullets } && unknown_0 == u32_at(p, 0)
        && durability == u32_at(p, 4) && remaining_bullets == i32_at(p, 8)
}

pub open spec fn with_ammo_decodes(p: Seq<u8>, v: DynamicItemPayload) -> bool {
    v matches DynamicItemPayload::WithAmmo {
        unknown_0,
        durability,
        remaining_bullets,
        unknown_1,
        ammo_static_id,
        unknown_2,
    } && {
        &&& unknown_0 == u32_at(p, 0)
        &&& durability == u32_at(p, 4)
        &&& remaining_bullets == i32_at(p, 8)
        &&& unknown_1 == u32_at(p, 12)
        &&& ammo_static_id@ == fstring_view_at(p, 16)
        &&& unknown_2 == u32_at(p, ammo_name_end(p)->0)
    }
}

pub open spec fn egg_decodes(p: Seq<u8>, v: DynamicItemPayload) -> bool {
    v matches DynamicItemPayload::Egg { unknown_0, character_id, unknown_name, trailing_bytes } && {
        let (a, b) = egg_names_end(p)->0;
        &&& unknown_0 == u32_at(p, 0)
        &&& character_id@ == fstring_view_at(p, 4)
        &&& unknown_name@ == fstring_view_at(p, a)
        &&& trailing_bytes@ == p.subrange(b, p.len() as int)
    }
}

/// `v` is what classifying payload `p` yields: the one shape that fits exactly, or
/// the bytes themselves when none or several do.
pub open spec fn payload_decodes(p: Seq<u8>, v: DynamicItemPayload) -> bool {
    if shape_count(p) != 1 {
        v matches DynamicItemPayload::Opaque(b) && b@ == p
    } else if durability_shape(p) {
        durability_decodes(p, v)
    } else if with_ammo_shape(p) {
        with_ammo_decodes(p, v)
    } else {
        egg_decodes(p, v)
    }
}

pub open spec fn payload_bytes(v: DynamicItemPayload) -> Seq<u8> {
    match v {
        DynamicItemPayload::Durability { unknown_0, durability, remaining_bullets } => u32_bytes(unknown_0) + u32_bytes(
            durability,
        ) + i32_bytes(remaining_bullets),
        DynamicItemPayload::WithAmmo {
            unknown_0,
            durability,
            remaining_bullets,
            unknown_1,
            ammo_static_id,
            unknown_2,
        } => u32_bytes(unknown_0) + u32_bytes(durability) + i32_bytes(remaining_bullets) + u32_bytes(unknown_1)
            + ammo_static_id@.bytes() + u32_bytes(unknown_2),
        DynamicItemPayload::Egg { unknown_0, character_id, unknown_name, trailing_bytes } => u32_bytes(unknown_0)
            + character_id@.bytes() + unknown_name@.bytes() + trailing_bytes@,
        DynamicItemPayload::Opaque(b) => b@,
    }
}

/// Where the blob's header (two guids and the static id) ends.
pub open spec fn item_header_end(bytes: Seq<u8>) -> Option<int> {
    if fits(bytes, 0, 32) { fstring_end(bytes, 32) } else { None }
}

/// `d` is what a decode of `bytes` yields.
pub open spec fn item_decodes(bytes: Seq<u8>, d: DynamicItem) -> bool {
    item_header_end(bytes) matches Some(h) && {
        &&& d.id.created_world_id@ == bytes.subrange(0, 16)
        &&& d.id.local_id_in_created_world@ == bytes.subrange(16, 32)
        &&& d.static_id@ == fstring_view_at(bytes, 32)
        &&& payload_decodes(bytes.subrange(h, bytes.len() as int), d.payload)
    }
}

pub open spec fn item_bytes(d: DynamicItem) -> Seq<u8> {
    d.id.created_world_id@ + d.id.local_id_in_created_world@ + d.static_id@.bytes() + payload_bytes(d.payload)
}

// ---------------------------------------------------------------------------
// Reading
// ---------------------------------------------------------------------------

/// Parses the durability shape, requiring it to end exactly at the payload's end.
fn try_durability(payload: &[u8]) -> (r: Option<DynamicItemPayload>)
    ensures
        r is Some <==> durability_shape(payload@),
        r matches Some(v) ==> durability_decodes(payload@, v),
{
    let mut pos: usize = 0;
    let unknown_0 = match read_u32_le(payload, &mut pos) {
        Ok(v) => v,
        Err(_) => {
            return None;
        },
    };
    let durability = match read_u32_le(payload, &mut pos) {
        Ok(v) => v,
        Err(_) => {
            return None;
        },
    };
    let remaining_bullets = match read_i32_le(payload, &mut pos) {
        Ok(v) => v,
        Err(_) => {
            return None;
        },
    };
    if pos == payload.len() {
        Some(DynamicItemPayload::Durability { unknown_0, durability, remaining_bullets })
    } else {
        None
    }
}

fn try_with_ammo(payload: &[u8]) -> (r: Option<DynamicItemPayload>)
    ensures
        r is Some <==> with_ammo_shape(payload@),
        r matches Some(v) ==> with_ammo_decodes(payload@, v),
{
    let mut pos: usize = 0;
    let unknown_0 = match read_u32_le(payload, &mut pos) {
        Ok(v) => v,
        Err(_) => {
            return None;
        },
    };
    let durability = match read_u32_le(payload, &mut pos) {
        Ok(v) => v,
        Err(_) => {
            return None;
        },
    };
    let remaining_bullets = match read_i32_le(payload, &mut pos) {
        Ok(v) => v,
        Err(_) => {
            return None;
        },
    };
    let unknown_1 = match read_u32_le(payload, &mut pos) {
        Ok(v) => v,
        Err(_) => {
            return None;
        },
    };
    let ammo_static_id = match read_fstring(payload, &mut pos) {
        Ok(v) => v,
        Err(_) => {
            return None;
        },
    };
    let unknown_2 = match read_u32_le(payload, &mut pos) {
        Ok(v) => v,
        Err(_) => {
            return None;
        },
    };
    if pos == payload.len() {
        Some(
            DynamicItemPayload::WithAmmo {
                unknown_0,
                durability,
                remaining_bullets,
                unknown_1,
                ammo_static_id,
                unknown_2,
            },
        )
    } else {
        None
    }
}

fn try_egg(payload: &[u8]) -> (r: Option<DynamicItemPayload>)
    ensures
        r is Some <==> egg_shape(payload@),
        r matches Some(v) ==> egg_decodes(payload@, v),
{
    let mut pos: usize = 0;
    let unknown_0 = match read_u32_le(payload, &mut pos) {
        Ok(v) => v,
        Err(_) => {
            return None;
        },
    };
    let character_id = match read_fstring(payload, &mut pos) {
        Ok(v) => v,
        Err(_) => {
            return None;
        },
    };
    let unknown_name = match read_fstring(payload, &mut pos) {
        Ok(v) => v,
        Err(_) => {
            return None;
        },
    };
    if payload.len() - pos == EGG_TRAILER_LEN {
        let trailing_bytes = copy_range(payload, pos, payload.len());
        Some(DynamicItemPayload::Egg { unknown_0, character_id, unknown_name, trailing_bytes })
    } else {
        None
    }
}

/// How many of the three shapes fit `payload` exactly.
pub fn matching_shape_count(payload: &[u8]) -> (n: usize)
    ensures
        n == shape_count(payload@),
{
    let mut n: usize = 0;
    if try_durability(payload).is_some() {
        n = n + 1;
    }
    if try_with_ammo(payload).is_some() {
        n = n + 1;
    }
    if try_egg(payload).is_some() {
        n = n + 1;
    }
    n
}

/// The one shape that fits `payload` exactly; otherwise the bytes, verbatim.
pub fn classify(payload: &[u8]) -> (v: DynamicItemPayload)
    ensures
        payload_decodes(payload@, v),
{
    let a = try_durability(payload);
    let b = try_with_ammo(payload);
    let c = try_egg(payload);
    match (a, b, c) {
        (Some(v), None, None) => v,
        (None, Some(v), None) => v,
        (None, None, Some(v)) => v,
        _ => {
            let b = copy_range(payload, 0, payload.len());
            assert(b@ =~= payload@);
            DynamicItemPayload::Opaque(b)
        },
    }
}

pub fn decode(bytes: &[u8]) -> (r: Result<DynamicItem, RawDataError>)
    ensures
        r is Ok <==> item_header_end(bytes@) is Some,
        r matches Ok(d) ==> item_decodes(bytes@, d),
        r matches Err(e) ==> e is Gvas,
{
    let mut pos: usize = 0;
    let created_world_id = match read_guid(bytes, &mut pos) {
        Ok(g) => g,
        Err(e) => {
            return Err(RawDataError::Gvas(e));
        },
    };
    let local_id_in_created_world = match read_guid(bytes, &mut pos) {
        Ok(g) => g,
        Err(e) => {
            return Err(RawDataError::Gvas(e));
        },
    };
    let static_id = match read_fstring(bytes, &mut pos) {
        Ok(s) => s,
        Err(e) => {
            return Err(RawDataError::Gvas(e));
        },
    };
    let payload = classify(slice_subrange(bytes, pos, bytes.len()));
    Ok(DynamicItem { id: DynamicId { created_world_id, local_id_in_created_world }, static_id, payload })
}

// ---------------------------------------------------------------------------
// Writing
// ---------------------------------------------------------------------------

pub fn encode(data: &DynamicItem) -> (out: Vec<u8>)
    ensures
        out@ == item_bytes(*data),
{
    let mut out: Vec<u8> = Vec::new();
    write_guid(&mut out, &data.id.created_world_id);
    write_guid(&mut out, &data.id.local_id_in_created_world);
    write_fstring(&mut out, &data.static_id);
    match &data.payload {
        DynamicItemPayload::Durability { unknown_0, durability, remaining_bullets } => {
            write_u32_le(&mut out, *unknown_0);
            write_u32_le(&mut out, *durability);
            write_i32_le(&mut out, *remaining_bullets);
        },
        DynamicItemPayload::WithAmmo {
            unknown_0,
            durability,
            remaining_bullets,
            unknown_1,
            ammo_static_id,
            unknown_2,
        } => {
            write_u32_le(&mut out, *unknown_0);
            write_u32_le(&mut out, *durability);
            write_i32_le(&mut out, *remaining_bullets);
            write_u32_le(&mut out, *unknown_1);
            write_fstring(&mut out, ammo_static_id);
            write_u32_le(&mut out, *unknown_2);
        },
        DynamicItemPayload::Egg { unknown_0, character_id, unknown_name, trailing_bytes } => {
            write_u32_le(&mut out, *unknown_0);
            write_fstring(&mut out, character_id);
            write_fstring(&mut out, unknown_name);
            append_bytes(&mut out, trailing_bytes.as_slice());
        },
        DynamicItemPayload::Opaque(b) => append_bytes(&mut out, b.as_slice()),
    }
    assert(out@ =~= item_bytes(*data));
    out
}

// ---------------------------------------------------------------------------
// Accessors
// ---------------------------------------------------------------------------

impl DynamicItem {
    /// Durability (an `f32`'s bits), for the shapes that carry one.
    pub fn durability(&self) -> (r: Option<u32>)
        ensures
            r == match self.payload {
                DynamicItemPayload::Durability { durability, .. } => Some(durability),
                DynamicItemPayload::WithAmmo { durability, .. } => Some(durability),
                _ => None::<u32>,
            },
    {
        match &self.payload {
            DynamicItemPayload::Durability { durability, .. } => Some(*durability),
            DynamicItemPayload::WithAmmo { durability, .. } => Some(*durability),
            _ => None,
        }
    }

    /// Rounds loaded, for the shapes that carry a count.
    pub fn remaining_bullets(&self) -> (r: Option<i32>)
        ensures
            r == match self.payload {
                DynamicItemPayload::Durability { remaining_bullets, .. } => Some(remaining_bullets),
                DynamicItemPayload::WithAmmo { remaining_bullets, .. } => Some(remaining_bullets),
                _ => None::<i32>,
            },
    {
        match &self.payload {
            DynamicItemPayload::Durability { remaining_bullets, .. } => Some(*remaining_bullets),
            DynamicItemPayload::WithAmmo { remaining_bullets, .. } => Some(*remaining_bullets),
            _ => None,
        }
    }

    /// The loaded ammunition's item id, or `None` when the item has no ammo slot or
    /// the slot holds the game's `None` sentinel (or nothing).
    pub fn ammo_static_id(&self) -> (r: Option<String>)
        ensures
            match self.payload {
                DynamicItemPayload::WithAmmo { ammo_static_id, .. } => {
                    let name = ammo_static_id@.display();
                    if name.len() > 0 && name != "None"@ {
                        r matches Some(s) && s@ == name
                    } else {
                        r is None
                    }
                },
                _ => r is None,
            },
    {
        match &self.payload {
            DynamicItemPayload::WithAmmo { ammo_static_id, .. } => {
                let name = ammo_static_id.display_lossy();
                if !name.as_str().is_empty() && !(name == String::from_str("None")) {
                    Some(name)
                } else {
                    None
                }
            },
            _ => None,
        }
    }

    /// The Pal inside an egg.
    pub fn egg_character_id(&self) -> (r: Option<String>)
        ensures
            match self.payload {
                DynamicItemPayload::Egg { character_id, .. } => {
                    let name = character_id@.display();
                    if name.len() > 0 {
                        r matches Some(s) && s@ == name
                    } else {
                        r is None
                    }
                },
                _ => r is None,
            },
    {
        match &self.payload {
            DynamicItemPayload::Egg { character_id, .. } => {
                let name = character_id.display_lossy();
                if !name.as_str().is_empty() {
                    Some(name)
                } else {
                    None
                }
            },
            _ => None,
        }
    }
}

// ---------------------------------------------------------------------------
// Laws
// ---------------------------------------------------------------------------

/// Law: a classified payload re-encodes to exactly the bytes it was classified from,
/// whichever shape (or none) it took.
pub proof fn payload_round_trip(p: Seq<u8>, v: DynamicItemPayload)
    requires
        payload_decodes(p, v),
    ensures
        payload_bytes(v) == p,
{
    if shape_count(p) == 1 {
        lemma_window_is_encoding(p, 0);
        lemma_window_is_encoding(p, 4);
        lemma_window_is_encoding(p, 8);
        if durability_shape(p) {
            assert(p =~= p.subrange(0, 4) + p.subrange(4, 8) + p.subrange(8, 12));
        } else if with_ammo_shape(p) {
            let e = ammo_name_end(p)->0;
            lemma_window_is_encoding(p, 12);
            lemma_fstring_view(p, 16);
            lemma_window_is_encoding(p, e);
            assert(p =~= p.subrange(0, 4) + p.subrange(4, 8) + p.subrange(8, 12) + p.subrange(12, 16) + p.subrange(
                16,
                e,
            ) + p.subrange(e, e + 4));
        } else {
            let (a, b) = egg_names_end(p)->0;
            lemma_fstring_view(p, 4);
            lemma_fstring_view(p, a);
            assert(p =~= p.subrange(0, 4) + p.subrange(4, a) + p.subrange(a, b) + p.subrange(b, p.len() as int));
        }
    }
}

/// Law: encoding what a decode of `bytes` gave reproduces `bytes` exactly — a byte
/// this module did not understand is never changed.
pub proof fn item_round_trip(bytes: Seq<u8>, d: DynamicItem)
    requires
        item_decodes(bytes, d),
    ensures
        item_bytes(d) == bytes,
{
    let h = item_header_end(bytes)->0;
    lemma_fstring_view(bytes, 32);
    payload_round_trip(bytes.subrange(h, bytes.len() as int), d.payload);
    assert(bytes =~= bytes.subrange(0, 16) + bytes.subrange(16, 32) + bytes.subrange(32, h) + bytes.subrange(
        h,
        bytes.len() as int,
    ));
}

} // verus!
