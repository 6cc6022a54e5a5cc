//! Byte-cursor primitives for the GVAS wire format. All reads borrow from a single
//! `&[u8]` and advance a position; every writer appends exactly the bytes the matching
//! reader consumes.

use vstd::prelude::*;
use vstd::bytes::*;
use vstd::string::*;
use vstd::slice::slice_subrange;
use super::error::{GvasError, eof_error};

verus! {

pub type Guid = [u8; 16];

// ---------------------------------------------------------------------------
// Mathematical model of the little-endian encodings
// ---------------------------------------------------------------------------

/// `n` bytes are available at `at` in `buf`.
pub open spec fn fits(buf: Seq<u8>, at: int, n: int) -> bool {
    0 <= at && at + n <= buf.len()
}

/// The u16 whose little-endian bytes are `b0, b1`.
pub open spec fn u16_of(b0: u8, b1: u8) -> u16 {
    (b0 as u16) | ((b1 as u16) << 8u16)
}

pub open spec fn u16_at(buf: Seq<u8>, at: int) -> u16 {
    u16_of(buf[at], buf[at + 1])
}

pub open spec fn u32_at(buf: Seq<u8>, at: int) -> u32 {
    spec_u32_from_le_bytes(buf.subrange(at, at + 4))
}

pub open spec fn i32_at(buf: Seq<u8>, at: int) -> i32 {
    u32_at(buf, at) as i32
}

pub open spec fn u64_at(buf: Seq<u8>, at: int) -> u64 {
    spec_u64_from_le_bytes(buf.subrange(at, at + 8))
}

pub open spec fn i64_at(buf: Seq<u8>, at: int) -> i64 {
    u64_at(buf, at) as i64
}

pub open spec fn u16_bytes(v: u16) -> Seq<u8> {
    seq![(v & 0xffu16) as u8, (v >> 8u16) as u8]
}

pub open spec fn u32_bytes(v: u32) -> Seq<u8> {
    spec_u32_to_le_bytes(v)
}

pub open spec fn i32_bytes(v: i32) -> Seq<u8> {
    u32_bytes(v as u32)
}

pub open spec fn u64_bytes(v: u64) -> Seq<u8> {
    spec_u64_to_le_bytes(v)
}

pub open spec fn i64_bytes(v: i64) -> Seq<u8> {
    u64_bytes(v as u64)
}

/// UTF-16 code units as little-endian bytes, in order.
pub open spec fn units_bytes(units: Seq<u16>) -> Seq<u8>
    decreases units.len(),
{
    if units.len() == 0 {
        Seq::empty()
    } else {
        units_bytes(units.drop_last()) + u16_bytes(units.last())
    }
}

pub open spec fn optional_guid_bytes(g: Option<Guid>) -> Seq<u8> {
    match g {
        Some(g) => seq![1u8] + g@,
        None => seq![0u8],
    }
}

/// What a successful fixed-width read of `n` bytes at `p` leaves behind.
pub open spec fn read_ok(buf: Seq<u8>, p: int, n: int, final_pos: int) -> bool {
    fits(buf, p, n) && final_pos == p + n
}

/// What a failed fixed-width read of `n` bytes at `p` leaves behind.
pub open spec fn read_failed(buf: Seq<u8>, p: int, n: int, e: GvasError, final_pos: int) -> bool {
    !fits(buf, p, n) && e == eof_error(n, p, buf.len() as int) && final_pos == p
}

// ---------------------------------------------------------------------------
// Facts about the encodings
// ---------------------------------------------------------------------------

/// Each encoding has the expected width and decodes back to the value it encodes;
/// each width-sized window of bytes is the encoding of what it decodes to.
pub proof fn lemma_le_round_trips()
    ensures
        forall|v: u32| #[trigger] u32_bytes(v).len() == 4 && spec_u32_from_le_bytes(u32_bytes(v)) == v,
        forall|v: u64| #[trigger] u64_bytes(v).len() == 8 && spec_u64_from_le_bytes(u64_bytes(v)) == v,
        forall|s: Seq<u8>| s.len() == 4 ==> #[trigger] u32_bytes(spec_u32_from_le_bytes(s)) == s,
        forall|s: Seq<u8>| s.len() == 8 ==> #[trigger] u64_bytes(spec_u64_from_le_bytes(s)) == s,
{
    lemma_auto_spec_u32_to_from_le_bytes();
    lemma_auto_spec_u64_to_from_le_bytes();
    assert forall|v: u32| #[trigger] u32_bytes(v).len() == 4 && spec_u32_from_le_bytes(u32_bytes(v)) == v by {
        assert(spec_u32_to_le_bytes(v).len() == 4);
    }
    assert forall|v: u64| #[trigger] u64_bytes(v).len() == 8 && spec_u64_from_le_bytes(u64_bytes(v)) == v by {
        assert(spec_u64_to_le_bytes(v).len() == 8);
    }
}

/// The u16 byte pair decodes to the value it encodes, and back; a pair decodes to
/// zero exactly when both bytes are zero.
pub proof fn lemma_u16_bytes(v: u16, b0: u8, b1: u8)
    ensures
        u16_of((v & 0xffu16) as u8, (v >> 8u16) as u8) == v,
        ((u16_of(b0, b1) & 0xffu16) as u8) == b0,
        ((u16_of(b0, b1) >> 8u16) as u8) == b1,
        u16_of(b0, b1) == 0 <==> (b0 == 0 && b1 == 0),
{
    assert(((v & 0xffu16) as u8 as u16) | (((v >> 8u16) as u8 as u16) << 8u16) == v) by (bit_vector);
    assert((((b0 as u16) | ((b1 as u16) << 8u16)) & 0xffu16) as u8 == b0) by (bit_vector);
    assert((((b0 as u16) | ((b1 as u16) << 8u16)) >> 8u16) as u8 == b1) by (bit_vector);
    assert(((b0 as u16) | ((b1 as u16) << 8u16)) == 0 <==> (b0 == 0 && b1 == 0)) by (bit_vector);
}

/// A signed 32-bit value survives the trip through its unsigned bit pattern.
pub proof fn lemma_i32_bits(v: i32)
    ensures
        (v as u32) as i32 == v,
{
    assert((v as u32) as i32 == v) by (bit_vector);
}

pub proof fn lemma_units_bytes_len(units: Seq<u16>)
    ensures
        units_bytes(units).len() == 2 * units.len(),
    decreases units.len(),
{
    lemma_le_round_trips();
    if units.len() > 0 {
        lemma_units_bytes_len(units.drop_last());
    }
}

/// Reading the value at the start of `enc + rest`, where `enc` is a value's
/// encoding, gives the value back.
pub proof fn lemma_read_back_u32(v: u32, rest: Seq<u8>, before: Seq<u8>)
    ensures
        u32_at(before + u32_bytes(v) + rest, before.len() as int) == v,
        (before + u32_bytes(v) + rest).len() == before.len() + 4 + rest.len(),
{
    lemma_le_round_trips();
    let all = before + u32_bytes(v) + rest;
    assert(all.subrange(before.len() as int, before.len() as int + 4) =~= u32_bytes(v));
}

/// A `u16` written little-endian anywhere in a buffer reads back as itself.
pub proof fn lemma_read_back_u16(v: u16, rest: Seq<u8>, before: Seq<u8>)
    ensures
        u16_at(before + u16_bytes(v) + rest, before.len() as int) == v,
        (before + u16_bytes(v) + rest).len() == before.len() + 2 + rest.len(),
{
    lemma_u16_bytes(v, 0, 0);
    let all = before + u16_bytes(v) + rest;
    assert(all[before.len() as int] == u16_bytes(v)[0]);
    assert(all[before.len() as int + 1] == u16_bytes(v)[1]);
}

/// A `u64` written little-endian anywhere in a buffer reads back as itself.
pub proof fn lemma_read_back_u64(v: u64, rest: Seq<u8>, before: Seq<u8>)
    ensures
        u64_at(before + u64_bytes(v) + rest, before.len() as int) == v,
        (before + u64_bytes(v) + rest).len() == before.len() + 8 + rest.len(),
{
    lemma_le_round_trips();
    let all = before + u64_bytes(v) + rest;
    assert(all.subrange(before.len() as int, before.len() as int + 8) =~= u64_bytes(v));
}

/// The bytes read at `at` are the encoding of the value read there.
pub proof fn lemma_window_is_encoding(buf: Seq<u8>, at: int)
    ensures
        fits(buf, at, 2) ==> buf.subrange(at, at + 2) == u16_bytes(u16_at(buf, at)),
        fits(buf, at, 2) ==> (u16_at(buf, at) == 0 <==> (buf[at] == 0 && buf[at + 1] == 0)),
        fits(buf, at, 4) ==> buf.subrange(at, at + 4) == u32_bytes(u32_at(buf, at)),
        fits(buf, at, 4) ==> buf.subrange(at, at + 4) == i32_bytes(i32_at(buf, at)),
        fits(buf, at, 8) ==> buf.subrange(at, at + 8) == u64_bytes(u64_at(buf, at)),
        fits(buf, at, 8) ==> buf.subrange(at, at + 8) == i64_bytes(i64_at(buf, at)),
{
    lemma_le_round_trips();
    if fits(buf, at, 2) {
        lemma_u16_bytes(0, buf[at], buf[at + 1]);
        assert(buf.subrange(at, at + 2) =~= u16_bytes(u16_at(buf, at)));
    }
    let x = u32_at(buf, at);
    assert((x as i32) as u32 == x) by (bit_vector);
    assert(i32_bytes(i32_at(buf, at)) == u32_bytes(x));
    let y = u64_at(buf, at);
    assert((y as i64) as u64 == y) by (bit_vector);
    assert(i64_bytes(i64_at(buf, at)) == u64_bytes(y));
}

// ---------------------------------------------------------------------------
// Byte helpers
// ---------------------------------------------------------------------------

/// Appends `bytes` to `out`.
pub fn append_bytes(out: &mut Vec<u8>, bytes: &[u8])
    ensures
        final(out)@ == old(out)@ + bytes@,
{
    let mut i: usize = 0;
    while i < bytes.len()
        invariant
            i <= bytes@.len(),
            out@ == old(out)@ + bytes@.subrange(0, i as int),
        decreases bytes@.len() - i,
    {
        out.push(bytes[i]);
        i = i + 1;
        assert(out@ =~= old(out)@ + bytes@.subrange(0, i as int));
    }
    assert(bytes@.subrange(0, i as int) =~= bytes@);
}

/// A fresh copy of `bytes`.
pub fn bytes_to_vec(bytes: &[u8]) -> (out: Vec<u8>)
    ensures
        out@ == bytes@,
{
    let mut out: Vec<u8> = Vec::new();
    append_bytes(&mut out, bytes);
    assert(out@ =~= bytes@);
    out
}

/// A fresh copy of `bytes[start..end]`.
pub fn copy_range(bytes: &[u8], start: usize, end: usize) -> (out: Vec<u8>)
    requires
        start <= end <= bytes@.len(),
    ensures
        out@ == bytes@.subrange(start as int, end as int),
{
    let mut out: Vec<u8> = Vec::new();
    append_bytes(&mut out, slice_subrange(bytes, start, end));
    out
}

fn need(buf: &[u8], pos: usize, len: usize) -> (r: Result<(), GvasError>)
    ensures
        r is Ok <==> fits(buf@, pos as int, len as int),
        buf@.len() <= usize::MAX,
        r is Err ==> r == Err::<(), GvasError>(eof_error(len as int, pos as int, buf@.len() as int)),
{
    if pos > buf.len() || len > buf.len() - pos {
        Err(GvasError::UnexpectedEof {
            need: len,
            at: pos,
            have: if pos <= buf.len() { buf.len() - pos } else { 0 },
        })
    } else {
        Ok(())
    }
}

// ---------------------------------------------------------------------------
// Fixed-width reads and writes
// ---------------------------------------------------------------------------

pub fn read_u8(buf: &[u8], pos: &mut usize) -> (r: Result<u8, GvasError>)
    ensures
        match r {
            Ok(v) => read_ok(buf@, *old(pos) as int, 1, *final(pos) as int) && v == buf@[*old(pos) as int],
            Err(e) => read_failed(buf@, *old(pos) as int, 1, e, *final(pos) as int),
        },
{
    need(buf, *pos, 1)?;
    let v = buf[*pos];
    *pos = *pos + 1;
    Ok(v)
}

pub fn read_u16_le(buf: &[u8], pos: &mut usize) -> (r: Result<u16, GvasError>)
    ensures
        match r {
            Ok(v) => read_ok(buf@, *old(pos) as int, 2, *final(pos) as int) && v == u16_at(buf@, *old(pos) as int),
            Err(e) => read_failed(buf@, *old(pos) as int, 2, e, *final(pos) as int),
        },
{
    need(buf, *pos, 2)?;
    let v = u16_from_pair(buf[*pos], buf[*pos + 1]);
    *pos = *pos + 2;
    Ok(v)
}

pub fn read_u32_le(buf: &[u8], pos: &mut usize) -> (r: Result<u32, GvasError>)
    ensures
        match r {
            Ok(v) => read_ok(buf@, *old(pos) as int, 4, *final(pos) as int) && v == u32_at(buf@, *old(pos) as int),
            Err(e) => read_failed(buf@, *old(pos) as int, 4, e, *final(pos) as int),
        },
{
    need(buf, *pos, 4)?;
    let v = u32_from_le_bytes(slice_subrange(buf, *pos, *pos + 4));
    *pos = *pos + 4;
    Ok(v)
}

pub fn read_i32_le(buf: &[u8], pos: &mut usize) -> (r: Result<i32, GvasError>)
    ensures
        match r {
            Ok(v) => read_ok(buf@, *old(pos) as int, 4, *final(pos) as int) && v == i32_at(buf@, *old(pos) as int),
            Err(e) => read_failed(buf@, *old(pos) as int, 4, e, *final(pos) as int),
        },
{
    let v = read_u32_le(buf, pos)?;
    Ok(v as i32)
}

pub fn read_u64_le(buf: &[u8], pos: &mut usize) -> (r: Result<u64, GvasError>)
    ensures
        match r {
            Ok(v) => read_ok(buf@, *old(pos) as int, 8, *final(pos) as int) && v == u64_at(buf@, *old(pos) as int),
            Err(e) => read_failed(buf@, *old(pos) as int, 8, e, *final(pos) as int),
        },
{
    need(buf, *pos, 8)?;
    let v = u64_from_le_bytes(slice_subrange(buf, *pos, *pos + 8));
    *pos = *pos + 8;
    Ok(v)
}

pub fn read_i64_le(buf: &[u8], pos: &mut usize) -> (r: Result<i64, GvasError>)
    ensures
        match r {
            Ok(v) => read_ok(buf@, *old(pos) as int, 8, *final(pos) as int) && v == i64_at(buf@, *old(pos) as int),
            Err(e) => read_failed(buf@, *old(pos) as int, 8, e, *final(pos) as int),
        },
{
    let v = read_u64_le(buf, pos)?;
    Ok(v as i64)
}

/// An `f32`, returned as its IEEE-754 bit pattern.
pub fn read_f32_le(buf: &[u8], pos: &mut usize) -> (r: Result<u32, GvasError>)
    ensures
        match r {
            Ok(v) => read_ok(buf@, *old(pos) as int, 4, *final(pos) as int) && v == u32_at(buf@, *old(pos) as int),
            Err(e) => read_failed(buf@, *old(pos) as int, 4, e, *final(pos) as int),
        },
{
    read_u32_le(buf, pos)
}

/// An `f64`, returned as its IEEE-754 bit pattern.
pub fn read_f64_le(buf: &[u8], pos: &mut usize) -> (r: Result<u64, GvasError>)
    ensures
        match r {
            Ok(v) => read_ok(buf@, *old(pos) as int, 8, *final(pos) as int) && v == u64_at(buf@, *old(pos) as int),
            Err(e) => read_failed(buf@, *old(pos) as int, 8, e, *final(pos) as int),
        },
{
    read_u64_le(buf, pos)
}

pub fn write_u8(out: &mut Vec<u8>, v: u8)
    ensures
        final(out)@ == old(out)@.push(v),
{
    out.push(v);
}

pub fn write_u16_le(out: &mut Vec<u8>, v: u16)
    ensures
        final(out)@ == old(out)@ + u16_bytes(v),
{
    out.push((v & 0xff) as u8);
    out.push((v >> 8) as u8);
    assert(out@ =~= old(out)@ + u16_bytes(v));
}

fn u16_from_pair(b0: u8, b1: u8) -> (v: u16)
    ensures
        v == u16_of(b0, b1),
{
    (b0 as u16) | ((b1 as u16) << 8u16)
}

pub fn write_u32_le(out: &mut Vec<u8>, v: u32)
    ensures
        final(out)@ == old(out)@ + u32_bytes(v),
{
    let b = u32_to_le_bytes(v);
    append_bytes(out, b.as_slice());
}

pub fn write_i32_le(out: &mut Vec<u8>, v: i32)
    ensures
        final(out)@ == old(out)@ + i32_bytes(v),
{
    write_u32_le(out, v as u32);
}

pub fn write_u64_le(out: &mut Vec<u8>, v: u64)
    ensures
        final(out)@ == old(out)@ + u64_bytes(v),
{
    let b = u64_to_le_bytes(v);
    append_bytes(out, b.as_slice());
}

pub fn write_i64_le(out: &mut Vec<u8>, v: i64)
    ensures
        final(out)@ == old(out)@ + i64_bytes(v),
{
    write_u64_le(out, v as u64);
}

/// Writes an `f32` given as its IEEE-754 bit pattern.
pub fn write_f32_le(out: &mut Vec<u8>, bits: u32)
    ensures
        final(out)@ == old(out)@ + u32_bytes(bits),
{
    write_u32_le(out, bits);
}

/// Writes an `f64` given as its IEEE-754 bit pattern.
pub fn write_f64_le(out: &mut Vec<u8>, bits: u64)
    ensures
        final(out)@ == old(out)@ + u64_bytes(bits),
{
    write_u64_le(out, bits);
}

// ---------------------------------------------------------------------------
// Guids
// ---------------------------------------------------------------------------

pub fn read_guid(buf: &[u8], pos: &mut usize) -> (r: Result<Guid, GvasError>)
    ensures
        match r {
            Ok(g) => read_ok(buf@, *old(pos) as int, 16, *final(pos) as int)
                && g@ == buf@.subrange(*old(pos) as int, *old(pos) + 16),
            Err(e) => read_failed(buf@, *old(pos) as int, 16, e, *final(pos) as int),
        },
{
    need(buf, *pos, 16)?;
    let p = *pos;
    let g: Guid = [
        buf[p], buf[p + 1], buf[p + 2], buf[p + 3], buf[p + 4], buf[p + 5], buf[p + 6], buf[p + 7],
        buf[p + 8], buf[p + 9], buf[p + 10], buf[p + 11], buf[p + 12], buf[p + 13], buf[p + 14], buf[p + 15],
    ];
    *pos = p + 16;
    assert(g@ =~= buf@.subrange(p as int, p + 16));
    Ok(g)
}

pub fn write_guid(out: &mut Vec<u8>, g: &Guid)
    ensures
        final(out)@ == old(out)@ + g@,
{
    let mut i: usize = 0;
    while i < 16
        invariant
            i <= 16,
            g@.len() == 16,
            out@ == old(out)@ + g@.subrange(0, i as int),
        decreases 16 - i,
    {
        out.push(g[i]);
        i = i + 1;
        assert(out@ =~= old(out)@ + g@.subrange(0, i as int));
    }
    assert(g@.subrange(0, 16) =~= g@);
}

/// Two guids are the same value when their bytes agree.
pub fn guid_eq(a: &Guid, b: &Guid) -> (r: bool)
    ensures
        r == (a@ == b@),
{
    let mut i: usize = 0;
    while i < 16
        invariant
            i <= 16,
            a@.len() == 16,
            b@.len() == 16,
            forall|j: int| 0 <= j < i ==> a@[j] == b@[j],
        decreases 16 - i,
    {
        if a[i] != b[i] {
            return false;
        }
        i = i + 1;
    }
    assert(a@ =~= b@);
    true
}

/// True when every byte of the guid is zero.
pub fn guid_is_zero(g: &Guid) -> (r: bool)
    ensures
        r == (forall|j: int| 0 <= j < 16 ==> g@[j] == 0),
{
    let mut i: usize = 0;
    while i < 16
        invariant
            i <= 16,
            g@.len() == 16,
            forall|j: int| 0 <= j < i ==> g@[j] == 0,
        decreases 16 - i,
    {
        if g[i] != 0 {
            return false;
        }
        i = i + 1;
    }
    true
}

/// A flag byte (non-zero means present), then the guid when present.
/// The error reading the FString at `p` gives, when it fails: its length field, or
/// the body that field declares, does not fit.
pub open spec fn fstring_error(buf: Seq<u8>, p: int) -> GvasError {
    if !fits(buf, p, 4) {
        eof_error(4, p, buf.len() as int)
    } else {
        eof_error(body_len(i32_at(buf, p)), p + 4, buf.len() as int)
    }
}

/// The error reading the optional guid at `p` gives, when it fails.
pub open spec fn optional_guid_error(buf: Seq<u8>, p: int) -> GvasError {
    if !fits(buf, p, 1) {
        eof_error(1, p, buf.len() as int)
    } else {
        eof_error(16, p + 1, buf.len() as int)
    }
}

pub fn read_optional_guid(buf: &[u8], pos: &mut usize) -> (r: Result<Option<Guid>, GvasError>)
    ensures
        optional_guid_end(buf@, *old(pos) as int) is Some <==> r is Ok,
        match r {
            Ok(v) => {
                &&& *final(pos) == optional_guid_end(buf@, *old(pos) as int)->0
                &&& (v is Some <==> buf@[*old(pos) as int] > 0)
                &&& v matches Some(g) ==> g@ == buf@.subrange(*old(pos) + 1, *old(pos) + 17)
            },
            Err(e) => e == optional_guid_error(buf@, *old(pos) as int),
        },
{
    let flag = read_u8(buf, pos)?;
    if flag > 0 {
        let g = read_guid(buf, pos)?;
        Ok(Some(g))
    } else {
        Ok(None)
    }
}

/// Where an optional guid that starts at `p` ends, if the buffer holds it.
pub open spec fn optional_guid_end(buf: Seq<u8>, p: int) -> Option<int> {
    if !fits(buf, p, 1) {
        None
    } else if buf[p] > 0 {
        if fits(buf, p + 1, 16) { Some(p + 17) } else { None }
    } else {
        Some(p + 1)
    }
}

pub fn write_optional_guid(out: &mut Vec<u8>, g: &Option<Guid>)
    ensures
        final(out)@ == old(out)@ + optional_guid_bytes(*g),
{
    match g {
        Some(g) => {
            write_u8(out, 1);
            write_guid(out, g);
            assert(final(out)@ =~= old(out)@ + optional_guid_bytes(Some(*g)));
        },
        None => {
            write_u8(out, 0);
            assert(final(out)@ =~= old(out)@ + optional_guid_bytes(None));
        },
    }
}


// ---------------------------------------------------------------------------
// Text helpers over std
// ---------------------------------------------------------------------------

/// What `String::from_utf8_lossy` makes of a byte sequence.
pub uninterp spec fn lossy_utf8(bytes: Seq<u8>) -> Seq<char>;

/// What `String::from_utf16_lossy` makes of a sequence of UTF-16 code units: a
/// surrogate pair is the one character it encodes, any other surrogate is U+FFFD, and
/// every other unit is the character with its value.
#[verifier::opaque]
pub open spec fn lossy_utf16(units: Seq<u16>) -> Seq<char>
    decreases units.len(),
{
    if units.len() == 0 {
        Seq::empty()
    } else {
        let u = units[0];
        if 0xD800 <= u < 0xDC00 && units.len() > 1 && 0xDC00 <= units[1] < 0xE000 {
            seq![(0x10000 + (u - 0xD800) * 0x400 + (units[1] - 0xDC00)) as char] + lossy_utf16(
                units.subrange(2, units.len() as int),
            )
        } else if 0xD800 <= u < 0xE000 {
            seq!['\u{FFFD}'] + lossy_utf16(units.subrange(1, units.len() as int))
        } else {
            seq![u as char] + lossy_utf16(units.subrange(1, units.len() as int))
        }
    }
}

/// Calls `String::from_utf8_lossy`. Claims that the result is the function's
/// (named) lossy decoding of the bytes, and that on valid UTF-8 input it is exactly
/// the decoded text — the documentation's "no replacement needed" case.
#[verifier::external_body]
pub(crate) fn string_from_utf8_lossy(bytes: &[u8]) -> (s: String)
    ensures
        s@ == lossy_utf8(bytes@),
        vstd::utf8::valid_utf8(bytes@) ==> s@ == vstd::utf8::decode_utf8(bytes@),
{
    String::from_utf8_lossy(bytes).into_owned()
}

/// Calls `String::from_utf16_lossy`. Claims the documented result: the code units
/// decoded as UTF-16, with U+FFFD for each unpaired surrogate.
#[verifier::external_body]
pub(crate) fn string_from_utf16_lossy(units: &[u16]) -> (s: String)
    ensures
        s@ == lossy_utf16(units@),
{
    String::from_utf16_lossy(units)
}

/// Calls `std::str::from_utf8`, keeping only success. Claims that it succeeds exactly
/// on valid UTF-8, and that the returned text has the same bytes.
#[verifier::external_body]
pub(crate) fn str_from_utf8(bytes: &[u8]) -> (r: Option<&str>)
    ensures
        r is Some <==> vstd::utf8::valid_utf8(bytes@),
        r matches Some(s) ==> s.spec_bytes() == bytes@,
{
    std::str::from_utf8(bytes).ok()
}

/// The two byte sequences are equal.
pub fn bytes_equal(a: &[u8], b: &[u8]) -> (r: bool)
    ensures
        r == (a@ == b@),
{
    if a.len() != b.len() {
        return false;
    }
    let mut i: usize = 0;
    while i < a.len()
        invariant
            i <= a@.len(),
            a@.len() == b@.len(),
            forall|j: int| 0 <= j < i ==> a@[j] == b@[j],
        decreases a@.len() - i,
    {
        if a[i] != b[i] {
            return false;
        }
        i = i + 1;
    }
    assert(a@ =~= b@);
    true
}

/// The UTF-8 bytes of `s` equal `bytes`.
pub fn bytes_equal_str(bytes: &[u8], s: &str) -> (r: bool)
    ensures
        r == (bytes@ == s.spec_bytes()),
{
    let sb = s.as_bytes();
    if bytes.len() != sb.len() {
        return false;
    }
    let mut i: usize = 0;
    while i < bytes.len()
        invariant
            i <= bytes@.len(),
            bytes@.len() == sb@.len(),
            sb@ == s.spec_bytes(),
            forall|j: int| 0 <= j < i ==> bytes@[j] == sb@[j],
        decreases bytes@.len() - i,
    {
        if bytes[i] != sb[i] {
            return false;
        }
        i = i + 1;
    }
    assert(bytes@ =~= sb@);
    true
}

// ---------------------------------------------------------------------------
// FString
// ---------------------------------------------------------------------------

/// An Unreal FString. Content is kept as raw code units (bytes for the 1-byte form,
/// u16 for the UTF-16LE form), split at the first NUL terminator found within the
/// declared length. Anything from that NUL on is kept verbatim in `trailing`, so a
/// write reproduces the exact original bytes even for malformed input.
#[derive(Debug, Clone, PartialEq, Eq)]
pub enum FString {
    Empty,
    Ascii { content: Vec<u8>, trailing: Vec<u8> },
    Utf16 { content: Vec<u16>, trailing: Vec<u8> },
}

/// The mathematical value of an [`FString`].
pub enum FStringView {
    Empty,
    Ascii { content: Seq<u8>, trailing: Seq<u8> },
    Utf16 { content: Seq<u16>, trailing: Seq<u8> },
}

impl View for FString {
    type V = FStringView;

    open spec fn view(&self) -> FStringView {
        match self {
            FString::Empty => FStringView::Empty,
            FString::Ascii { content, trailing } => FStringView::Ascii { content: content@, trailing: trailing@ },
            FString::Utf16 { content, trailing } => FStringView::Utf16 { content: content@, trailing: trailing@ },
        }
    }
}

pub open spec fn no_nul(bytes: Seq<u8>) -> bool {
    forall|i: int| 0 <= i < bytes.len() ==> bytes[i] != 0
}

pub open spec fn no_nul_unit(units: Seq<u16>) -> bool {
    forall|i: int| 0 <= i < units.len() ==> units[i] != 0
}

impl FStringView {
    /// The i32 length field as written.
    pub open spec fn length_field(self) -> i32 {
        match self {
            FStringView::Empty => 0,
            FStringView::Ascii { content, trailing } => (content.len() + trailing.len()) as i32,
            FStringView::Utf16 { content, trailing } => (-((2 * content.len() + trailing.len()) / 2)) as i32,
        }
    }

    /// The wire encoding: an i32 length (positive for the 1-byte form, minus the
    /// number of code units for UTF-16), then the content, then the trailing bytes.
    pub open spec fn bytes(self) -> Seq<u8> {
        match self {
            FStringView::Empty => i32_bytes(0),
            FStringView::Ascii { content, trailing } => i32_bytes(self.length_field()) + content + trailing,
            FStringView::Utf16 { content, trailing } => i32_bytes(self.length_field()) + units_bytes(content) + trailing,
        }
    }

    /// The shape every successful read produces: content stops at the first NUL,
    /// the rest (starting with that NUL) is the trailing part, and the length fits
    /// the format's i32 length field.
    pub open spec fn canonical(self) -> bool {
        match self {
            FStringView::Empty => true,
            FStringView::Ascii { content, trailing } => {
                &&& 0 < content.len() + trailing.len() <= i32::MAX
                &&& no_nul(content)
                &&& (trailing.len() == 0 || trailing[0] == 0)
            },
            FStringView::Utf16 { content, trailing } => {
                &&& 0 < 2 * content.len() + trailing.len() <= 0x1_0000_0000
                &&& trailing.len() % 2 == 0
                &&& no_nul_unit(content)
                &&& (trailing.len() == 0 || (trailing.len() >= 2 && trailing[0] == 0 && trailing[1] == 0))
            },
        }
    }


    /// Lossy display text.
    pub open spec fn display(self) -> Seq<char> {
        match self {
            FStringView::Empty => Seq::empty(),
            FStringView::Ascii { content, .. } => lossy_utf8(content),
            FStringView::Utf16 { content, .. } => lossy_utf16(content),
        }
    }

    /// This is the 1-byte form and its content is exactly the UTF-8 bytes of `text`.
    pub open spec fn is_ascii_text(self, text: Seq<u8>) -> bool {
        self matches FStringView::Ascii { content, .. } && content == text
    }
}

/// The UTF-16 code unit at index `j` of a little-endian byte region.
pub open spec fn unit_at(region: Seq<u8>, j: int) -> u16 {
    u16_at(region, 2 * j)
}

/// The byte count of an FString body whose length field is `len` (zero for `0`).
pub open spec fn body_len(len: i32) -> int {
    if len >= 0 { len as int } else { -2 * len }
}

/// Where an FString that starts at `p` ends, if the buffer holds it.
pub open spec fn fstring_end(buf: Seq<u8>, p: int) -> Option<int> {
    if !fits(buf, p, 4) {
        None
    } else if fits(buf, p + 4, body_len(i32_at(buf, p))) {
        Some(p + 4 + body_len(i32_at(buf, p)))
    } else {
        None
    }
}

/// Index of the first NUL byte at or after `j`, or the length when there is none.
pub open spec fn first_nul_from(s: Seq<u8>, j: int) -> int
    decreases s.len() - j,
{
    if j >= s.len() || j < 0 {
        s.len() as int
    } else if s[j] == 0 {
        j
    } else {
        first_nul_from(s, j + 1)
    }
}

/// Index of the first zero code unit at or after unit `j` among the first `n` units
/// of `body`, or `n` when there is none.
pub open spec fn first_nul_unit_from(body: Seq<u8>, j: int, n: int) -> int
    decreases n - j,
{
    if j >= n || j < 0 {
        n
    } else if unit_at(body, j) == 0 {
        j
    } else {
        first_nul_unit_from(body, j + 1, n)
    }
}

/// The FString stored at `p`, as a read decodes it (meaningful when
/// `fstring_end(buf, p)` is `Some`).
pub open spec fn fstring_view_at(buf: Seq<u8>, p: int) -> FStringView {
    let len = i32_at(buf, p);
    let body = buf.subrange(p + 4, p + 4 + body_len(len));
    if len == 0 {
        FStringView::Empty
    } else if len > 0 {
        let k = first_nul_from(body, 0);
        FStringView::Ascii { content: body.take(k), trailing: body.skip(k) }
    } else {
        let k = first_nul_unit_from(body, 0, -len);
        FStringView::Utf16 { content: Seq::new(k as nat, |j: int| unit_at(body, j)), trailing: body.skip(2 * k) }
    }
}

proof fn lemma_first_nul_from(s: Seq<u8>, j: int, k: int)
    requires
        0 <= j <= k <= s.len(),
        forall|i: int| j <= i < k ==> s[i] != 0,
        k == s.len() || s[k] == 0,
    ensures
        first_nul_from(s, j) == k,
    decreases k - j,
{
    if j < k {
        lemma_first_nul_from(s, j + 1, k);
    }
}

proof fn lemma_first_nul_unit_from(body: Seq<u8>, j: int, k: int, n: int)
    requires
        0 <= j <= k <= n,
        forall|i: int| j <= i < k ==> unit_at(body, i) != 0,
        k == n || unit_at(body, k) == 0,
    ensures
        first_nul_unit_from(body, j, n) == k,
    decreases k - j,
{
    if j < k {
        lemma_first_nul_unit_from(body, j + 1, k, n);
    }
}

impl FString {
    /// The content as text, when this is the 1-byte form holding valid UTF-8.
    pub fn ascii_str(&self) -> (r: Option<&str>)
        ensures
            r is Some <==> (self@ matches FStringView::Ascii { content, .. } && vstd::utf8::valid_utf8(content)),
            r matches Some(s) ==> self@ matches FStringView::Ascii { content, .. } && s.spec_bytes() == content,
    {
        match self {
            FString::Ascii { content, .. } => str_from_utf8(content.as_slice()),
            _ => None,
        }
    }

    /// Lossy display text, for indexing and UI; never used when writing.
    pub fn display_lossy(&self) -> (s: String)
        ensures
            s@ == self@.display(),
    {
        match self {
            FString::Empty => String::new(),
            FString::Ascii { content, .. } => string_from_utf8_lossy(content.as_slice()),
            FString::Utf16 { content, .. } => string_from_utf16_lossy(content.as_slice()),
        }
    }

    /// This is the 1-byte form whose content equals the UTF-8 bytes of `text`.
    pub fn is_ascii_text(&self, text: &str) -> (r: bool)
        ensures
            r == self@.is_ascii_text(text.spec_bytes()),
    {
        match self {
            FString::Ascii { content, .. } => bytes_equal_str(content.as_slice(), text),
            _ => false,
        }
    }

    /// A copy with the same value.
    pub fn duplicate(&self) -> (r: FString)
        ensures
            r@ == self@,
    {
        match self {
            FString::Empty => FString::Empty,
            FString::Ascii { content, trailing } => FString::Ascii {
                content: bytes_to_vec(content.as_slice()),
                trailing: bytes_to_vec(trailing.as_slice()),
            },
            FString::Utf16 { content, trailing } => {
                let mut c: Vec<u16> = Vec::new();
                let mut i: usize = 0;
                while i < content.len()
                    invariant
                        i <= content@.len(),
                        c@ == content@.subrange(0, i as int),
                    decreases content@.len() - i,
                {
                    c.push(content[i]);
                    i = i + 1;
                    assert(c@ =~= content@.subrange(0, i as int));
                }
                assert(c@ =~= content@);
                FString::Utf16 { content: c, trailing: bytes_to_vec(trailing.as_slice()) }
            },
        }
    }
}

proof fn lemma_units_bytes_push(units: Seq<u16>, u: u16)
    ensures
        units_bytes(units.push(u)) == units_bytes(units) + u16_bytes(u),
{
    assert(units.push(u).drop_last() =~= units);
}

/// The code unit at index `j` of `units_bytes(units) + rest` is `units[j]`.
proof fn lemma_units_bytes_index(units: Seq<u16>, rest: Seq<u8>, j: int)
    requires
        0 <= j < units.len(),
    ensures
        u16_at(units_bytes(units) + rest, 2 * j) == units[j],
    decreases units.len(),
{
    lemma_le_round_trips();
    lemma_units_bytes_len(units);
    let pre = units.drop_last();
    lemma_units_bytes_len(pre);
    if j == units.len() - 1 {
        let all = units_bytes(units) + rest;
        lemma_u16_bytes(units.last(), 0, 0);
        assert(all[2 * j] == u16_bytes(units.last())[0]);
        assert(all[2 * j + 1] == u16_bytes(units.last())[1]);
    } else {
        lemma_units_bytes_index(pre, u16_bytes(units.last()) + rest, j);
        assert(units_bytes(units) + rest =~= units_bytes(pre) + (u16_bytes(units.last()) + rest));
    }
}

#[verifier::rlimit(100)]
#[verifier::spinoff_prover]
pub fn read_fstring(buf: &[u8], pos: &mut usize) -> (r: Result<FString, GvasError>)
    ensures
        fstring_end(buf@, *old(pos) as int) is Some <==> r is Ok,
        match r {
            Ok(s) => {
                &&& *final(pos) == fstring_end(buf@, *old(pos) as int)->0
                &&& s@ == fstring_view_at(buf@, *old(pos) as int)
                &&& s@.canonical()
                &&& s@.bytes() == buf@.subrange(*old(pos) as int, *final(pos) as int)
            },
            Err(e) => {
                if !fits(buf@, *old(pos) as int, 4) {
                    e == eof_error(4, *old(pos) as int, buf@.len() as int) && *final(pos) == *old(pos)
                } else {
                    &&& e == eof_error(body_len(i32_at(buf@, *old(pos) as int)), *old(pos) + 4, buf@.len() as int)
                    &&& *final(pos) == *old(pos) + 4
                }
            },
        },
{
    let ghost p = *pos as int;
    let blen = buf.len();
    let len = read_i32_le(buf, pos)?;
    proof {
        lemma_window_is_encoding(buf@, p);
        lemma_le_round_trips();
    }
    if len == 0 {
        assert(buf@.subrange(p, p + 4) == i32_bytes(0));
        return Ok(FString::Empty);
    }
    let start = *pos;
    let total: u64 = if len > 0 { len as u64 } else { ((0 - (len as i64)) as u64) * 2 };
    assert(total == body_len(len));
    let avail: u64 = (buf.len() - start) as u64;
    if total > avail {
        return Err(GvasError::UnexpectedEof { need: #[verifier::truncate] (total as usize), at: start, have: buf.len() - start });
    }
    let total = total as usize;
    let ghost region = buf@.subrange(start as int, start + total);
    if len > 0 {
        let mut k: usize = 0;
        while k < total && buf[start + k] != 0
            invariant
                k <= total,
                start + total <= buf@.len(),
                buf@.len() == blen,
                region == buf@.subrange(start as int, start + total),
                forall|j: int| 0 <= j < k ==> region[j] != 0,
            decreases total - k,
        {
            k = k + 1;
        }
        let content = copy_range(buf, start, start + k);
        let trailing = copy_range(buf, start + k, start + total);
        *pos = start + total;
        let s = FString::Ascii { content, trailing };
        proof {
            if k < total {
                assert(region[k as int] == buf@[start + k]);
            }
            lemma_first_nul_from(region, 0, k as int);
            assert(content@ =~= region.take(k as int));
            assert(trailing@ =~= region.skip(k as int));
            assert(s@.length_field() == len) by {
                assert(content@.len() + trailing@.len() == total);
            }
            assert(s@.bytes() =~= buf@.subrange(p, p + 4 + total));
        }
        Ok(s)
    } else {
        let units = total / 2;
        let mut k: usize = 0;
        while k < units && (buf[start + 2 * k] != 0 || buf[start + 2 * k + 1] != 0)
            invariant
                k <= units,
                total == 2 * units,
                start + total <= buf@.len(),
                buf@.len() == blen,
                region == buf@.subrange(start as int, start + total),
                forall|j: int| 0 <= j < k ==> unit_at(region, j) != 0,
            decreases units - k,
        {
            proof {
                lemma_u16_bytes(0, buf@[start + 2 * k], buf@[start + 2 * k + 1]);
            }
            k = k + 1;
        }
        let mut content: Vec<u16> = Vec::new();
        let mut i: usize = 0;
        while i < k
            invariant
                i <= k <= units,
                total == 2 * units,
                start + total <= buf@.len(),
                buf@.len() == blen,
                region == buf@.subrange(start as int, start + total),
                content@.len() == i,
                forall|j: int| 0 <= j < k ==> unit_at(region, j) != 0,
                forall|j: int| 0 <= j < i ==> content@[j] == unit_at(region, j),
                units_bytes(content@) == buf@.subrange(start as int, start + 2 * i),
            decreases k - i,
        {
            let u = u16_from_pair(buf[start + 2 * i], buf[start + 2 * i + 1]);
            proof {
                lemma_units_bytes_push(content@, u);
                lemma_window_is_encoding(buf@, start + 2 * i);
                assert(buf@.subrange(start as int, start + 2 * i + 2) =~= buf@.subrange(start as int, start + 2 * i)
                    + buf@.subrange(start + 2 * i, start + 2 * i + 2));
            }
            content.push(u);
            i = i + 1;
        }
        let trailing = copy_range(buf, start + 2 * k, start + total);
        *pos = start + total;
        proof {
            lemma_units_bytes_len(content@);
            if 2 * k < total {
                assert(trailing@[0] == buf@[start + 2 * k] && trailing@[1] == buf@[start + 2 * k + 1]);
            }
        }
        let s = FString::Utf16 { content, trailing };
        proof {
            if k < units {
                lemma_u16_bytes(0, region[2 * k as int], region[2 * k + 1]);
                assert(region[2 * k as int] == buf@[start + 2 * k]);
                assert(region[2 * k + 1] == buf@[start + 2 * k + 1]);
            }
            lemma_first_nul_unit_from(region, 0, k as int, units as int);
            assert(content@ =~= Seq::new(k as nat, |j: int| unit_at(region, j)));
            assert(trailing@ =~= region.skip(2 * k as int));
            assert(s@.length_field() == len) by {
                assert(2 * content@.len() + trailing@.len() == total);
            }
            assert(no_nul_unit(content@)) by {
                assert forall|j: int| 0 <= j < content@.len() implies content@[j] != 0 by {
                    assert(content@[j] == unit_at(region, j));
                }
            }
            assert(s@.bytes() =~= buf@.subrange(p, p + 4 + total));
        }
        Ok(s)
    }
}

pub fn write_fstring(out: &mut Vec<u8>, s: &FString)
    ensures
        final(out)@ == old(out)@ + s@.bytes(),
{
    match s {
        FString::Empty => write_i32_le(out, 0),
        FString::Ascii { content, trailing } => {
            write_i32_le(out, (content.len() as u128 + trailing.len() as u128) as i32);
            append_bytes(out, content.as_slice());
            append_bytes(out, trailing.as_slice());
            assert(final(out)@ =~= old(out)@ + s@.bytes());
        },
        FString::Utf16 { content, trailing } => {
            let total_bytes: u128 = content.len() as u128 * 2 + trailing.len() as u128;
            write_i32_le(out, (0 - ((total_bytes / 2) as i128)) as i32);
            let ghost mid = out@;
            let mut i: usize = 0;
            while i < content.len()
                invariant
                    i <= content@.len(),
                    out@ == mid + units_bytes(content@.subrange(0, i as int)),
                decreases content@.len() - i,
            {
                write_u16_le(out, content[i]);
                proof {
                    lemma_units_bytes_push(content@.subrange(0, i as int), content@[i as int]);
                    assert(content@.subrange(0, i as int).push(content@[i as int]) =~= content@.subrange(0, i + 1));
                }
                i = i + 1;
            }
            assert(content@.subrange(0, i as int) =~= content@);
            append_bytes(out, trailing.as_slice());
            assert(final(out)@ =~= old(out)@ + s@.bytes());
        },
    }
}


/// Law: an FString in the shape a read produces decodes back from its own encoding.
/// Its encoding, wherever it sits in a buffer, parses to exactly its own length, and
/// no other string of that shape has the same encoding — so reading the bytes that
/// `write_fstring` wrote gives back the same string.
pub proof fn fstring_round_trip(s: FStringView, before: Seq<u8>, rest: Seq<u8>)
    requires
        s.canonical(),
    ensures
        fstring_end(before + s.bytes() + rest, before.len() as int) == Some((before.len() + s.bytes().len()) as int),
        forall|t: FStringView| #![trigger t.bytes()] t.canonical() && t.bytes() == s.bytes() ==> t == s,
{
    lemma_fstring_end(s, before, rest);
    assert forall|t: FStringView| #![trigger t.bytes()] t.canonical() && t.bytes() == s.bytes() implies t == s by {
        lemma_fstring_unique(s, t);
    }
}

proof fn lemma_length_field(s: FStringView)
    requires
        s.canonical(),
    ensures
        s.bytes().len() == 4 + body_len(s.length_field()),
        s matches FStringView::Empty ==> s.length_field() == 0,
        s matches FStringView::Ascii { .. } ==> s.length_field() > 0,
        s matches FStringView::Utf16 { .. } ==> s.length_field() < 0,
{
    lemma_le_round_trips();
    match s {
        FStringView::Empty => {},
        FStringView::Ascii { content, trailing } => {
            let n = content.len() + trailing.len();
            assert(0 < n <= i32::MAX);
            assert((n as i32) == n);
        },
        FStringView::Utf16 { content, trailing } => {
            lemma_units_bytes_len(content);
            let u = (2 * content.len() + trailing.len()) / 2;
            assert(u == content.len() + trailing.len() / 2);
            assert(1 <= u <= 0x8000_0000);
            assert(-u >= i32::MIN);
            assert((-u) as i32 == -u);
        },
    }
}

proof fn lemma_fstring_end(s: FStringView, before: Seq<u8>, rest: Seq<u8>)
    requires
        s.canonical(),
    ensures
        fstring_end(before + s.bytes() + rest, before.len() as int) == Some((before.len() + s.bytes().len()) as int),
{
    lemma_length_field(s);
    let l = s.length_field();
    let body = s.bytes().subrange(4, s.bytes().len() as int);
    lemma_le_round_trips();
    assert(s.bytes() =~= i32_bytes(l) + body);
    assert(before + s.bytes() + rest =~= before + u32_bytes(l as u32) + (body + rest));
    lemma_read_back_u32(l as u32, body + rest, before);
    lemma_i32_bits(l);
}

proof fn lemma_fstring_unique(s: FStringView, t: FStringView)
    requires
        s.canonical(),
        t.canonical(),
        s.bytes() == t.bytes(),
    ensures
        s == t,
{
    lemma_le_round_trips();
    lemma_length_field(s);
    lemma_length_field(t);
    let b = s.bytes();
    assert(b.subrange(0, 4) =~= i32_bytes(s.length_field()));
    assert(t.bytes().subrange(0, 4) =~= i32_bytes(t.length_field()));
    lemma_i32_bits(s.length_field());
    lemma_i32_bits(t.length_field());
    assert(s.length_field() == t.length_field());
    match (s, t) {
        (FStringView::Ascii { content: c1, trailing: t1 }, FStringView::Ascii { content: c2, trailing: t2 }) => {
            let r1 = c1 + t1;
            let r2 = c2 + t2;
            assert(r1 =~= b.subrange(4, b.len() as int));
            assert(r2 =~= b.subrange(4, b.len() as int));
            if c1.len() < c2.len() {
                assert(r1[c1.len() as int] == t1[0]);
                assert(r2[c1.len() as int] == c2[c1.len() as int]);
            }
            if c2.len() < c1.len() {
                assert(r2[c2.len() as int] == t2[0]);
                assert(r1[c2.len() as int] == c1[c2.len() as int]);
            }
            assert(c1 =~= r1.subrange(0, c1.len() as int));
            assert(c2 =~= r2.subrange(0, c2.len() as int));
            assert(t1 =~= r1.subrange(c1.len() as int, r1.len() as int));
            assert(t2 =~= r2.subrange(c2.len() as int, r2.len() as int));
        },
        (FStringView::Utf16 { content: c1, trailing: t1 }, FStringView::Utf16 { content: c2, trailing: t2 }) => {
            lemma_units_bytes_len(c1);
            lemma_units_bytes_len(c2);
            let r1 = units_bytes(c1) + t1;
            let r2 = units_bytes(c2) + t2;
            assert(r1 =~= b.subrange(4, b.len() as int));
            assert(r2 =~= b.subrange(4, b.len() as int));
            if c1.len() < c2.len() {
                let j = c1.len() as int;
                lemma_units_bytes_index(c2, t2, j);
                lemma_u16_bytes(0, r1[2 * j], r1[2 * j + 1]);
                assert(r1[2 * j] == t1[0]);
                assert(r1[2 * j + 1] == t1[1]);
            }
            if c2.len() < c1.len() {
                let j = c2.len() as int;
                lemma_units_bytes_index(c1, t1, j);
                lemma_u16_bytes(0, r2[2 * j], r2[2 * j + 1]);
                assert(r2[2 * j] == t2[0]);
                assert(r2[2 * j + 1] == t2[1]);
            }
            assert forall|j: int| 0 <= j < c1.len() implies c1[j] == c2[j] by {
                lemma_units_bytes_index(c1, t1, j);
                lemma_units_bytes_index(c2, t2, j);
            }
            assert(c1 =~= c2);
            assert(t1 =~= r1.subrange(2 * c1.len() as int, r1.len() as int));
            assert(t2 =~= r2.subrange(2 * c2.len() as int, r2.len() as int));
        },
        _ => {},
    }
}


proof fn lemma_first_nul_props(s: Seq<u8>, j: int)
    requires
        0 <= j <= s.len(),
    ensures
        j <= first_nul_from(s, j) <= s.len(),
        forall|i: int| j <= i < first_nul_from(s, j) ==> s[i] != 0,
        first_nul_from(s, j) < s.len() ==> s[first_nul_from(s, j)] == 0,
    decreases s.len() - j,
{
    if j < s.len() && s[j] != 0 {
        lemma_first_nul_props(s, j + 1);
    }
}

proof fn lemma_first_nul_unit_props(body: Seq<u8>, j: int, n: int)
    requires
        0 <= j <= n,
    ensures
        j <= first_nul_unit_from(body, j, n) <= n,
        forall|i: int| j <= i < first_nul_unit_from(body, j, n) ==> unit_at(body, i) != 0,
        first_nul_unit_from(body, j, n) < n ==> unit_at(body, first_nul_unit_from(body, j, n)) == 0,
    decreases n - j,
{
    if j < n && unit_at(body, j) != 0 {
        lemma_first_nul_unit_props(body, j + 1, n);
    }
}

proof fn lemma_units_of_body(body: Seq<u8>, k: int)
    requires
        0 <= k,
        2 * k <= body.len(),
    ensures
        units_bytes(Seq::new(k as nat, |j: int| unit_at(body, j))) == body.take(2 * k),
    decreases k,
{
    if k > 0 {
        let f = |j: int| unit_at(body, j);
        lemma_units_of_body(body, k - 1);
        assert(Seq::new(k as nat, f).drop_last() =~= Seq::new((k - 1) as nat, f));
        lemma_window_is_encoding(body, 2 * (k - 1));
        assert(body.take(2 * k) =~= body.take(2 * (k - 1)) + body.subrange(2 * (k - 1), 2 * k));
    }
}

/// The FString a read decodes at `p` is in canonical shape and its encoding is
/// exactly the bytes it was read from.
#[verifier::rlimit(60)]
#[verifier::spinoff_prover]
pub proof fn lemma_fstring_view(buf: Seq<u8>, p: int)
    requires
        fstring_end(buf, p) is Some,
    ensures
        fstring_view_at(buf, p).canonical(),
        fstring_view_at(buf, p).bytes() == buf.subrange(p, fstring_end(buf, p)->0),
{
    lemma_le_round_trips();
    lemma_window_is_encoding(buf, p);
    let len = i32_at(buf, p);
    let body = buf.subrange(p + 4, p + 4 + body_len(len));
    let v = fstring_view_at(buf, p);
    let end = fstring_end(buf, p)->0;
    if len == 0 {
        assert(buf.subrange(p, end) =~= i32_bytes(0));
    } else if len > 0 {
        let k = first_nul_from(body, 0);
        lemma_first_nul_props(body, 0);
        assert(v.length_field() == len) by {
            assert(body.take(k).len() + body.skip(k).len() == len);
        }
        assert(v.bytes() =~= buf.subrange(p, end));
    } else {
        let n = -len;
        let k = first_nul_unit_from(body, 0, n);
        lemma_first_nul_unit_props(body, 0, n);
        lemma_units_of_body(body, k);
        let content = Seq::new(k as nat, |j: int| unit_at(body, j));
        lemma_units_bytes_len(content);
        if k < n {
            lemma_u16_bytes(0, body[2 * k], body[2 * k + 1]);
        }
        assert(v.length_field() == len) by {
            assert(2 * content.len() + body.skip(2 * k).len() == body_len(len));
        }
        assert(body =~= body.take(2 * k) + body.skip(2 * k));
        assert(v.bytes() =~= buf.subrange(p, end));
    }
}


/// A canonical FString placed anywhere in a buffer reads back as itself.
pub proof fn lemma_fstring_reads_back(s: FStringView, before: Seq<u8>, rest: Seq<u8>)
    requires
        s.canonical(),
    ensures
        fstring_end(before + s.bytes() + rest, before.len() as int) == Some((before.len() + s.bytes().len()) as int),
        fstring_view_at(before + s.bytes() + rest, before.len() as int) == s,
{
    let x = before + s.bytes() + rest;
    fstring_round_trip(s, before, rest);
    lemma_fstring_view(x, before.len() as int);
    assert(x.subrange(before.len() as int, (before.len() + s.bytes().len()) as int) =~= s.bytes());
}

/// An i32 placed anywhere in a buffer reads back as itself.
pub proof fn lemma_i32_reads_back(v: i32, before: Seq<u8>, rest: Seq<u8>)
    ensures
        i32_at(before + i32_bytes(v) + rest, before.len() as int) == v,
        (before + i32_bytes(v) + rest).len() == before.len() + 4 + rest.len(),
{
    lemma_read_back_u32(v as u32, rest, before);
    lemma_i32_bits(v);
}


/// Two guids with the same bytes are the same value.
pub proof fn lemma_guid_ext(a: Guid, b: Guid)
    requires
        a@ == b@,
    ensures
        a == b,
{
    vstd::array::axiom_array_ext_equal(a, b);
    assert forall|i: int| 0 <= i < 16 implies a[i] == b[i] by {
        assert(a@[i] == b@[i]);
    }
}

} // verus!
