//! Container codec: compression only, no GVAS parsing.
//!
//! Layout of a raw header (12 bytes): uncompressed_len: u32 LE, compressed_len: u32 LE,
//! magic: [u8; 3] ("PlZ" zlib, "PlM" Oodle Mermaid, "CNK" Game Pass/WGS wrapper),
//! save_type: u8 (0x31 = one compression pass, 0x32 = two).
//!
//! A CNK-wrapped file has an outer 12-byte header (magic "CNK") immediately followed
//! by the real 12-byte header at offset 12, then the payload.
//!
//! The decompressors and the compressor are outside code; what they return is named
//! below, and the checks and framing around them are verified.

pub mod error;

pub use error::ContainerError;

use vstd::prelude::*;
use crate::gvas::primitives::{append_bytes, fits, read_u32_le, u32_at, u32_bytes, write_u32_le, lemma_le_round_trips};
use flate2::Compression;
use flate2::read::ZlibDecoder;
use flate2::write::ZlibEncoder;
use std::io::{Read, Write};
use vstd::slice::slice_subrange;

verus! {

pub const HEADER_LEN: usize = 12;

#[verifier::external_type_specification]
#[verifier::external_body]
pub struct ExIoError(std::io::Error);

#[verifier::external_type_specification]
#[verifier::external_body]
pub struct ExOozError(oozextract::OozError);

#[derive(Debug, Clone, Copy, PartialEq, Eq)]
pub enum Algorithm {
    Zlib,
    OodleMermaid,
}

#[derive(Debug, Clone, Copy, PartialEq, Eq)]
pub enum Passes {
    One,
    Two,
}

/// The save_type byte that stands for a pass count.
pub open spec fn passes_byte(p: Passes) -> u8 {
    match p {
        Passes::One => 0x31u8,
        Passes::Two => 0x32u8,
    }
}

pub open spec fn passes_of(save_type: u8) -> Option<Passes> {
    if save_type == 0x31 {
        Some(Passes::One)
    } else if save_type == 0x32 {
        Some(Passes::Two)
    } else {
        None
    }
}

pub open spec fn plz_magic() -> Seq<u8> {
    seq![0x50u8, 0x6Cu8, 0x5Au8]
}

pub open spec fn plm_magic() -> Seq<u8> {
    seq![0x50u8, 0x6Cu8, 0x4Du8]
}

pub open spec fn cnk_magic() -> Seq<u8> {
    seq![0x43u8, 0x4Eu8, 0x4Bu8]
}

pub open spec fn algorithm_of(magic: Seq<u8>) -> Option<Algorithm> {
    if magic == plz_magic() {
        Some(Algorithm::Zlib)
    } else if magic == plm_magic() {
        Some(Algorithm::OodleMermaid)
    } else {
        None
    }
}

impl Passes {
    fn from_save_type(save_type: u8) -> (r: Result<Passes, ContainerError>)
        ensures
            match r {
                Ok(p) => passes_of(save_type) == Some(p),
                Err(ContainerError::UnknownSaveType(t)) => t == save_type && passes_of(save_type) is None,
                Err(_) => false,
            },
    {
        if save_type == 0x31 {
            Ok(Passes::One)
        } else if save_type == 0x32 {
            Ok(Passes::Two)
        } else {
            Err(ContainerError::UnknownSaveType(save_type))
        }
    }

    fn byte(self) -> (b: u8)
        ensures
            b == passes_byte(self),
    {
        match self {
            Passes::One => 0x31,
            Passes::Two => 0x32,
        }
    }
}

/// A decoded save container: the algorithm and pass count needed to write it back
/// in a compatible form, plus the decompressed GVAS payload.
pub struct Container {
    pub algorithm: Algorithm,
    pub passes: Passes,
    pub was_cnk_wrapped: bool,
    pub gvas: Vec<u8>,
}

struct RawHeader {
    uncompressed_len: u32,
    compressed_len: u32,
    magic: [u8; 3],
    save_type: u8,
}

// ---------------------------------------------------------------------------
// What the outside code computes
// ---------------------------------------------------------------------------

/// The bytes flate2's zlib decoder reads from `input` to its end, or `None` where it
/// reports an error.
pub uninterp spec fn zlib_inflated(input: Seq<u8>) -> Option<Seq<u8>>;

/// The zlib stream flate2's encoder writes for `input` at the default level.
pub uninterp spec fn zlib_deflated(input: Seq<u8>) -> Seq<u8>;

/// Inflates a zlib stream with `flate2::read::ZlibDecoder` and `Read::read_to_end`.
/// Claims only that the outcome is the named inflation of `input`.
#[verifier::external_body]
fn zlib_inflate(input: &[u8]) -> (r: Result<Vec<u8>, std::io::Error>)
    ensures
        r is Ok <==> zlib_inflated(input@) is Some,
        r matches Ok(v) ==> zlib_inflated(input@) == Some(v@),
{
    let mut out = Vec::new();
    ZlibDecoder::new(input).read_to_end(&mut out)?;
    Ok(out)
}

/// Deflates `input` with `flate2::write::ZlibEncoder` at `Compression::default()`
/// into a `Vec`, which never fails. Claims the result is the named deflation and that
/// the zlib decoder reads exactly `input` back from it (zlib is lossless).
#[verifier::external_body]
fn zlib_deflate(input: &[u8]) -> (r: Vec<u8>)
    ensures
        r@ == zlib_deflated(input@),
        zlib_inflated(r@) == Some(input@),
{
    let mut encoder = ZlibEncoder::new(Vec::new(), Compression::default());
    encoder.write_all(input).expect("writing to a Vec-backed encoder never fails");
    encoder.finish().expect("finishing a Vec-backed encoder never fails")
}

// ---------------------------------------------------------------------------
// The container's layout
// ---------------------------------------------------------------------------

pub open spec fn cnk_wrapped(bytes: Seq<u8>) -> bool {
    fits(bytes, 0, 12) && bytes.subrange(8, 11) == cnk_magic()
}

/// Where the real header starts.
pub open spec fn header_base(bytes: Seq<u8>) -> int {
    if cnk_wrapped(bytes) { 12 } else { 0 }
}

/// How many bytes the headers need, when the buffer is too short for them.
pub open spec fn headers_need(bytes: Seq<u8>) -> Option<int> {
    if !fits(bytes, 0, 12) {
        Some(12)
    } else if !fits(bytes, header_base(bytes), 12) {
        Some(24)
    } else {
        None
    }
}

pub open spec fn uncompressed_len(bytes: Seq<u8>) -> u32 {
    u32_at(bytes, header_base(bytes))
}

pub open spec fn compressed_len(bytes: Seq<u8>) -> u32 {
    u32_at(bytes, header_base(bytes) + 4)
}

pub open spec fn magic(bytes: Seq<u8>) -> Seq<u8> {
    bytes.subrange(header_base(bytes) + 8, header_base(bytes) + 11)
}

pub open spec fn save_type(bytes: Seq<u8>) -> u8 {
    bytes[header_base(bytes) + 11]
}

pub open spec fn payload_start(bytes: Seq<u8>) -> int {
    header_base(bytes) + 12
}

pub open spec fn payload_fits(bytes: Seq<u8>) -> bool {
    fits(bytes, payload_start(bytes), compressed_len(bytes) as int)
}

pub open spec fn payload(bytes: Seq<u8>) -> Seq<u8> {
    bytes.subrange(payload_start(bytes), payload_start(bytes) + compressed_len(bytes))
}

/// The algorithm and pass count, when every header check passes: headers present,
/// payload inside the file, known save type, known magic, and not Oodle with two
/// passes.
pub open spec fn container_checks(bytes: Seq<u8>) -> Option<(Algorithm, Passes)> {
    if headers_need(bytes) is Some || !payload_fits(bytes) {
        None
    } else {
        match (passes_of(save_type(bytes)), algorithm_of(magic(bytes))) {
            (Some(p), Some(a)) => if a == Algorithm::OodleMermaid && p == Passes::Two {
                None
            } else {
                Some((a, p))
            },
            _ => None,
        }
    }
}

/// The first pass over `payload`: zlib's inflation, or for Oodle, `extracted`, what the
/// caller's Oodle decoder gave (`None` where it reported an error).
pub open spec fn first_pass(a: Algorithm, payload: Seq<u8>, extracted: Option<Seq<u8>>) -> Option<Seq<u8>> {
    match a {
        Algorithm::Zlib => zlib_inflated(payload),
        Algorithm::OodleMermaid => extracted,
    }
}

/// The GVAS bytes a container decodes to, when it decodes; `extracted` stands for the
/// Oodle decoder's outcome and matters only for a PlM container.
pub open spec fn decompressed(bytes: Seq<u8>, extracted: Option<Seq<u8>>) -> Option<Seq<u8>> {
    match container_checks(bytes) {
        Some((a, p)) => match first_pass(a, payload(bytes), extracted) {
            Some(once) => match p {
                Passes::One => Some(once),
                Passes::Two => zlib_inflated(once),
            },
            None => None,
        },
        None => None,
    }
}

/// `oodle`, called on the container's payload and its uncompressed length, may return
/// `res`.
pub open spec fn oodle_gave<F: Fn(&[u8], usize) -> Result<Vec<u8>, oozextract::OozError>>(
    oodle: F,
    bytes: Seq<u8>,
    res: Result<Vec<u8>, oozextract::OozError>,
) -> bool {
    exists|s: &[u8]| s@ == payload(bytes) && call_ensures(oodle, (s, uncompressed_len(bytes) as usize), res)
}

/// The pass count a container is written back with: Oodle cannot be written, so a
/// PlM container becomes a double zlib pass; PlZ keeps its own count.
pub open spec fn rewrite_passes(a: Algorithm, p: Passes) -> Passes {
    match a {
        Algorithm::OodleMermaid => Passes::Two,
        Algorithm::Zlib => p,
    }
}

pub open spec fn compressed_for(gvas: Seq<u8>, p: Passes) -> Seq<u8> {
    match p {
        Passes::One => zlib_deflated(gvas),
        Passes::Two => zlib_deflated(zlib_deflated(gvas)),
    }
}

/// A PlZ container around `gvas`, compressed with `p` passes.
pub open spec fn encoded(gvas: Seq<u8>, p: Passes) -> Seq<u8> {
    let c = compressed_for(gvas, p);
    u32_bytes(gvas.len() as u32) + u32_bytes(c.len() as u32) + plz_magic() + seq![passes_byte(p)] + c
}

// ---------------------------------------------------------------------------
// Decoding and encoding
// ---------------------------------------------------------------------------

fn read_raw_header(bytes: &[u8], base: usize) -> (r: Result<RawHeader, ContainerError>)
    requires
        base <= HEADER_LEN,
    ensures
        match r {
            Ok(h) => {
                &&& fits(bytes@, base as int, 12)
                &&& h.uncompressed_len == u32_at(bytes@, base as int)
                &&& h.compressed_len == u32_at(bytes@, base + 4)
                &&& h.magic@ == bytes@.subrange(base + 8, base + 11)
                &&& h.save_type == bytes@[base + 11]
            },
            Err(ContainerError::TooShort { need, have }) => !fits(bytes@, base as int, 12) && need == base + 12
                && have == bytes@.len(),
            Err(_) => false,
        },
{
    if bytes.len() < base + HEADER_LEN {
        return Err(ContainerError::TooShort { need: base + HEADER_LEN, have: bytes.len() });
    }
    let mut pos = base;
    let uncompressed_len = match read_u32_le(bytes, &mut pos) {
        Ok(v) => v,
        Err(_) => {
            return Err(ContainerError::TooShort { need: base + HEADER_LEN, have: bytes.len() });
        },
    };
    let compressed_len = match read_u32_le(bytes, &mut pos) {
        Ok(v) => v,
        Err(_) => {
            return Err(ContainerError::TooShort { need: base + HEADER_LEN, have: bytes.len() });
        },
    };
    let magic = [bytes[base + 8], bytes[base + 9], bytes[base + 10]];
    assert(magic@ =~= bytes@.subrange(base + 8, base + 11));
    Ok(RawHeader { uncompressed_len, compressed_len, magic, save_type: bytes[base + 11] })
}

// ---------------------------------------------------------------------------
// Looking at a header without judging it
// ---------------------------------------------------------------------------

/// A container header exactly as it sits in the file.
#[derive(Debug, Clone, Copy, PartialEq, Eq)]
pub struct SniffedHeader {
    pub uncompressed_len: u32,
    pub compressed_len: u32,
    pub magic: [u8; 3],
    pub save_type: u8,
}

/// The 12-byte header at `base`, read without judging its fields; `None` when the
/// buffer ends before the header does.
pub fn sniff_header(bytes: &[u8], base: usize) -> (r: Option<SniffedHeader>)
    ensures
        match r {
            Some(h) => {
                &&& base + 12 <= bytes@.len()
                &&& h.uncompressed_len == u32_at(bytes@, base as int)
                &&& h.compressed_len == u32_at(bytes@, base + 4)
                &&& h.magic@ == bytes@.subrange(base + 8, base + 11)
                &&& h.save_type == bytes@[base + 11]
            },
            None => bytes@.len() < base + 12,
        },
{
    if bytes.len() < HEADER_LEN || base > bytes.len() - HEADER_LEN {
        return None;
    }
    let mut pos = base;
    let uncompressed_len = match read_u32_le(bytes, &mut pos) {
        Ok(v) => v,
        Err(_) => {
            return None;
        },
    };
    let compressed_len = match read_u32_le(bytes, &mut pos) {
        Ok(v) => v,
        Err(_) => {
            return None;
        },
    };
    let magic = [bytes[base + 8], bytes[base + 9], bytes[base + 10]];
    assert(magic@ =~= bytes@.subrange(base + 8, base + 11));
    Some(SniffedHeader { uncompressed_len, compressed_len, magic, save_type: bytes[base + 11] })
}

/// What each known magic is called; anything else is "unknown".
pub open spec fn magic_label(m: Seq<u8>) -> Seq<char> {
    if m == seq![0x50u8, 0x6Cu8, 0x5Au8] {
        "PlZ (zlib)"@
    } else if m == seq![0x50u8, 0x6Cu8, 0x4Du8] {
        "PlM (Oodle Mermaid)"@
    } else if m == seq![0x43u8, 0x4Eu8, 0x4Bu8] {
        "CNK (Game Pass / WGS wrapper)"@
    } else {
        "unknown"@
    }
}

/// A human-readable name for a container magic.
pub fn magic_name(magic: &[u8; 3]) -> (r: &'static str)
    ensures
        r@ == magic_label(magic@),
{
    let m0 = magic[0];
    let m1 = magic[1];
    let m2 = magic[2];
    assert(magic@ =~= seq![m0, m1, m2]);
    if m0 == 0x50 && m1 == 0x6C && m2 == 0x5A {
        "PlZ (zlib)"
    } else if m0 == 0x50 && m1 == 0x6C && m2 == 0x4D {
        "PlM (Oodle Mermaid)"
    } else if m0 == 0x43 && m1 == 0x4E && m2 == 0x4B {
        "CNK (Game Pass / WGS wrapper)"
    } else {
        "unknown"
    }
}

/// Whether a header's compressed length fits in what a file of `file_len` bytes holds
/// after the header at `base`.
pub fn sizes_fit(h: &SniffedHeader, base: usize, file_len: usize) -> (r: bool)
    requires
        base + 12 <= usize::MAX,
    ensures
        r == (h.compressed_len as int <= if file_len >= base + 12 { file_len - base - 12 } else { 0 }),
{
    let payload_start = base + HEADER_LEN;
    let room = if file_len >= payload_start { file_len - payload_start } else { 0 };
    (h.compressed_len as usize) <= room
}

fn is_magic(m: &[u8; 3], a: u8, b: u8, c: u8) -> (r: bool)
    ensures
        r == (m@ == seq![a, b, c]),
{
    let r = m[0] == a && m[1] == b && m[2] == c;
    if r {
        assert(m@ =~= seq![a, b, c]);
    }
    r
}

/// Decodes a save container. The Oodle decoder is the caller's: `oodle` is called on a
/// PlM payload and its uncompressed length and returns the decompressed bytes, and
/// what it returns is taken as they are. Everything else, the header checks and zlib,
/// is done here.
#[verifier::rlimit(40)]
pub fn decode_with<F: Fn(&[u8], usize) -> Result<Vec<u8>, oozextract::OozError>>(bytes: &[u8], oodle: F) -> (r: Result<
    Container,
    ContainerError,
>)
    requires
        forall|s: &[u8], n: usize| #[trigger] call_requires(oodle, (s, n)),
    ensures
        match r {
            Ok(c) => {
                &&& container_checks(bytes@) == Some((c.algorithm, c.passes))
                &&& c.was_cnk_wrapped == cnk_wrapped(bytes@)
                &&& c.algorithm == Algorithm::Zlib ==> decompressed(bytes@, None) == Some(c.gvas@)
                &&& c.algorithm == Algorithm::OodleMermaid ==> oodle_gave(oodle, bytes@, Ok(c.gvas))
            },
            Err(ContainerError::TooShort { need, have }) => headers_need(bytes@) == Some(need as int) && have
                == bytes@.len(),
            Err(ContainerError::PayloadOutOfBounds { start, compressed_len: cl, file_len }) => {
                &&& headers_need(bytes@) is None
                &&& !payload_fits(bytes@)
                &&& start == payload_start(bytes@)
                &&& cl == compressed_len(bytes@)
                &&& file_len == bytes@.len()
            },
            Err(ContainerError::UnknownSaveType(t)) => {
                &&& headers_need(bytes@) is None && payload_fits(bytes@)
                &&& t == save_type(bytes@) && passes_of(t) is None
            },
            Err(ContainerError::UnknownMagic(m)) => {
                &&& headers_need(bytes@) is None && payload_fits(bytes@)
                &&& passes_of(save_type(bytes@)) is Some
                &&& m@ == magic(bytes@) && algorithm_of(m@) is None
            },
            Err(ContainerError::UnsupportedOodleDoublePass) => {
                &&& headers_need(bytes@) is None && payload_fits(bytes@)
                &&& passes_of(save_type(bytes@)) == Some(Passes::Two)
                &&& algorithm_of(magic(bytes@)) == Some(Algorithm::OodleMermaid)
            },
            Err(ContainerError::Oodle(e)) => {
                &&& container_checks(bytes@) matches Some((Algorithm::OodleMermaid, _))
                &&& oodle_gave(oodle, bytes@, Err(e))
            },
            Err(ContainerError::Zlib(_)) => {
                &&& container_checks(bytes@) matches Some((Algorithm::Zlib, _))
                &&& decompressed(bytes@, None) is None
            },
        },
{
    let outer = read_raw_header(bytes, 0)?;
    let was_cnk_wrapped = is_magic(&outer.magic, 0x43, 0x4E, 0x4B);
    let base: usize = if was_cnk_wrapped { HEADER_LEN } else { 0 };
    let header = if was_cnk_wrapped { read_raw_header(bytes, HEADER_LEN)? } else { outer };
    let start = base + HEADER_LEN;
    let cl = header.compressed_len as usize;
    if cl > bytes.len() - start {
        return Err(
            ContainerError::PayloadOutOfBounds {
                start,
                compressed_len: header.compressed_len,
                file_len: bytes.len(),
            },
        );
    }
    let compressed = slice_subrange(bytes, start, start + cl);
    let passes = Passes::from_save_type(header.save_type)?;
    let algorithm = if is_magic(&header.magic, 0x50, 0x6C, 0x5A) {
        Algorithm::Zlib
    } else if is_magic(&header.magic, 0x50, 0x6C, 0x4D) {
        Algorithm::OodleMermaid
    } else {
        return Err(ContainerError::UnknownMagic(header.magic));
    };
    if matches!(algorithm, Algorithm::OodleMermaid) && matches!(passes, Passes::Two) {
        return Err(ContainerError::UnsupportedOodleDoublePass);
    }
    let once = match algorithm {
        Algorithm::Zlib => match zlib_inflate(compressed) {
            Ok(v) => v,
            Err(e) => {
                return Err(ContainerError::Zlib(e));
            },
        },
        Algorithm::OodleMermaid => {
            let res = oodle(compressed, header.uncompressed_len as usize);
            proof {
                assert(oodle_gave(oodle, bytes@, res));
            }
            match res {
                Ok(v) => v,
                Err(e) => {
                    return Err(ContainerError::Oodle(e));
                },
            }
        },
    };
    let gvas = match passes {
        Passes::One => once,
        Passes::Two => match zlib_inflate(once.as_slice()) {
            Ok(v) => v,
            Err(e) => {
                return Err(ContainerError::Zlib(e));
            },
        },
    };
    Ok(Container { algorithm, passes, was_cnk_wrapped, gvas })
}

/// Writes `gvas` back as a PlZ container. No Oodle compressor exists, so a PlM
/// container is written as PlZ with two zlib passes; a PlZ container keeps its pass
/// count. CNK re-wrapping is not attempted. Decoding the result gives `gvas` back
/// whenever its lengths fit the header's u32 fields.
pub fn encode(gvas: &[u8], original: &Container) -> (out: Vec<u8>)
    ensures
        out@ == encoded(gvas@, rewrite_passes(original.algorithm, original.passes)),
        ({
            let p = rewrite_passes(original.algorithm, original.passes);
            gvas@.len() <= u32::MAX && compressed_for(gvas@, p).len() <= u32::MAX ==> {
                &&& decompressed(out@, None) == Some(gvas@)
                &&& container_checks(out@) == Some((Algorithm::Zlib, p))
                &&& !cnk_wrapped(out@)
            }
        }),
{
    let passes = match original.algorithm {
        Algorithm::OodleMermaid => Passes::Two,
        Algorithm::Zlib => original.passes,
    };
    let compressed = match passes {
        Passes::One => zlib_deflate(gvas),
        Passes::Two => {
            let inner = zlib_deflate(gvas);
            zlib_deflate(inner.as_slice())
        },
    };
    let mut out: Vec<u8> = Vec::new();
    write_u32_le(&mut out, gvas.len() as u32);
    write_u32_le(&mut out, compressed.len() as u32);
    out.push(0x50);
    out.push(0x6C);
    out.push(0x5A);
    out.push(passes.byte());
    append_bytes(&mut out, compressed.as_slice());
    proof {
        let c = compressed@;
        assert(out@ =~= encoded(gvas@, passes));
        if gvas@.len() <= u32::MAX && c.len() <= u32::MAX {
            lemma_le_round_trips();
            let b = out@;
            assert(b.subrange(0, 4) =~= u32_bytes(gvas@.len() as u32));
            assert(b.subrange(4, 8) =~= u32_bytes(c.len() as u32));
            assert(b.subrange(8, 11) =~= plz_magic());
            assert(!cnk_wrapped(b));
            assert(payload(b) =~= c);
        }
    }
    out
}

} // verus!
