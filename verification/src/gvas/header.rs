//! The GVAS header: magic, save/package versions, engine version, branch name and,
//! from engine 4.12 on, the custom-version table.

use vstd::prelude::*;
use super::error::{GvasError, eof_error};
use super::primitives::{
    FString, FStringView, Guid, fits, fstring_end, fstring_error, i32_bytes, lemma_window_is_encoding, read_fstring,
    read_guid, read_i32_le, read_u16_le, read_u32_le, u16_at, u16_bytes, u32_at, u32_bytes, write_fstring,
    write_guid, write_i32_le, write_u16_le, write_u32_le,
};

verus! {

/// `b"GVAS"` read as a little-endian u32.
pub const GVAS_MAGIC: u32 = 0x5341_5647u32;

#[derive(Debug, Clone, Copy, PartialEq, Eq)]
pub struct CustomFormatEntry {
    pub id: Guid,
    pub value: i32,
}

#[derive(Debug, Clone, PartialEq, Eq)]
pub struct Header {
    pub magic: u32,
    pub save_game_version: u32,
    pub package_version_ue4: u32,
    /// Present when save_game_version >= 3 and != 34.
    pub package_version_ue5: Option<u32>,
    pub engine_version_major: u16,
    pub engine_version_minor: u16,
    pub engine_version_patch: u16,
    pub engine_version_build: u32,
    pub engine_version_branch: FString,
    /// Present when the engine version is at least 4.12.
    pub custom_version: Option<(u32, Vec<CustomFormatEntry>)>,
}

/// The mathematical value of a [`Header`].
pub struct HeaderView {
    pub magic: u32,
    pub save_game_version: u32,
    pub package_version_ue4: u32,
    pub package_version_ue5: Option<u32>,
    pub engine_version_major: u16,
    pub engine_version_minor: u16,
    pub engine_version_patch: u16,
    pub engine_version_build: u32,
    pub engine_version_branch: FStringView,
    pub custom_version: Option<(u32, Seq<CustomFormatEntry>)>,
}

impl View for Header {
    type V = HeaderView;

    open spec fn view(&self) -> HeaderView {
        HeaderView {
            magic: self.magic,
            save_game_version: self.save_game_version,
            package_version_ue4: self.package_version_ue4,
            package_version_ue5: self.package_version_ue5,
            engine_version_major: self.engine_version_major,
            engine_version_minor: self.engine_version_minor,
            engine_version_patch: self.engine_version_patch,
            engine_version_build: self.engine_version_build,
            engine_version_branch: self.engine_version_branch@,
            custom_version: match self.custom_version {
                Some((v, entries)) => Some((v, entries@)),
                None => None,
            },
        }
    }
}

/// Engine version `major.minor` is at least `a.b`.
pub open spec fn engine_at_least(major: u16, minor: u16, a: u16, b: u16) -> bool {
    major > a || (major == a && minor >= b)
}

/// The save-game version carries a UE5 package version.
pub open spec fn has_ue5_version(save_game_version: u32) -> bool {
    save_game_version >= 3 && save_game_version != 34
}

pub open spec fn entries_bytes(entries: Seq<CustomFormatEntry>) -> Seq<u8>
    decreases entries.len(),
{
    if entries.len() == 0 {
        Seq::empty()
    } else {
        entries_bytes(entries.drop_last()) + entries.last().id@ + i32_bytes(entries.last().value)
    }
}

impl HeaderView {
    pub open spec fn bytes(self) -> Seq<u8> {
        u32_bytes(self.magic) + u32_bytes(self.save_game_version) + u32_bytes(self.package_version_ue4)
            + match self.package_version_ue5 {
            Some(v) => u32_bytes(v),
            None => Seq::empty(),
        } + u16_bytes(self.engine_version_major) + u16_bytes(self.engine_version_minor) + u16_bytes(
            self.engine_version_patch,
        ) + u32_bytes(self.engine_version_build) + self.engine_version_branch.bytes()
            + match self.custom_version {
            Some((v, entries)) => u32_bytes(v) + u32_bytes(entries.len() as u32) + entries_bytes(entries),
            None => Seq::empty(),
        }
    }

    /// The shape every successful read produces.
    pub open spec fn wf(self) -> bool {
        &&& (self.package_version_ue5 is Some <==> has_ue5_version(self.save_game_version))
        &&& (self.custom_version is Some <==> engine_at_least(
            self.engine_version_major,
            self.engine_version_minor,
            4,
            12,
        ))
        &&& self.engine_version_branch.canonical()
        &&& (self.custom_version matches Some((_, entries)) ==> entries.len() <= u32::MAX)
    }
}

/// Offset of the engine version fields of a header starting at `p`.
pub open spec fn engine_field_at(buf: Seq<u8>, p: int) -> int {
    p + 12 + if has_ue5_version(u32_at(buf, p + 4)) { 4int } else { 0int }
}

/// Where a header that starts at `p` ends, if the buffer holds one.
pub open spec fn header_end(buf: Seq<u8>, p: int) -> Option<int> {
    if !fits(buf, p, 12) {
        None
    } else {
        let q = engine_field_at(buf, p);
        if !fits(buf, q, 10) {
            None
        } else {
            match fstring_end(buf, q + 10) {
                None => None,
                Some(e) => if !engine_at_least(u16_at(buf, q), u16_at(buf, q + 2), 4, 12) {
                    Some(e)
                } else if !fits(buf, e, 8) {
                    None
                } else if fits(buf, e + 8, 20 * u32_at(buf, e + 4)) {
                    Some(e + 8 + 20 * u32_at(buf, e + 4))
                } else {
                    None
                },
            }
        }
    }
}

/// The error reading `count` custom format entries at `s` gives, when it fails: the
/// guid or the value of the first entry that does not fit.
pub open spec fn entries_error(buf: Seq<u8>, s: int, count: nat) -> GvasError
    decreases count,
{
    if count == 0 || !fits(buf, s, 20) {
        if !fits(buf, s, 16) {
            eof_error(16, s, buf.len() as int)
        } else {
            eof_error(4, s + 16, buf.len() as int)
        }
    } else {
        entries_error(buf, s + 20, (count - 1) as nat)
    }
}

/// The error reading the header at `p` gives, when it fails: the first of its reads
/// that does not fit.
pub open spec fn header_error(buf: Seq<u8>, p: int) -> GvasError {
    let len = buf.len() as int;
    let q = engine_field_at(buf, p);
    if !fits(buf, p, 4) {
        eof_error(4, p, len)
    } else if !fits(buf, p + 4, 4) {
        eof_error(4, p + 4, len)
    } else if !fits(buf, p + 8, 4) {
        eof_error(4, p + 8, len)
    } else if has_ue5_version(u32_at(buf, p + 4)) && !fits(buf, p + 12, 4) {
        eof_error(4, p + 12, len)
    } else if !fits(buf, q, 2) {
        eof_error(2, q, len)
    } else if !fits(buf, q + 2, 2) {
        eof_error(2, q + 2, len)
    } else if !fits(buf, q + 4, 2) {
        eof_error(2, q + 4, len)
    } else if !fits(buf, q + 6, 4) {
        eof_error(4, q + 6, len)
    } else {
        match fstring_end(buf, q + 10) {
            None => fstring_error(buf, q + 10),
            Some(e) => if !fits(buf, e, 4) {
                eof_error(4, e, len)
            } else if !fits(buf, e + 4, 4) {
                eof_error(4, e + 4, len)
            } else {
                entries_error(buf, e + 8, u32_at(buf, e + 4) as nat)
            },
        }
    }
}

fn read_custom_entries(buf: &[u8], pos: &mut usize, count: u32) -> (r: Result<Vec<CustomFormatEntry>, GvasError>)
    requires
        *old(pos) <= buf@.len(),
    ensures
        fits(buf@, *old(pos) as int, 20 * count) <==> r is Ok,
        match r {
            Ok(entries) => {
                &&& *final(pos) == *old(pos) + 20 * count
                &&& entries@.len() == count
                &&& entries_bytes(entries@) == buf@.subrange(*old(pos) as int, *final(pos) as int)
            },
            Err(e) => e == entries_error(buf@, *old(pos) as int, count as nat),
        },
{
    let ghost s = *pos as int;
    let mut entries: Vec<CustomFormatEntry> = Vec::new();
    let mut i: u32 = 0;
    assert(buf@.subrange(s, s) =~= Seq::<u8>::empty());
    while i < count
        invariant
            i <= count,
            s == *old(pos),
            *pos == s + 20 * i,
            fits(buf@, s, 20 * i),
            entries_error(buf@, s, count as nat) == entries_error(buf@, *pos as int, (count - i) as nat),
            entries@.len() == i,
            entries_bytes(entries@) == buf@.subrange(s, *pos as int),
        decreases count - i,
    {
        let ghost here = *pos as int;
        let id = read_guid(buf, pos)?;
        let value = read_i32_le(buf, pos)?;
        proof {
            lemma_window_is_encoding(buf@, here + 16);
            let ent = CustomFormatEntry { id, value };
            assert(entries@.push(ent).drop_last() =~= entries@);
            assert(buf@.subrange(s, *pos as int) =~= buf@.subrange(s, here) + buf@.subrange(here, here + 16)
                + buf@.subrange(here + 16, here + 20));
        }
        entries.push(CustomFormatEntry { id, value });
        i = i + 1;
    }
    Ok(entries)
}

/// The bytes of a header read piecewise are its encoding.
proof fn lemma_entries_bytes_len(entries: Seq<CustomFormatEntry>)
    ensures
        entries_bytes(entries).len() == 20 * entries.len(),
    decreases entries.len(),
{
    if entries.len() > 0 {
        lemma_entries_bytes_len(entries.drop_last());
        super::primitives::lemma_i32_reads_back(entries.last().value, Seq::empty(), Seq::empty());
        assert(Seq::<u8>::empty() + i32_bytes(entries.last().value) + Seq::<u8>::empty() =~= i32_bytes(
            entries.last().value,
        ));
    }
}

/// Law: a well-formed header written at the start of a buffer reads back: the read
/// ends where the written bytes end, and the engine version it reports is the
/// header's.
#[verifier::rlimit(80)]
pub proof fn header_round_trip(h: HeaderView, rest: Seq<u8>)
    requires
        h.wf(),
    ensures
        header_end(h.bytes() + rest, 0) == Some(h.bytes().len() as int),
        u16_at(h.bytes() + rest, engine_field_at(h.bytes() + rest, 0)) == h.engine_version_major,
        u16_at(h.bytes() + rest, engine_field_at(h.bytes() + rest, 0) + 2) == h.engine_version_minor,
{
    let buf = h.bytes() + rest;
    let a = u32_bytes(h.magic);
    let b = u32_bytes(h.save_game_version);
    let c = u32_bytes(h.package_version_ue4);
    let d = match h.package_version_ue5 {
        Some(v) => u32_bytes(v),
        None => Seq::empty(),
    };
    let m1 = u16_bytes(h.engine_version_major);
    let m2 = u16_bytes(h.engine_version_minor);
    let m3 = u16_bytes(h.engine_version_patch);
    let bd = u32_bytes(h.engine_version_build);
    let br = h.engine_version_branch.bytes();
    let cu = match h.custom_version {
        Some((v, entries)) => u32_bytes(v) + u32_bytes(entries.len() as u32) + entries_bytes(entries),
        None => Seq::empty(),
    };
    assert(h.bytes() == a + b + c + d + m1 + m2 + m3 + bd + br + cu);
    super::primitives::lemma_read_back_u32(h.magic, Seq::empty(), Seq::empty());
    super::primitives::lemma_read_back_u32(h.save_game_version, Seq::empty(), Seq::empty());
    super::primitives::lemma_read_back_u32(h.package_version_ue4, Seq::empty(), Seq::empty());
    super::primitives::lemma_read_back_u32(h.engine_version_build, Seq::empty(), Seq::empty());
    super::primitives::lemma_read_back_u16(h.engine_version_major, Seq::empty(), Seq::empty());
    super::primitives::lemma_read_back_u16(h.engine_version_minor, Seq::empty(), Seq::empty());
    super::primitives::lemma_read_back_u16(h.engine_version_patch, Seq::empty(), Seq::empty());
    assert(Seq::<u8>::empty() + a + Seq::<u8>::empty() =~= a);
    assert(Seq::<u8>::empty() + b + Seq::<u8>::empty() =~= b);
    assert(Seq::<u8>::empty() + c + Seq::<u8>::empty() =~= c);
    assert(Seq::<u8>::empty() + bd + Seq::<u8>::empty() =~= bd);
    assert(Seq::<u8>::empty() + m1 + Seq::<u8>::empty() =~= m1);
    assert(Seq::<u8>::empty() + m2 + Seq::<u8>::empty() =~= m2);
    assert(Seq::<u8>::empty() + m3 + Seq::<u8>::empty() =~= m3);
    if let Some(v) = h.package_version_ue5 {
        super::primitives::lemma_read_back_u32(v, Seq::empty(), Seq::empty());
        assert(Seq::<u8>::empty() + d + Seq::<u8>::empty() =~= d);
    }
    assert(u32_at(buf, 4) == h.save_game_version) by {
        assert(buf =~= a + b + (c + d + m1 + m2 + m3 + bd + br + cu + rest));
        super::primitives::lemma_read_back_u32(h.save_game_version, c + d + m1 + m2 + m3 + bd + br + cu + rest, a);
    }
    let q = engine_field_at(buf, 0);
    assert(q == (a + b + c + d).len());
    assert(u16_at(buf, q) == h.engine_version_major) by {
        assert(buf =~= (a + b + c + d) + m1 + (m2 + m3 + bd + br + cu + rest));
        super::primitives::lemma_read_back_u16(h.engine_version_major, m2 + m3 + bd + br + cu + rest, a + b + c + d);
    }
    assert(u16_at(buf, q + 2) == h.engine_version_minor) by {
        assert(buf =~= (a + b + c + d + m1) + m2 + (m3 + bd + br + cu + rest));
        super::primitives::lemma_read_back_u16(h.engine_version_minor, m3 + bd + br + cu + rest, a + b + c + d + m1);
    }
    let pre = a + b + c + d + m1 + m2 + m3 + bd;
    assert(pre.len() == q + 10);
    assert(fstring_end(buf, q + 10) == Some(q + 10 + br.len())) by {
        assert(buf =~= pre + br + (cu + rest));
        super::primitives::lemma_fstring_reads_back(h.engine_version_branch, pre, cu + rest);
    }
    let e = q + 10 + br.len();
    assert(h.bytes().len() == e + cu.len());
    assert(engine_at_least(u16_at(buf, q), u16_at(buf, q + 2), 4, 12) <==> h.custom_version is Some);
    if let Some((v, entries)) = h.custom_version {
        let vb = u32_bytes(v);
        let nb = u32_bytes(entries.len() as u32);
        super::primitives::lemma_read_back_u32(v, Seq::empty(), Seq::empty());
        assert(Seq::<u8>::empty() + vb + Seq::<u8>::empty() =~= vb);
        super::primitives::lemma_read_back_u32(entries.len() as u32, Seq::empty(), Seq::empty());
        assert(Seq::<u8>::empty() + nb + Seq::<u8>::empty() =~= nb);
        lemma_entries_bytes_len(entries);
        assert(u32_at(buf, e + 4) == entries.len()) by {
            assert(buf =~= (pre + br + vb) + nb + (entries_bytes(entries) + rest));
            super::primitives::lemma_read_back_u32(entries.len() as u32, entries_bytes(entries) + rest, pre + br + vb);
        }
        assert(cu.len() == 8 + 20 * entries.len());
        assert(fits(buf, e, 8));
        assert(fits(buf, e + 8, 20 * u32_at(buf, e + 4)));
    } else {
        assert(cu.len() == 0);
    }
}

proof fn lemma_header_bytes(buf: Seq<u8>, p: int, q: int, b: int, e: int, end: int, h: HeaderView)
    requires
        0 <= p <= q <= b <= e <= end <= buf.len(),
        buf.subrange(p, p + 4) == u32_bytes(h.magic),
        buf.subrange(p + 4, p + 8) == u32_bytes(h.save_game_version),
        buf.subrange(p + 8, p + 12) == u32_bytes(h.package_version_ue4),
        q == p + 12 + if h.package_version_ue5 is Some { 4int } else { 0int },
        h.package_version_ue5 matches Some(v) ==> buf.subrange(p + 12, p + 16) == u32_bytes(v),
        b == q + 10,
        buf.subrange(q, q + 2) == u16_bytes(h.engine_version_major),
        buf.subrange(q + 2, q + 4) == u16_bytes(h.engine_version_minor),
        buf.subrange(q + 4, q + 6) == u16_bytes(h.engine_version_patch),
        buf.subrange(q + 6, q + 10) == u32_bytes(h.engine_version_build),
        buf.subrange(b, e) == h.engine_version_branch.bytes(),
        h.custom_version is None ==> end == e,
        h.custom_version matches Some((v, entries)) ==> {
            &&& buf.subrange(e, e + 4) == u32_bytes(v)
            &&& buf.subrange(e + 4, e + 8) == u32_bytes(entries.len() as u32)
            &&& buf.subrange(e + 8, end) == entries_bytes(entries)
            &&& e + 8 <= end
        },
    ensures
        buf.subrange(p, end) == h.bytes(),
{
    let fixed = buf.subrange(p, q);
    let engine = buf.subrange(q, b);
    assert(fixed =~= u32_bytes(h.magic) + u32_bytes(h.save_game_version) + u32_bytes(h.package_version_ue4)
        + match h.package_version_ue5 {
        Some(v) => u32_bytes(v),
        None => Seq::empty(),
    });
    assert(engine =~= u16_bytes(h.engine_version_major) + u16_bytes(h.engine_version_minor) + u16_bytes(
        h.engine_version_patch,
    ) + u32_bytes(h.engine_version_build));
    let custom = buf.subrange(e, end);
    assert(custom =~= match h.custom_version {
        Some((v, entries)) => u32_bytes(v) + u32_bytes(entries.len() as u32) + entries_bytes(entries),
        None => Seq::empty(),
    });
    assert(buf.subrange(p, end) =~= fixed + engine + buf.subrange(b, e) + custom);
}

impl Header {
    /// True when this header uses the complete-type-name property tag format
    /// (engine >= 5.4), which `GvasFile::parse` refuses.
    pub fn uses_new_property_tag_format(&self) -> (r: bool)
        ensures
            r == engine_at_least(self.engine_version_major, self.engine_version_minor, 5, 4),
    {
        self.engine_version_major > 5 || (self.engine_version_major == 5 && self.engine_version_minor >= 4)
    }

    /// Property tags carry an optional guid from engine 4.12 on.
    pub fn has_property_guid(&self) -> (r: bool)
        ensures
            r == engine_at_least(self.engine_version_major, self.engine_version_minor, 4, 12),
    {
        self.engine_version_major > 4 || (self.engine_version_major == 4 && self.engine_version_minor >= 12)
    }

    #[verifier::rlimit(100)]
    pub fn read(buf: &[u8], pos: &mut usize) -> (r: Result<Header, GvasError>)
        ensures
            header_end(buf@, *old(pos) as int) is Some <==> r is Ok,
            match r {
                Ok(h) => {
                    &&& *final(pos) == header_end(buf@, *old(pos) as int)->0
                    &&& h@.wf()
                    &&& h@.bytes() == buf@.subrange(*old(pos) as int, *final(pos) as int)
                    &&& h.engine_version_major == u16_at(buf@, engine_field_at(buf@, *old(pos) as int))
                    &&& h.engine_version_minor == u16_at(buf@, engine_field_at(buf@, *old(pos) as int) + 2)
                },
                Err(e) => e == header_error(buf@, *old(pos) as int),
            },
    {
        let ghost p = *pos as int;
        let magic = read_u32_le(buf, pos)?;
        let save_game_version = read_u32_le(buf, pos)?;
        let package_version_ue4 = read_u32_le(buf, pos)?;
        let package_version_ue5 = if save_game_version >= 3 && save_game_version != 34 {
            Some(read_u32_le(buf, pos)?)
        } else {
            None
        };
        let ghost q = *pos as int;
        let engine_version_major = read_u16_le(buf, pos)?;
        let engine_version_minor = read_u16_le(buf, pos)?;
        let engine_version_patch = read_u16_le(buf, pos)?;
        let engine_version_build = read_u32_le(buf, pos)?;
        let ghost b = *pos as int;
        let engine_version_branch = read_fstring(buf, pos)?;
        let ghost e = *pos as int;
        proof {
            lemma_window_is_encoding(buf@, p);
            lemma_window_is_encoding(buf@, p + 4);
            lemma_window_is_encoding(buf@, p + 8);
            if has_ue5_version(save_game_version) {
                lemma_window_is_encoding(buf@, p + 12);
            }
            lemma_window_is_encoding(buf@, q);
            lemma_window_is_encoding(buf@, q + 2);
            lemma_window_is_encoding(buf@, q + 4);
            lemma_window_is_encoding(buf@, q + 6);
        }
        let ghost before = buf@.subrange(p, e);
        let custom_version = if engine_version_major > 4 || (engine_version_major == 4
            && engine_version_minor >= 12) {
            let format_version = read_u32_le(buf, pos)?;
            let count = read_u32_le(buf, pos)?;
            proof {
                lemma_window_is_encoding(buf@, e);
                lemma_window_is_encoding(buf@, e + 4);
            }
            let entries = read_custom_entries(buf, pos, count)?;
            Some((format_version, entries))
        } else {
            None
        };
        let h = Header {
            magic,
            save_game_version,
            package_version_ue4,
            package_version_ue5,
            engine_version_major,
            engine_version_minor,
            engine_version_patch,
            engine_version_build,
            engine_version_branch,
            custom_version,
        };
        proof {
            lemma_header_bytes(buf@, p, q, b, e, *pos as int, h@);
        }
        Ok(h)
    }

    #[verifier::rlimit(40)]
    pub fn write(&self, out: &mut Vec<u8>)
        ensures
            final(out)@ == old(out)@ + self@.bytes(),
    {
        write_u32_le(out, self.magic);
        write_u32_le(out, self.save_game_version);
        write_u32_le(out, self.package_version_ue4);
        if let Some(ue5) = self.package_version_ue5 {
            write_u32_le(out, ue5);
        }
        write_u16_le(out, self.engine_version_major);
        write_u16_le(out, self.engine_version_minor);
        write_u16_le(out, self.engine_version_patch);
        write_u32_le(out, self.engine_version_build);
        write_fstring(out, &self.engine_version_branch);
        let ghost mid = out@;
        match &self.custom_version {
            Some((format_version, entries)) => {
                write_u32_le(out, *format_version);
                write_u32_le(out, entries.len() as u32);
                let ghost start = out@;
                let mut i: usize = 0;
                while i < entries.len()
                    invariant
                        i <= entries@.len(),
                        out@ == start + entries_bytes(entries@.subrange(0, i as int)),
                    decreases entries@.len() - i,
                {
                    let e = entries[i];
                    write_guid(out, &e.id);
                    write_i32_le(out, e.value);
                    proof {
                        assert(entries@.subrange(0, i + 1).drop_last() =~= entries@.subrange(0, i as int));
                    }
                    i = i + 1;
                }
                assert(entries@.subrange(0, i as int) =~= entries@);
            },
            None => {},
        }
        assert(final(out)@ =~= old(out)@ + self@.bytes());
    }
}

} // verus!
