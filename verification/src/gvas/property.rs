//! Legacy (pre-engine-5.4) property tag header: fstring name, fstring type, u32 size,
//! u32 array index, a type-specific extra block, then an optional property guid.
//! `size` is the exact byte length of the value that follows the tag, for every
//! property type, which is what makes lazy indexing possible.

use vstd::prelude::*;
use vstd::string::*;
use super::error::{GvasError, eof_error};
use super::primitives;
use super::primitives::{
    FString, FStringView, Guid, bytes_to_vec, fits, fstring_end, fstring_error, fstring_view_at, optional_guid_bytes,
    optional_guid_error,
    optional_guid_end, read_fstring, read_guid, read_optional_guid, read_u32_le, read_u8, u32_at, u32_bytes,
    write_fstring, write_guid, write_optional_guid, write_u32_le, write_u8, lemma_window_is_encoding,
};

verus! {

#[derive(Debug, Clone, PartialEq, Eq)]
pub enum TagExtra {
    NoExtra,
    Bool(bool),
    Byte { enum_type: FString },
    Enum { enum_type: FString },
    Array { inner_type: FString },
    SetOf { key_type: FString },
    MapOf { key_type: FString, value_type: FString },
    Struct { struct_type: FString, guid: Guid },
}

#[derive(Debug, Clone, PartialEq, Eq)]
pub struct PropertyTag {
    pub name: FString,
    pub property_type: FString,
    pub size: u32,
    pub index: u32,
    pub extra: TagExtra,
    pub guid: Option<Guid>,
}

/// The mathematical value of a [`TagExtra`]; guids are their byte sequences.
pub enum TagExtraView {
    NoExtra,
    Bool(bool),
    Byte { enum_type: FStringView },
    Enum { enum_type: FStringView },
    Array { inner_type: FStringView },
    SetOf { key_type: FStringView },
    MapOf { key_type: FStringView, value_type: FStringView },
    Struct { struct_type: FStringView, guid: Seq<u8> },
}

/// The mathematical value of a [`PropertyTag`].
pub struct PropertyTagView {
    pub name: FStringView,
    pub property_type: FStringView,
    pub size: u32,
    pub index: u32,
    pub extra: TagExtraView,
    pub guid: Option<Seq<u8>>,
}

impl View for TagExtra {
    type V = TagExtraView;

    open spec fn view(&self) -> TagExtraView {
        match self {
            TagExtra::NoExtra => TagExtraView::NoExtra,
            TagExtra::Bool(b) => TagExtraView::Bool(*b),
            TagExtra::Byte { enum_type } => TagExtraView::Byte { enum_type: enum_type@ },
            TagExtra::Enum { enum_type } => TagExtraView::Enum { enum_type: enum_type@ },
            TagExtra::Array { inner_type } => TagExtraView::Array { inner_type: inner_type@ },
            TagExtra::SetOf { key_type } => TagExtraView::SetOf { key_type: key_type@ },
            TagExtra::MapOf { key_type, value_type } => TagExtraView::MapOf { key_type: key_type@, value_type: value_type@ },
            TagExtra::Struct { struct_type, guid } => TagExtraView::Struct { struct_type: struct_type@, guid: guid@ },
        }
    }
}

pub open spec fn guid_view(g: Option<Guid>) -> Option<Seq<u8>> {
    match g {
        Some(g) => Some(g@),
        None => None,
    }
}

impl View for PropertyTag {
    type V = PropertyTagView;

    open spec fn view(&self) -> PropertyTagView {
        PropertyTagView {
            name: self.name@,
            property_type: self.property_type@,
            size: self.size,
            index: self.index,
            extra: self.extra@,
            guid: guid_view(self.guid),
        }
    }
}

/// `f` is the 1-byte FString whose content is the text `t`.
pub open spec fn names(f: FStringView, t: &str) -> bool {
    f.is_ascii_text(t.spec_bytes())
}

impl TagExtraView {
    pub open spec fn bytes(self) -> Seq<u8> {
        match self {
            TagExtraView::NoExtra => Seq::empty(),
            TagExtraView::Bool(b) => seq![if b { 1u8 } else { 0u8 }],
            TagExtraView::Byte { enum_type } => enum_type.bytes(),
            TagExtraView::Enum { enum_type } => enum_type.bytes(),
            TagExtraView::Array { inner_type } => inner_type.bytes(),
            TagExtraView::SetOf { key_type } => key_type.bytes(),
            TagExtraView::MapOf { key_type, value_type } => key_type.bytes() + value_type.bytes(),
            TagExtraView::Struct { struct_type, guid } => struct_type.bytes() + guid,
        }
    }

}

impl PropertyTagView {
    pub open spec fn bytes(self, has_property_guid: bool) -> Seq<u8> {
        self.name.bytes() + self.property_type.bytes() + u32_bytes(self.size) + u32_bytes(self.index)
            + self.extra.bytes() + if has_property_guid {
            optional_guid_bytes_view(self.guid)
        } else {
            Seq::empty()
        }
    }
}

pub open spec fn optional_guid_bytes_view(g: Option<Seq<u8>>) -> Seq<u8> {
    match g {
        Some(g) => seq![1u8] + g,
        None => seq![0u8],
    }
}

/// Where a tag's type-specific extra block starting at `x` ends, given the tag's
/// type name.
pub open spec fn extra_end(buf: Seq<u8>, x: int, property_type: FStringView) -> Option<int> {
    if names(property_type, "BoolProperty") {
        if fits(buf, x, 1) { Some(x + 1) } else { None }
    } else if names(property_type, "ByteProperty") || names(property_type, "EnumProperty") || names(
        property_type,
        "ArrayProperty",
    ) || names(property_type, "SetProperty") {
        fstring_end(buf, x)
    } else if names(property_type, "MapProperty") {
        match fstring_end(buf, x) {
            Some(e) => fstring_end(buf, e),
            None => None,
        }
    } else if names(property_type, "StructProperty") {
        match fstring_end(buf, x) {
            Some(e) => if fits(buf, e, 16) { Some(e + 16) } else { None },
            None => None,
        }
    } else {
        Some(x)
    }
}

/// The extra block a read decodes at `x` for a tag of type `property_type`.
pub open spec fn extra_view_at(buf: Seq<u8>, x: int, property_type: FStringView) -> TagExtraView {
    if names(property_type, "BoolProperty") {
        TagExtraView::Bool(buf[x] > 0)
    } else if names(property_type, "ByteProperty") {
        TagExtraView::Byte { enum_type: fstring_view_at(buf, x) }
    } else if names(property_type, "EnumProperty") {
        TagExtraView::Enum { enum_type: fstring_view_at(buf, x) }
    } else if names(property_type, "ArrayProperty") {
        TagExtraView::Array { inner_type: fstring_view_at(buf, x) }
    } else if names(property_type, "SetProperty") {
        TagExtraView::SetOf { key_type: fstring_view_at(buf, x) }
    } else if names(property_type, "MapProperty") {
        TagExtraView::MapOf {
            key_type: fstring_view_at(buf, x),
            value_type: fstring_view_at(buf, fstring_end(buf, x)->0),
        }
    } else if names(property_type, "StructProperty") {
        let e = fstring_end(buf, x)->0;
        TagExtraView::Struct { struct_type: fstring_view_at(buf, x), guid: buf.subrange(e, e + 16) }
    } else {
        TagExtraView::NoExtra
    }
}

/// The tag at `p` is the list-terminating "None" marker.
pub open spec fn is_none_marker(buf: Seq<u8>, p: int) -> bool {
    fstring_end(buf, p) is Some && names(fstring_view_at(buf, p), "None")
}

/// Offset of the size field of a tag starting at `p` (just past its two names).
pub open spec fn size_at(buf: Seq<u8>, p: int) -> int {
    fstring_end(buf, fstring_end(buf, p)->0)->0
}

/// Where the extra block of a tag starting at `p` ends.
pub open spec fn extra_end_at(buf: Seq<u8>, p: int) -> int {
    extra_end(buf, size_at(buf, p) + 8, fstring_view_at(buf, fstring_end(buf, p)->0))->0
}

/// Where a (non-terminator) property tag that starts at `p` ends, if the buffer
/// holds one.
pub open spec fn tag_end(buf: Seq<u8>, p: int, has_property_guid: bool) -> Option<int> {
    match fstring_end(buf, p) {
        None => None,
        Some(n1) => match fstring_end(buf, n1) {
            None => None,
            Some(n2) => if !fits(buf, n2, 8) {
                None
            } else {
                match extra_end(buf, n2 + 8, fstring_view_at(buf, n1)) {
                    None => None,
                    Some(x) => if has_property_guid {
                        optional_guid_end(buf, x)
                    } else {
                        Some(x)
                    },
                }
            },
        },
    }
}

/// The tag a read decodes at `p`.
pub open spec fn tag_view_at(buf: Seq<u8>, p: int, has_property_guid: bool) -> PropertyTagView {
    let n1 = fstring_end(buf, p)->0;
    let n2 = size_at(buf, p);
    let x = extra_end_at(buf, p);
    PropertyTagView {
        name: fstring_view_at(buf, p),
        property_type: fstring_view_at(buf, n1),
        size: u32_at(buf, n2),
        index: u32_at(buf, n2 + 4),
        extra: extra_view_at(buf, n2 + 8, fstring_view_at(buf, n1)),
        guid: if has_property_guid && buf[x] > 0 {
            Some(buf.subrange(x + 1, x + 17))
        } else {
            None
        },
    }
}

/// The error reading a tag's extra block at `x` gives, when it fails.
pub open spec fn extra_error(buf: Seq<u8>, x: int, property_type: FStringView) -> GvasError {
    if names(property_type, "BoolProperty") {
        eof_error(1, x, buf.len() as int)
    } else if names(property_type, "MapProperty") || names(property_type, "StructProperty") {
        match fstring_end(buf, x) {
            None => fstring_error(buf, x),
            Some(e) => if names(property_type, "MapProperty") {
                fstring_error(buf, e)
            } else {
                eof_error(16, e, buf.len() as int)
            },
        }
    } else {
        fstring_error(buf, x)
    }
}

/// The error reading the tag at `p` gives, when it fails: the first of its reads
/// that does not fit.
pub open spec fn tag_error(buf: Seq<u8>, p: int, g: bool) -> GvasError {
    match fstring_end(buf, p) {
        None => fstring_error(buf, p),
        Some(n1) => match fstring_end(buf, n1) {
            None => fstring_error(buf, n1),
            Some(n2) => if !fits(buf, n2, 4) {
                eof_error(4, n2, buf.len() as int)
            } else if !fits(buf, n2 + 4, 4) {
                eof_error(4, n2 + 4, buf.len() as int)
            } else {
                match extra_end(buf, n2 + 8, fstring_view_at(buf, n1)) {
                    None => extra_error(buf, n2 + 8, fstring_view_at(buf, n1)),
                    Some(x) => optional_guid_error(buf, x),
                }
            },
        },
    }
}

/// A read at `p` succeeds: either the "None" marker or a complete tag.
pub open spec fn tag_readable(buf: Seq<u8>, p: int, has_property_guid: bool) -> bool {
    is_none_marker(buf, p) || (fstring_end(buf, p) is Some && tag_end(buf, p, has_property_guid) is Some)
}

fn read_extra(buf: &[u8], pos: &mut usize, property_type: &FString) -> (r: Result<TagExtra, GvasError>)
    ensures
        extra_end(buf@, *old(pos) as int, property_type@) is Some <==> r is Ok,
        match r {
            Ok(e) => {
                &&& *final(pos) == extra_end(buf@, *old(pos) as int, property_type@)->0
                &&& e@ == extra_view_at(buf@, *old(pos) as int, property_type@)
            },
            Err(e) => e == extra_error(buf@, *old(pos) as int, property_type@),
        },
{
    if property_type.is_ascii_text("BoolProperty") {
        let b = read_u8(buf, pos)?;
        Ok(TagExtra::Bool(b > 0))
    } else if property_type.is_ascii_text("ByteProperty") {
        Ok(TagExtra::Byte { enum_type: read_fstring(buf, pos)? })
    } else if property_type.is_ascii_text("EnumProperty") {
        Ok(TagExtra::Enum { enum_type: read_fstring(buf, pos)? })
    } else if property_type.is_ascii_text("ArrayProperty") {
        Ok(TagExtra::Array { inner_type: read_fstring(buf, pos)? })
    } else if property_type.is_ascii_text("SetProperty") {
        Ok(TagExtra::SetOf { key_type: read_fstring(buf, pos)? })
    } else if property_type.is_ascii_text("MapProperty") {
        let key_type = read_fstring(buf, pos)?;
        let value_type = read_fstring(buf, pos)?;
        Ok(TagExtra::MapOf { key_type, value_type })
    } else if property_type.is_ascii_text("StructProperty") {
        let struct_type = read_fstring(buf, pos)?;
        let guid = read_guid(buf, pos)?;
        Ok(TagExtra::Struct { struct_type, guid })
    } else {
        Ok(TagExtra::NoExtra)
    }
}

/// Reads one property tag, or `None` if this was the list-terminating "None" marker.
/// `has_property_guid` should come from `Header::has_property_guid()`.
pub fn read_property_tag(buf: &[u8], pos: &mut usize, has_property_guid: bool) -> (r: Result<
    Option<PropertyTag>,
    GvasError,
>)
    ensures
        tag_readable(buf@, *old(pos) as int, has_property_guid) <==> r is Ok,
        match r {
            Ok(None) => is_none_marker(buf@, *old(pos) as int) && *final(pos) == fstring_end(
                buf@,
                *old(pos) as int,
            )->0,
            Ok(Some(t)) => {
                &&& !is_none_marker(buf@, *old(pos) as int)
                &&& *final(pos) == tag_end(buf@, *old(pos) as int, has_property_guid)->0
                &&& t@ == tag_view_at(buf@, *old(pos) as int, has_property_guid)
            },
            Err(e) => e == tag_error(buf@, *old(pos) as int, has_property_guid),
        },
{
    let ghost p = *pos as int;
    let name = read_fstring(buf, pos)?;
    if name.is_ascii_text("None") {
        return Ok(None);
    }
    let ghost n1 = *pos as int;
    let property_type = read_fstring(buf, pos)?;
    let ghost n2 = *pos as int;
    let size = read_u32_le(buf, pos)?;
    let index = read_u32_le(buf, pos)?;
    let extra = read_extra(buf, pos, &property_type)?;
    let ghost x = *pos as int;
    let guid = if has_property_guid {
        read_optional_guid(buf, pos)?
    } else {
        None
    };
    let t = PropertyTag { name, property_type, size, index, extra, guid };
    assert(t@ == tag_view_at(buf@, p, has_property_guid));
    Ok(Some(t))
}

/// Byte offset of a tag's `size` field — the u32 giving the length of the value that
/// follows the tag. `span_start` is a `PropertyEntry`'s span start.
pub fn size_field_offset(buf: &[u8], span_start: usize) -> (r: Result<usize, GvasError>)
    ensures
        (fstring_end(buf@, span_start as int) is Some && fstring_end(buf@, fstring_end(buf@, span_start as int)->0) is Some)
            <==> r is Ok,
        r matches Ok(o) ==> o == size_at(buf@, span_start as int),
        r matches Err(e) ==> e is UnexpectedEof,
{
    let mut pos = span_start;
    read_fstring(buf, &mut pos)?;
    read_fstring(buf, &mut pos)?;
    Ok(pos)
}

/// Byte offset where a property's value begins — one past the end of its tag.
pub fn value_offset(buf: &[u8], span_start: usize, has_property_guid: bool) -> (r: Result<usize, GvasError>)
    ensures
        tag_readable(buf@, span_start as int, has_property_guid) <==> r is Ok,
        r matches Ok(o) ==> o == if is_none_marker(buf@, span_start as int) {
            fstring_end(buf@, span_start as int)->0
        } else {
            tag_end(buf@, span_start as int, has_property_guid)->0
        },
        r matches Err(e) ==> e is UnexpectedEof,
{
    let mut pos = span_start;
    read_property_tag(buf, &mut pos, has_property_guid)?;
    Ok(pos)
}

#[verifier::rlimit(40)]
pub fn write_property_tag(out: &mut Vec<u8>, tag: &PropertyTag, has_property_guid: bool)
    ensures
        final(out)@ == old(out)@ + tag@.bytes(has_property_guid),
{
    write_fstring(out, &tag.name);
    write_fstring(out, &tag.property_type);
    write_u32_le(out, tag.size);
    write_u32_le(out, tag.index);
    write_extra(out, &tag.extra);
    if has_property_guid {
        write_optional_guid(out, &tag.guid);
        assert(optional_guid_bytes(tag.guid) == optional_guid_bytes_view(guid_view(tag.guid)));
    }
    assert(final(out)@ =~= old(out)@ + tag@.bytes(has_property_guid));
}

fn write_extra(out: &mut Vec<u8>, extra: &TagExtra)
    ensures
        final(out)@ == old(out)@ + extra@.bytes(),
{
    match extra {
        TagExtra::NoExtra => {
            assert(final(out)@ =~= old(out)@ + extra@.bytes());
        },
        TagExtra::Bool(v) => write_u8(out, if *v { 1u8 } else { 0u8 }),
        TagExtra::Byte { enum_type } => write_fstring(out, enum_type),
        TagExtra::Enum { enum_type } => write_fstring(out, enum_type),
        TagExtra::Array { inner_type } => write_fstring(out, inner_type),
        TagExtra::SetOf { key_type } => write_fstring(out, key_type),
        TagExtra::MapOf { key_type, value_type } => {
            write_fstring(out, key_type);
            write_fstring(out, value_type);
            assert(final(out)@ =~= old(out)@ + extra@.bytes());
        },
        TagExtra::Struct { struct_type, guid } => {
            write_fstring(out, struct_type);
            write_guid(out, guid);
            assert(final(out)@ =~= old(out)@ + extra@.bytes());
        },
    }
}

/// The extra block `e` is the one a tag of type `property_type` carries, laid out as
/// a writer lays it out: every name in it canonical, a struct's guid 16 bytes.
pub open spec fn extra_fits(property_type: FStringView, e: TagExtraView) -> bool {
    if names(property_type, "BoolProperty") {
        e is Bool
    } else if names(property_type, "ByteProperty") {
        e matches TagExtraView::Byte { enum_type } && enum_type.canonical()
    } else if names(property_type, "EnumProperty") {
        e matches TagExtraView::Enum { enum_type } && enum_type.canonical()
    } else if names(property_type, "ArrayProperty") {
        e matches TagExtraView::Array { inner_type } && inner_type.canonical()
    } else if names(property_type, "SetProperty") {
        e matches TagExtraView::SetOf { key_type } && key_type.canonical()
    } else if names(property_type, "MapProperty") {
        e matches TagExtraView::MapOf { key_type, value_type } && key_type.canonical() && value_type.canonical()
    } else if names(property_type, "StructProperty") {
        e matches TagExtraView::Struct { struct_type, guid } && struct_type.canonical() && guid.len() == 16
    } else {
        e is NoExtra
    }
}

proof fn lemma_extra_reads_back(property_type: FStringView, e: TagExtraView, before: Seq<u8>, rest: Seq<u8>)
    requires
        extra_fits(property_type, e),
    ensures
        extra_end(before + e.bytes() + rest, before.len() as int, property_type) == Some(
            (before.len() + e.bytes().len()) as int,
        ),
        extra_view_at(before + e.bytes() + rest, before.len() as int, property_type) == e,
{
    let buf = before + e.bytes() + rest;
    let p = before.len() as int;
    match e {
        TagExtraView::NoExtra => {},
        TagExtraView::Bool(b) => {
            assert(buf[p] == if b { 1u8 } else { 0u8 });
        },
        TagExtraView::Byte { enum_type: f } => {
            primitives::lemma_fstring_reads_back(f, before, rest);
        },
        TagExtraView::Enum { enum_type: f } => {
            primitives::lemma_fstring_reads_back(f, before, rest);
        },
        TagExtraView::Array { inner_type: f } => {
            primitives::lemma_fstring_reads_back(f, before, rest);
        },
        TagExtraView::SetOf { key_type: f } => {
            primitives::lemma_fstring_reads_back(f, before, rest);
        },
        TagExtraView::MapOf { key_type: k, value_type: v } => {
            assert(buf =~= before + k.bytes() + (v.bytes() + rest));
            primitives::lemma_fstring_reads_back(k, before, v.bytes() + rest);
            assert(buf =~= (before + k.bytes()) + v.bytes() + rest);
            primitives::lemma_fstring_reads_back(v, before + k.bytes(), rest);
        },
        TagExtraView::Struct { struct_type: f, guid } => {
            assert(buf =~= before + f.bytes() + (guid + rest));
            primitives::lemma_fstring_reads_back(f, before, guid + rest);
            let q = p + f.bytes().len();
            assert(buf.subrange(q, q + 16) =~= guid);
        },
    }
}

/// The fields of a well-formed tag written at `before.len()` read back one by one.
#[verifier::rlimit(80)]
#[verifier::spinoff_prover]
proof fn lemma_tag_fields(t: PropertyTagView, g: bool, before: Seq<u8>, rest: Seq<u8>)
    requires
        t.name.canonical(),
        t.property_type.canonical(),
        extra_fits(t.property_type, t.extra),
    ensures
        ({
            let buf = before + t.bytes(g) + rest;
            let p0 = before.len() as int;
            let n1 = p0 + t.name.bytes().len();
            let n2 = n1 + t.property_type.bytes().len();
            let x = n2 + 8 + t.extra.bytes().len();
            &&& fstring_end(buf, p0) == Some(n1)
            &&& fstring_view_at(buf, p0) == t.name
            &&& fstring_end(buf, n1) == Some(n2)
            &&& fstring_view_at(buf, n1) == t.property_type
            &&& fits(buf, n2, 8)
            &&& u32_at(buf, n2) == t.size
            &&& u32_at(buf, n2 + 4) == t.index
            &&& extra_end(buf, n2 + 8, t.property_type) == Some(x)
            &&& extra_view_at(buf, n2 + 8, t.property_type) == t.extra
            &&& buf.subrange(x, buf.len() as int) == (if g { optional_guid_bytes_view(t.guid) } else { Seq::empty() }) + rest
            &&& buf.len() == x + ((if g { optional_guid_bytes_view(t.guid) } else { Seq::empty() }) + rest).len()
        }),
{
    let buf = before + t.bytes(g) + rest;
    let nb = t.name.bytes();
    let tb = t.property_type.bytes();
    let sb = u32_bytes(t.size);
    let ib = u32_bytes(t.index);
    let eb = t.extra.bytes();
    let gb = if g { optional_guid_bytes_view(t.guid) } else { Seq::empty() };
    let p0 = before.len() as int;
    let n1 = p0 + nb.len();
    let n2 = n1 + tb.len();
    let x = n2 + 8 + eb.len();
    primitives::lemma_read_back_u32(t.size, Seq::empty(), Seq::empty());
    primitives::lemma_read_back_u32(t.index, Seq::empty(), Seq::empty());
    assert(sb.len() == 4 && ib.len() == 4) by {
        assert(Seq::<u8>::empty() + sb + Seq::<u8>::empty() =~= sb);
        assert(Seq::<u8>::empty() + ib + Seq::<u8>::empty() =~= ib);
    }
    assert(t.bytes(g) == nb + tb + sb + ib + eb + gb);
    assert(fstring_end(buf, p0) == Some(n1) && fstring_view_at(buf, p0) == t.name) by {
        assert(buf =~= before + nb + (tb + sb + ib + eb + gb + rest));
        primitives::lemma_fstring_reads_back(t.name, before, tb + sb + ib + eb + gb + rest);
    }
    assert(fstring_end(buf, n1) == Some(n2) && fstring_view_at(buf, n1) == t.property_type) by {
        assert(buf =~= (before + nb) + tb + (sb + ib + eb + gb + rest));
        primitives::lemma_fstring_reads_back(t.property_type, before + nb, sb + ib + eb + gb + rest);
    }
    assert(u32_at(buf, n2) == t.size) by {
        assert(buf =~= (before + nb + tb) + sb + (ib + eb + gb + rest));
        primitives::lemma_read_back_u32(t.size, ib + eb + gb + rest, before + nb + tb);
    }
    assert(u32_at(buf, n2 + 4) == t.index) by {
        assert(buf =~= (before + nb + tb + sb) + ib + (eb + gb + rest));
        primitives::lemma_read_back_u32(t.index, eb + gb + rest, before + nb + tb + sb);
    }
    assert(extra_end(buf, n2 + 8, t.property_type) == Some(x) && extra_view_at(buf, n2 + 8, t.property_type)
        == t.extra) by {
        assert(buf =~= (before + nb + tb + sb + ib) + eb + (gb + rest));
        lemma_extra_reads_back(t.property_type, t.extra, before + nb + tb + sb + ib, gb + rest);
    }
    assert(buf.len() == x + (gb + rest).len());
    assert(buf.subrange(x, buf.len() as int) =~= gb + rest);
}

/// Law: a well-formed tag that `write_property_tag` writes anywhere in a buffer is
/// what `read_property_tag` reads back there, and the read ends exactly where the
/// written bytes end; the read takes it for the list's "None" terminator exactly when
/// its name is "None".
pub proof fn tag_round_trip(t: PropertyTagView, has_property_guid: bool, before: Seq<u8>, rest: Seq<u8>)
    requires
        t.name.canonical(),
        t.property_type.canonical(),
        extra_fits(t.property_type, t.extra),
        t.guid matches Some(x) ==> x.len() == 16,
        !has_property_guid ==> t.guid is None,
    ensures
        tag_end(before + t.bytes(has_property_guid) + rest, before.len() as int, has_property_guid) == Some(
            (before.len() + t.bytes(has_property_guid).len()) as int,
        ),
        tag_view_at(before + t.bytes(has_property_guid) + rest, before.len() as int, has_property_guid) == t,
        is_none_marker(before + t.bytes(has_property_guid) + rest, before.len() as int) <==> names(t.name, "None"),
{
    let g = has_property_guid;
    let buf = before + t.bytes(g) + rest;
    lemma_tag_fields(t, g, before, rest);
    let p0 = before.len() as int;
    let n1 = p0 + t.name.bytes().len();
    let n2 = n1 + t.property_type.bytes().len();
    let x = n2 + 8 + t.extra.bytes().len();
    let tail = buf.subrange(x, buf.len() as int);
    assert(size_at(buf, p0) == n2);
    assert(extra_end_at(buf, p0) == x);
    if g {
        match t.guid {
            Some(id) => {
                assert(tail[0] == 1u8);
                assert(buf[x] == tail[0]);
                assert(buf.subrange(x + 1, x + 17) =~= tail.subrange(1, 17));
                assert(tail.subrange(1, 17) =~= id);
            },
            None => {
                assert(tail[0] == 0u8);
                assert(buf[x] == tail[0]);
            },
        }
    }
}

/// Law: the "None" terminator written anywhere in a buffer reads as the end of a
/// property list.
pub proof fn none_terminator_round_trip(f: FStringView, before: Seq<u8>, rest: Seq<u8>)
    requires
        f.canonical(),
        names(f, "None"),
    ensures
        is_none_marker(before + f.bytes() + rest, before.len() as int),
        fstring_end(before + f.bytes() + rest, before.len() as int) == Some((before.len() + f.bytes().len()) as int),
{
    primitives::lemma_fstring_reads_back(f, before, rest);
}

/// The list-terminating "None" marker: a plain 1-byte fstring with its NUL.
pub fn none_terminator() -> (r: FString)
    ensures
        r@ == (FStringView::Ascii { content: "None".spec_bytes(), trailing: seq![0u8] }),
{
    let content = bytes_to_vec("None".as_bytes());
    let mut trailing: Vec<u8> = Vec::new();
    trailing.push(0);
    FString::Ascii { content, trailing }
}

} // verus!
