//! Walking property lists, and decoding one property's value bytes into a
//! structured `Value`.

use vstd::prelude::*;
use vstd::string::*;
use super::PropertyEntry;
use super::error::{GvasError, eof_error};
use super::hints::{StructHint, hint_for, lookup};
use super::primitives::{
    FString, FStringView, Guid, copy_range, fits, fstring_end, fstring_view_at, read_fstring, read_guid,
    read_i32_le, read_i64_le, read_u16_le, read_u32_le, read_u64_le, read_u8, u16_at, u32_at, u64_at, i32_at,
    i64_at,
};
use super::property::{
    PropertyTag, PropertyTagView, TagExtra, TagExtraView, is_none_marker, names, read_property_tag, size_at,
    tag_end, tag_error, tag_readable, tag_view_at,
};

verus! {

/// The byte length a property tag at `p` declares for its value.
pub open spec fn declared_size(buf: Seq<u8>, p: int, has_property_guid: bool) -> int {
    tag_view_at(buf, p, has_property_guid).size as int
}

/// Where a property (tag plus value) that starts at `p` ends.
pub open spec fn property_end(buf: Seq<u8>, p: int, has_property_guid: bool) -> int {
    tag_end(buf, p, has_property_guid)->0 + declared_size(buf, p, has_property_guid)
}

/// `e` indexes a complete property of `buf`: its span covers one tag and exactly the
/// value bytes the tag declares, and its names are the tag's, for display.
pub open spec fn entry_at(buf: Seq<u8>, e: PropertyEntry, has_property_guid: bool) -> bool {
    let s = e.span.start as int;
    &&& tag_readable(buf, s, has_property_guid)
    &&& !is_none_marker(buf, s)
    &&& e.span.end == property_end(buf, s, has_property_guid)
    &&& e.span.end <= buf.len()
    &&& e.name@ == tag_view_at(buf, s, has_property_guid).name.display()
    &&& e.property_type@ == tag_view_at(buf, s, has_property_guid).property_type.display()
}

/// `props` are consecutive: the first starts at `start`, each starts where the previous
/// ended, and the last ends at `end`.
pub open spec fn contiguous(props: Seq<PropertyEntry>, start: int, end: int) -> bool {
    &&& props.len() == 0 ==> start == end
    &&& props.len() > 0 ==> props[0].span.start == start && props.last().span.end == end
    &&& forall|i: int| 0 <= i < props.len() - 1 ==> #[trigger] props[i].span.end == props[i + 1].span.start
}

/// `props` index the property list at `start` of `buf`, whose "None" terminator sits
/// at `terminator`.
pub open spec fn property_list_at(
    buf: Seq<u8>,
    props: Seq<PropertyEntry>,
    start: int,
    terminator: int,
    has_property_guid: bool,
) -> bool {
    &&& contiguous(props, start, terminator)
    &&& forall|i: int| 0 <= i < props.len() ==> entry_at(buf, #[trigger] props[i], has_property_guid)
    &&& is_none_marker(buf, terminator)
}

/// Where the None-terminated property list that starts at `p` ends (just past its
/// terminator), if the buffer holds a complete one.
pub open spec fn property_list_end(buf: Seq<u8>, p: int, has_property_guid: bool) -> Option<int>
    decreases buf.len() - p,
{
    if !tag_readable(buf, p, has_property_guid) || p < 0 {
        None
    } else if is_none_marker(buf, p) {
        fstring_end(buf, p)
    } else if property_end(buf, p, has_property_guid) > buf.len() || property_end(buf, p, has_property_guid) <= p {
        None
    } else {
        property_list_end(buf, property_end(buf, p, has_property_guid), has_property_guid)
    }
}

/// The error reading the property list at `p` gives, when it fails: the first tag
/// that does not read, or the first value that runs past the buffer's end.
pub open spec fn property_list_error(buf: Seq<u8>, p: int, has_property_guid: bool) -> GvasError
    decreases buf.len() - p,
{
    if p < 0 || !tag_readable(buf, p, has_property_guid) {
        tag_error(buf, p, has_property_guid)
    } else if is_none_marker(buf, p) || property_end(buf, p, has_property_guid) <= p {
        eof_error(0, p, buf.len() as int)
    } else if property_end(buf, p, has_property_guid) > buf.len() {
        let t = tag_end(buf, p, has_property_guid)->0;
        eof_error(tag_view_at(buf, p, has_property_guid).size as int, t, buf.len() as int)
    } else {
        property_list_error(buf, property_end(buf, p, has_property_guid), has_property_guid)
    }
}

/// Where the terminator of the property list at `p` sits.
pub open spec fn property_list_terminator(buf: Seq<u8>, p: int, has_property_guid: bool) -> int
    decreases buf.len() - p,
{
    if !tag_readable(buf, p, has_property_guid) || p < 0 || is_none_marker(buf, p)
        || property_end(buf, p, has_property_guid) > buf.len() || property_end(buf, p, has_property_guid) <= p {
        p
    } else {
        property_list_terminator(buf, property_end(buf, p, has_property_guid), has_property_guid)
    }
}

/// Walks a None-terminated property list starting at `*pos`, indexing each entry by
/// span without decoding any value. Spans are offsets into `buf`.
pub fn read_property_list(buf: &[u8], pos: &mut usize, has_property_guid: bool) -> (r: Result<
    Vec<PropertyEntry>,
    GvasError,
>)
    ensures
        property_list_end(buf@, *old(pos) as int, has_property_guid) is Some <==> r is Ok,
        match r {
            Ok(props) => {
                &&& *final(pos) == property_list_end(buf@, *old(pos) as int, has_property_guid)->0
                &&& property_list_at(
                    buf@,
                    props@,
                    *old(pos) as int,
                    property_list_terminator(buf@, *old(pos) as int, has_property_guid),
                    has_property_guid,
                )
                &&& *final(pos) == fstring_end(buf@, property_list_terminator(buf@, *old(pos) as int, has_property_guid))->0
            },
            Err(e) => e == property_list_error(buf@, *old(pos) as int, has_property_guid),
        },
{
    let ghost start = *pos as int;
    let blen = buf.len();
    let mut properties: Vec<PropertyEntry> = Vec::new();
    loop
        invariant
            buf@.len() == blen,
            start == *old(pos),
            property_list_end(buf@, start, has_property_guid) == property_list_end(buf@, *pos as int, has_property_guid),
            property_list_terminator(buf@, start, has_property_guid) == property_list_terminator(buf@, *pos as int, has_property_guid),
            property_list_error(buf@, start, has_property_guid) == property_list_error(buf@, *pos as int, has_property_guid),
            contiguous(properties@, start, *pos as int),
            forall|i: int| 0 <= i < properties@.len() ==> entry_at(buf@, #[trigger] properties@[i], has_property_guid),
        decreases blen - *pos,
    {
        let entry_start = *pos;
        let tag = match read_property_tag(buf, pos, has_property_guid) {
            Ok(Some(t)) => t,
            Ok(None) => {
                return Ok(properties);
            },
            Err(e) => {
                return Err(e);
            },
        };
        let value_len = tag.size as usize;
        if value_len > blen - *pos {
            return Err(GvasError::UnexpectedEof { need: value_len, at: *pos, have: blen - *pos });
        }
        *pos = *pos + value_len;
        let entry = PropertyEntry {
            name: tag.name.display_lossy(),
            property_type: tag.property_type.display_lossy(),
            span: entry_start..*pos,
        };
        let ghost old_props = properties@;
        properties.push(entry);
        proof {
            assert forall|i: int| 0 <= i < properties@.len() - 1 implies #[trigger] properties@[i].span.end
                == properties@[i + 1].span.start by {
                if i < old_props.len() - 1 {
                    assert(properties@[i] == old_props[i]);
                    assert(properties@[i + 1] == old_props[i + 1]);
                }
            }
        }
    }
}


// ---------------------------------------------------------------------------
// Decoded values
// ---------------------------------------------------------------------------

/// A floating-point component, as its IEEE-754 bit pattern: single precision before
/// large world coordinates (engine 5), double precision after.
#[derive(Debug, Clone, Copy, PartialEq, Eq)]
pub enum FloatBits {
    Single(u32),
    Double(u64),
}

#[derive(Debug, PartialEq, Eq)]
pub enum Value {
    Int(i32),
    UInt16(u16),
    UInt32(u32),
    Int64(i64),
    /// An f32, as its IEEE-754 bit pattern.
    Float(u32),
    Str(FString),
    Name(FString),
    Bool(bool),
    /// Byte-as-number (the tag's enum type was the literal string "None").
    Byte(u8),
    /// Byte-as-enum-label (the tag's enum type named a real enum).
    ByteLabel(FString),
    Enum(FString),
    /// ArrayProperty<ByteProperty> read as a raw blob — the wire shape of Palworld's
    /// "RawData" properties.
    Bytes(Vec<u8>),
    Array(Vec<Value>),
    MapEntries(Vec<(Value, Value)>),
    Struct(StructValue),
    /// Anything outside the closed set above, or a decode that didn't consume exactly
    /// its declared length. Original value bytes, untouched.
    Raw(Vec<u8>),
}

#[derive(Debug, Clone, PartialEq, Eq)]
pub enum StructValue {
    Guid(Guid),
    /// FDateTime ticks.
    DateTime(u64),
    Vector { x: FloatBits, y: FloatBits, z: FloatBits },
    Quat { x: FloatBits, y: FloatBits, z: FloatBits, w: FloatBits },
    /// Components as IEEE-754 f32 bit patterns.
    LinearColor { r: u32, g: u32, b: u32, a: u32 },
    /// A user-defined struct: a nested, None-terminated property list, indexed exactly
    /// like the top-level one.
    Properties(Vec<PropertyEntry>),
}

/// How a struct body of a given struct type name is laid out.
#[derive(Debug, Clone, Copy, PartialEq, Eq)]
pub enum StructKind {
    Guid,
    DateTime,
    Vector,
    Quat,
    LinearColor,
    Generic,
}

/// The value type a property type name denotes, when decoded by name alone.
#[derive(Debug, Clone, Copy, PartialEq, Eq)]
pub enum TypeKind {
    Struct,
    Bool,
    Byte,
    Enum,
    Int,
    UInt16,
    UInt32,
    Int64,
    Float,
    Str,
    Name,
    Unknown,
}

pub open spec fn struct_kind_of(struct_type: FStringView) -> StructKind {
    if names(struct_type, "Guid") {
        StructKind::Guid
    } else if names(struct_type, "DateTime") {
        StructKind::DateTime
    } else if names(struct_type, "Vector") {
        StructKind::Vector
    } else if names(struct_type, "Quat") {
        StructKind::Quat
    } else if names(struct_type, "LinearColor") {
        StructKind::LinearColor
    } else {
        StructKind::Generic
    }
}

pub open spec fn type_kind(t: FStringView) -> TypeKind {
    if names(t, "StructProperty") {
        TypeKind::Struct
    } else if names(t, "BoolProperty") {
        TypeKind::Bool
    } else if names(t, "ByteProperty") {
        TypeKind::Byte
    } else if names(t, "EnumProperty") {
        TypeKind::Enum
    } else if names(t, "IntProperty") {
        TypeKind::Int
    } else if names(t, "UInt16Property") {
        TypeKind::UInt16
    } else if names(t, "UInt32Property") {
        TypeKind::UInt32
    } else if names(t, "Int64Property") {
        TypeKind::Int64
    } else if names(t, "FloatProperty") {
        TypeKind::Float
    } else if names(t, "StrProperty") {
        TypeKind::Str
    } else if names(t, "NameProperty") {
        TypeKind::Name
    } else {
        TypeKind::Unknown
    }
}

/// A type name usable as a `&str`: the 1-byte form holding valid UTF-8.
pub open spec fn text_name(t: FStringView) -> bool {
    t matches FStringView::Ascii { content, .. } && vstd::utf8::valid_utf8(content)
}

pub open spec fn fixed_end(buf: Seq<u8>, p: int, n: int) -> Option<int> {
    if fits(buf, p, n) { Some(p + n) } else { None }
}

/// Width of one float component.
pub open spec fn float_width(lwc: bool) -> int {
    if lwc { 8 } else { 4 }
}

pub open spec fn float_at(buf: Seq<u8>, p: int, lwc: bool) -> FloatBits {
    if lwc { FloatBits::Double(u64_at(buf, p)) } else { FloatBits::Single(u32_at(buf, p)) }
}

/// Where a struct body of kind `k` starting at `p` ends.
pub open spec fn struct_end(buf: Seq<u8>, p: int, k: StructKind, lwc: bool, g: bool) -> Option<int> {
    match k {
        StructKind::Guid => fixed_end(buf, p, 16),
        StructKind::DateTime => fixed_end(buf, p, 8),
        StructKind::Vector => fixed_end(buf, p, 3 * float_width(lwc)),
        StructKind::Quat => fixed_end(buf, p, 4 * float_width(lwc)),
        StructKind::LinearColor => fixed_end(buf, p, 16),
        StructKind::Generic => property_list_end(buf, p, g),
    }
}

/// `v` is the struct body of kind `k` at `p`.
pub open spec fn struct_matches(v: StructValue, buf: Seq<u8>, p: int, k: StructKind, lwc: bool, g: bool) -> bool {
    let w = float_width(lwc);
    match k {
        StructKind::Guid => v matches StructValue::Guid(x) && x@ == buf.subrange(p, p + 16),
        StructKind::DateTime => v == StructValue::DateTime(u64_at(buf, p)),
        StructKind::Vector => v == StructValue::Vector {
            x: float_at(buf, p, lwc),
            y: float_at(buf, p + w, lwc),
            z: float_at(buf, p + 2 * w, lwc),
        },
        StructKind::Quat => v == StructValue::Quat {
            x: float_at(buf, p, lwc),
            y: float_at(buf, p + w, lwc),
            z: float_at(buf, p + 2 * w, lwc),
            w: float_at(buf, p + 3 * w, lwc),
        },
        StructKind::LinearColor => v == StructValue::LinearColor {
            r: u32_at(buf, p),
            g: u32_at(buf, p + 4),
            b: u32_at(buf, p + 8),
            a: u32_at(buf, p + 12),
        },
        StructKind::Generic => v matches StructValue::Properties(props) && property_list_at(
            buf,
            props@,
            p,
            property_list_terminator(buf, p, g),
            g,
        ),
    }
}

/// Where a value of type `t` (decoded by type name, as map keys/values and array
/// elements are) starting at `p` ends; `default` is the struct layout to assume for
/// a `StructProperty`.
pub open spec fn by_type_end(buf: Seq<u8>, p: int, t: FStringView, default: StructKind, lwc: bool, g: bool) -> Option<int> {
    match type_kind(t) {
        TypeKind::Struct => struct_end(buf, p, default, lwc, g),
        TypeKind::Bool => fixed_end(buf, p, 1),
        TypeKind::Byte => fixed_end(buf, p, 1),
        TypeKind::Enum => fstring_end(buf, p),
        TypeKind::Int => fixed_end(buf, p, 4),
        TypeKind::UInt16 => fixed_end(buf, p, 2),
        TypeKind::UInt32 => fixed_end(buf, p, 4),
        TypeKind::Int64 => fixed_end(buf, p, 8),
        TypeKind::Float => fixed_end(buf, p, 4),
        TypeKind::Str => fstring_end(buf, p),
        TypeKind::Name => fstring_end(buf, p),
        TypeKind::Unknown => None,
    }
}

/// `v` is the value of type `t` at `p`.
pub open spec fn by_type_matches(v: Value, buf: Seq<u8>, p: int, t: FStringView, default: StructKind, lwc: bool, g: bool) -> bool {
    match type_kind(t) {
        TypeKind::Struct => v matches Value::Struct(sv) && struct_matches(sv, buf, p, default, lwc, g),
        TypeKind::Bool => v == Value::Bool(buf[p] > 0),
        TypeKind::Byte => v == Value::Byte(buf[p]),
        TypeKind::Enum => v matches Value::Enum(s) && s@ == fstring_view_at(buf, p),
        TypeKind::Int => v == Value::Int(i32_at(buf, p)),
        TypeKind::UInt16 => v == Value::UInt16(u16_at(buf, p)),
        TypeKind::UInt32 => v == Value::UInt32(u32_at(buf, p)),
        TypeKind::Int64 => v == Value::Int64(i64_at(buf, p)),
        TypeKind::Float => v == Value::Float(u32_at(buf, p)),
        TypeKind::Str => v matches Value::Str(s) && s@ == fstring_view_at(buf, p),
        TypeKind::Name => v matches Value::Name(s) && s@ == fstring_view_at(buf, p),
        TypeKind::Unknown => false,
    }
}

/// Where `n` consecutive values of type `t` starting at `p` end.
pub open spec fn elements_end(buf: Seq<u8>, p: int, n: nat, t: FStringView, default: StructKind, lwc: bool, g: bool) -> Option<int>
    decreases n,
{
    if n == 0 {
        Some(p)
    } else {
        match elements_end(buf, p, (n - 1) as nat, t, default, lwc, g) {
            Some(q) => by_type_end(buf, q, t, default, lwc, g),
            None => None,
        }
    }
}

/// Where `n` consecutive struct bodies of kind `k` starting at `p` end.
pub open spec fn struct_elements_end(buf: Seq<u8>, p: int, n: nat, k: StructKind, lwc: bool, g: bool) -> Option<int>
    decreases n,
{
    if n == 0 {
        Some(p)
    } else {
        match struct_elements_end(buf, p, (n - 1) as nat, k, lwc, g) {
            Some(q) => struct_end(buf, q, k, lwc, g),
            None => None,
        }
    }
}

/// Where `n` consecutive map entries (key of type `kt`, then value of type `vt`)
/// starting at `p` end.
pub open spec fn entries_end(
    buf: Seq<u8>,
    p: int,
    n: nat,
    kt: FStringView,
    kd: StructKind,
    vt: FStringView,
    vd: StructKind,
    lwc: bool,
    g: bool,
) -> Option<int>
    decreases n,
{
    if n == 0 {
        Some(p)
    } else {
        match entries_end(buf, p, (n - 1) as nat, kt, kd, vt, vd, lwc, g) {
            Some(q) => match by_type_end(buf, q, kt, kd, lwc, g) {
                Some(r) => by_type_end(buf, r, vt, vd, lwc, g),
                None => None,
            },
            None => None,
        }
    }
}

/// The struct layout an array of structs declares in its inner tag at `p`.
pub open spec fn inner_struct_kind(buf: Seq<u8>, p: int, g: bool) -> StructKind {
    match tag_view_at(buf, p, g).extra {
        TagExtraView::Struct { struct_type, .. } => struct_kind_of(struct_type),
        _ => StructKind::Generic,
    }
}

/// The inner tag of an array of structs at `p` is readable and declares a struct.
pub open spec fn inner_struct_tag_ok(buf: Seq<u8>, p: int, g: bool) -> bool {
    &&& tag_readable(buf, p, g)
    &&& !is_none_marker(buf, p)
    &&& tag_view_at(buf, p, g).extra is Struct
}

/// Where an array body of `count` elements of type `inner` starting at `p` ends.
pub open spec fn array_end(buf: Seq<u8>, p: int, inner: FStringView, count: nat, lwc: bool, g: bool) -> Option<int> {
    if names(inner, "ByteProperty") {
        fixed_end(buf, p, count as int)
    } else if names(inner, "StructProperty") {
        if inner_struct_tag_ok(buf, p, g) {
            struct_elements_end(buf, tag_end(buf, p, g)->0, count, inner_struct_kind(buf, p, g), lwc, g)
        } else {
            None
        }
    } else if text_name(inner) {
        elements_end(buf, p, count, inner, StructKind::Generic, lwc, g)
    } else {
        None
    }
}

/// `v` is the array body at `p`.
pub open spec fn array_matches(v: Value, buf: Seq<u8>, p: int, inner: FStringView, count: nat, lwc: bool, g: bool) -> bool {
    if names(inner, "ByteProperty") {
        v matches Value::Bytes(b) && b@ == buf.subrange(p, p + count)
    } else if names(inner, "StructProperty") {
        let q = tag_end(buf, p, g)->0;
        let k = inner_struct_kind(buf, p, g);
        v matches Value::Array(items) && items@.len() == count && forall|i: int|
            0 <= i < count ==> (#[trigger] items@[i] matches Value::Struct(sv) && struct_matches(
                sv,
                buf,
                struct_elements_end(buf, q, i as nat, k, lwc, g)->0,
                k,
                lwc,
                g,
            ))
    } else {
        v matches Value::Array(items) && items@.len() == count && forall|i: int|
            0 <= i < count ==> by_type_matches(
                #[trigger] items@[i],
                buf,
                elements_end(buf, p, i as nat, inner, StructKind::Generic, lwc, g)->0,
                inner,
                StructKind::Generic,
                lwc,
                g,
            )
    }
}

/// The struct layouts assumed for a map's keys and values, from the hint table.
pub open spec fn map_defaults(path: Seq<char>) -> (StructKind, StructKind) {
    let kh = hint_for(vstd::utf8::encode_utf8(path + ".Key"@));
    let vh = hint_for(vstd::utf8::encode_utf8(path + ".Value"@));
    (
        if kh == Some(StructHint::Generic) { StructKind::Generic } else { StructKind::Guid },
        if vh == Some(StructHint::Guid) { StructKind::Guid } else { StructKind::Generic },
    )
}

/// Where the removed-key list of a map value starting at `p` ends.
pub open spec fn map_removed_end(buf: Seq<u8>, p: int, kt: FStringView, kd: StructKind, lwc: bool, g: bool) -> Option<int> {
    if !fits(buf, p, 4) {
        None
    } else {
        elements_end(buf, p + 4, u32_at(buf, p) as nat, kt, kd, lwc, g)
    }
}

/// Where a map value starting at `p` ends.
pub open spec fn map_end(
    buf: Seq<u8>,
    p: int,
    kt: FStringView,
    vt: FStringView,
    path: Seq<char>,
    lwc: bool,
    g: bool,
) -> Option<int> {
    let (kd, vd) = map_defaults(path);
    match map_removed_end(buf, p, kt, kd, lwc, g) {
        None => None,
        Some(q) => if !fits(buf, q, 4) {
            None
        } else {
            entries_end(buf, q + 4, u32_at(buf, q) as nat, kt, kd, vt, vd, lwc, g)
        },
    }
}

/// `v` is the map value at `p`.
pub open spec fn map_matches(
    v: Value,
    buf: Seq<u8>,
    p: int,
    kt: FStringView,
    vt: FStringView,
    path: Seq<char>,
    lwc: bool,
    g: bool,
) -> bool {
    let (kd, vd) = map_defaults(path);
    let q = map_removed_end(buf, p, kt, kd, lwc, g)->0;
    let n = u32_at(buf, q) as nat;
    v matches Value::MapEntries(entries) && entries@.len() == n && forall|i: int|
        0 <= i < n ==> {
            let e = entries_end(buf, q + 4, i as nat, kt, kd, vt, vd, lwc, g)->0;
            &&& by_type_matches((#[trigger] entries@[i]).0, buf, e, kt, kd, lwc, g)
            &&& by_type_matches(entries@[i].1, buf, by_type_end(buf, e, kt, kd, lwc, g)->0, vt, vd, lwc, g)
        }
}

/// A tag without extra data whose type decodes by name.
pub open spec fn plain_scalar(t: FStringView) -> bool {
    match type_kind(t) {
        TypeKind::Int | TypeKind::UInt16 | TypeKind::UInt32 | TypeKind::Int64 | TypeKind::Float | TypeKind::Str
        | TypeKind::Name => true,
        _ => false,
    }
}

/// Where the value described by `tag` starting at `p` ends, when it decodes.
pub open spec fn tag_value_end(buf: Seq<u8>, p: int, tag: PropertyTagView, path: Seq<char>, lwc: bool, g: bool) -> Option<int> {
    match tag.extra {
        TagExtraView::Bool(_) => Some(p),
        TagExtraView::Byte { enum_type } => if names(enum_type, "None") {
            fixed_end(buf, p, 1)
        } else {
            fstring_end(buf, p)
        },
        TagExtraView::Enum { .. } => fstring_end(buf, p),
        TagExtraView::Struct { struct_type, .. } => struct_end(buf, p, struct_kind_of(struct_type), lwc, g),
        TagExtraView::Array { inner_type } => if fits(buf, p, 4) {
            array_end(buf, p + 4, inner_type, u32_at(buf, p) as nat, lwc, g)
        } else {
            None
        },
        TagExtraView::MapOf { key_type, value_type } => map_end(buf, p, key_type, value_type, path, lwc, g),
        TagExtraView::SetOf { .. } => None,
        TagExtraView::NoExtra => if plain_scalar(tag.property_type) {
            by_type_end(buf, p, tag.property_type, StructKind::Generic, lwc, g)
        } else {
            None
        },
    }
}

/// `v` is the value described by `tag` at `p`.
pub open spec fn tag_value_matches(v: Value, buf: Seq<u8>, p: int, tag: PropertyTagView, path: Seq<char>, lwc: bool, g: bool) -> bool {
    match tag.extra {
        TagExtraView::Bool(b) => v == Value::Bool(b),
        TagExtraView::Byte { enum_type } => if names(enum_type, "None") {
            v == Value::Byte(buf[p])
        } else {
            v matches Value::ByteLabel(s) && s@ == fstring_view_at(buf, p)
        },
        TagExtraView::Enum { .. } => v matches Value::Enum(s) && s@ == fstring_view_at(buf, p),
        TagExtraView::Struct { struct_type, .. } => v matches Value::Struct(sv) && struct_matches(
            sv,
            buf,
            p,
            struct_kind_of(struct_type),
            lwc,
            g,
        ),
        TagExtraView::Array { inner_type } => array_matches(v, buf, p + 4, inner_type, u32_at(buf, p) as nat, lwc, g),
        TagExtraView::MapOf { key_type, value_type } => map_matches(v, buf, p, key_type, value_type, path, lwc, g),
        TagExtraView::SetOf { .. } => false,
        TagExtraView::NoExtra => by_type_matches(v, buf, p, tag.property_type, StructKind::Generic, lwc, g),
    }
}

/// `v` is what materializing the value `[start, end)` described by `tag` gives: the
/// decoded value when decoding lands exactly on `end`, otherwise the raw bytes.
pub open spec fn materialized(v: Value, buf: Seq<u8>, start: int, end: int, tag: PropertyTagView, path: Seq<char>, lwc: bool, g: bool) -> bool {
    if tag_value_end(buf, start, tag, path, lwc, g) == Some(end) {
        tag_value_matches(v, buf, start, tag, path, lwc, g)
    } else {
        v matches Value::Raw(b) && b@ == buf.subrange(start, end)
    }
}

/// Engine 5 and later store vectors and quaternions as doubles.
pub open spec fn large_world_coordinates(engine_major: u16) -> bool {
    engine_major >= 5
}


// ---------------------------------------------------------------------------
// Decoding
// ---------------------------------------------------------------------------

proof fn lemma_elements_none(buf: Seq<u8>, p: int, m: nat, n: nat, t: FStringView, d: StructKind, lwc: bool, g: bool)
    requires
        m <= n,
        elements_end(buf, p, m, t, d, lwc, g) is None,
    ensures
        elements_end(buf, p, n, t, d, lwc, g) is None,
    decreases n - m,
{
    if m < n {
        lemma_elements_none(buf, p, m + 1, n, t, d, lwc, g);
    }
}

proof fn lemma_struct_elements_none(buf: Seq<u8>, p: int, m: nat, n: nat, k: StructKind, lwc: bool, g: bool)
    requires
        m <= n,
        struct_elements_end(buf, p, m, k, lwc, g) is None,
    ensures
        struct_elements_end(buf, p, n, k, lwc, g) is None,
    decreases n - m,
{
    if m < n {
        lemma_struct_elements_none(buf, p, m + 1, n, k, lwc, g);
    }
}

proof fn lemma_entries_none(
    buf: Seq<u8>,
    p: int,
    m: nat,
    n: nat,
    kt: FStringView,
    kd: StructKind,
    vt: FStringView,
    vd: StructKind,
    lwc: bool,
    g: bool,
)
    requires
        m <= n,
        entries_end(buf, p, m, kt, kd, vt, vd, lwc, g) is None,
    ensures
        entries_end(buf, p, n, kt, kd, vt, vd, lwc, g) is None,
    decreases n - m,
{
    if m < n {
        lemma_entries_none(buf, p, m + 1, n, kt, kd, vt, vd, lwc, g);
    }
}

/// A property list that parses ends inside the buffer, after it starts.
pub proof fn lemma_property_list_end_bounds(buf: Seq<u8>, p: int, g: bool)
    requires
        property_list_end(buf, p, g) is Some,
    ensures
        p <= property_list_end(buf, p, g)->0 <= buf.len(),
    decreases buf.len() - p,
{
    if !is_none_marker(buf, p) {
        lemma_property_list_end_bounds(buf, property_end(buf, p, g), g);
    }
}

/// A value decoded by type name ends inside the buffer, after it starts.
pub proof fn lemma_by_type_end_forward(buf: Seq<u8>, p: int, t: FStringView, d: StructKind, lwc: bool, g: bool)
    requires
        by_type_end(buf, p, t, d, lwc, g) is Some,
    ensures
        p <= by_type_end(buf, p, t, d, lwc, g)->0 <= buf.len(),
{
    if type_kind(t) == TypeKind::Struct && d == StructKind::Generic {
        lemma_property_list_end_bounds(buf, p, g);
    }
}

fn struct_kind(t: &FString) -> (k: StructKind)
    ensures
        k == struct_kind_of(t@),
{
    if t.is_ascii_text("Guid") {
        StructKind::Guid
    } else if t.is_ascii_text("DateTime") {
        StructKind::DateTime
    } else if t.is_ascii_text("Vector") {
        StructKind::Vector
    } else if t.is_ascii_text("Quat") {
        StructKind::Quat
    } else if t.is_ascii_text("LinearColor") {
        StructKind::LinearColor
    } else {
        StructKind::Generic
    }
}

fn kind_of(t: &FString) -> (k: TypeKind)
    ensures
        k == type_kind(t@),
{
    if t.is_ascii_text("StructProperty") {
        TypeKind::Struct
    } else if t.is_ascii_text("BoolProperty") {
        TypeKind::Bool
    } else if t.is_ascii_text("ByteProperty") {
        TypeKind::Byte
    } else if t.is_ascii_text("EnumProperty") {
        TypeKind::Enum
    } else if t.is_ascii_text("IntProperty") {
        TypeKind::Int
    } else if t.is_ascii_text("UInt16Property") {
        TypeKind::UInt16
    } else if t.is_ascii_text("UInt32Property") {
        TypeKind::UInt32
    } else if t.is_ascii_text("Int64Property") {
        TypeKind::Int64
    } else if t.is_ascii_text("FloatProperty") {
        TypeKind::Float
    } else if t.is_ascii_text("StrProperty") {
        TypeKind::Str
    } else if t.is_ascii_text("NameProperty") {
        TypeKind::Name
    } else {
        TypeKind::Unknown
    }
}

fn read_float(buf: &[u8], pos: &mut usize, lwc: bool) -> (r: Result<FloatBits, GvasError>)
    ensures
        fits(buf@, *old(pos) as int, float_width(lwc)) <==> r is Ok,
        r matches Ok(f) ==> f == float_at(buf@, *old(pos) as int, lwc) && *final(pos) == *old(pos) + float_width(lwc),
        r is Err ==> *final(pos) == *old(pos),
{
    if lwc {
        Ok(FloatBits::Double(read_u64_le(buf, pos)?))
    } else {
        Ok(FloatBits::Single(read_u32_le(buf, pos)?))
    }
}

fn read_struct_body(buf: &[u8], pos: &mut usize, k: StructKind, lwc: bool, g: bool) -> (r: Result<StructValue, GvasError>)
    ensures
        struct_end(buf@, *old(pos) as int, k, lwc, g) is Some <==> r is Ok,
        r matches Ok(v) ==> *final(pos) == struct_end(buf@, *old(pos) as int, k, lwc, g)->0 && struct_matches(
            v,
            buf@,
            *old(pos) as int,
            k,
            lwc,
            g,
        ),
{
    match k {
        StructKind::Guid => Ok(StructValue::Guid(read_guid(buf, pos)?)),
        StructKind::DateTime => Ok(StructValue::DateTime(read_u64_le(buf, pos)?)),
        StructKind::Vector => {
            let x = read_float(buf, pos, lwc)?;
            let y = read_float(buf, pos, lwc)?;
            let z = read_float(buf, pos, lwc)?;
            Ok(StructValue::Vector { x, y, z })
        },
        StructKind::Quat => {
            let x = read_float(buf, pos, lwc)?;
            let y = read_float(buf, pos, lwc)?;
            let z = read_float(buf, pos, lwc)?;
            let w = read_float(buf, pos, lwc)?;
            Ok(StructValue::Quat { x, y, z, w })
        },
        StructKind::LinearColor => {
            let r = read_u32_le(buf, pos)?;
            let g2 = read_u32_le(buf, pos)?;
            let b = read_u32_le(buf, pos)?;
            let a = read_u32_le(buf, pos)?;
            Ok(StructValue::LinearColor { r, g: g2, b, a })
        },
        StructKind::Generic => Ok(StructValue::Properties(read_property_list(buf, pos, g)?)),
    }
}

/// The text of a type name when it is the 1-byte form holding valid UTF-8.
pub open spec fn type_name_text(t: FStringView) -> Option<Seq<u8>> {
    match t {
        FStringView::Ascii { content, .. } => if vstd::utf8::valid_utf8(content) {
            Some(content)
        } else {
            None
        },
        _ => None,
    }
}

fn unknown_type(t: &FString, at: usize) -> (e: GvasError)
    ensures
        e matches GvasError::UnknownPropertyType { name, at: a } && a == at && match type_name_text(t@) {
            Some(b) => vstd::utf8::encode_utf8(name@) == b,
            None => name@ == "<non-ascii>"@,
        },
{
    let name = match t.ascii_str() {
        Some(s) => String::from_str(s),
        None => String::from_str("<non-ascii>"),
    };
    GvasError::UnknownPropertyType { name, at }
}

/// Decodes a value given only its property type name, as map keys and values and
/// array elements are; `default` is the struct layout to assume for a struct.
fn read_value_by_type(buf: &[u8], pos: &mut usize, t: &FString, default: StructKind, lwc: bool, g: bool) -> (r: Result<
    Value,
    GvasError,
>)
    ensures
        by_type_end(buf@, *old(pos) as int, t@, default, lwc, g) is Some <==> r is Ok,
        r matches Ok(v) ==> *final(pos) == by_type_end(buf@, *old(pos) as int, t@, default, lwc, g)->0
            && by_type_matches(v, buf@, *old(pos) as int, t@, default, lwc, g),
{
    if t.is_ascii_text("StructProperty") {
        Ok(Value::Struct(read_struct_body(buf, pos, default, lwc, g)?))
    } else if t.is_ascii_text("BoolProperty") {
        let b = read_u8(buf, pos)?;
        Ok(Value::Bool(b > 0))
    } else if t.is_ascii_text("ByteProperty") {
        Ok(Value::Byte(read_u8(buf, pos)?))
    } else if t.is_ascii_text("EnumProperty") {
        Ok(Value::Enum(read_fstring(buf, pos)?))
    } else if t.is_ascii_text("IntProperty") {
        Ok(Value::Int(read_i32_le(buf, pos)?))
    } else if t.is_ascii_text("UInt16Property") {
        Ok(Value::UInt16(read_u16_le(buf, pos)?))
    } else if t.is_ascii_text("UInt32Property") {
        Ok(Value::UInt32(read_u32_le(buf, pos)?))
    } else if t.is_ascii_text("Int64Property") {
        Ok(Value::Int64(read_i64_le(buf, pos)?))
    } else if t.is_ascii_text("FloatProperty") {
        Ok(Value::Float(read_u32_le(buf, pos)?))
    } else if t.is_ascii_text("StrProperty") {
        Ok(Value::Str(read_fstring(buf, pos)?))
    } else if t.is_ascii_text("NameProperty") {
        Ok(Value::Name(read_fstring(buf, pos)?))
    } else {
        Err(unknown_type(t, *pos))
    }
}

fn read_elements(buf: &[u8], pos: &mut usize, count: u32, t: &FString, default: StructKind, lwc: bool, g: bool) -> (r: Result<
    Vec<Value>,
    GvasError,
>)
    ensures
        elements_end(buf@, *old(pos) as int, count as nat, t@, default, lwc, g) is Some <==> r is Ok,
        r matches Ok(items) ==> {
            &&& *final(pos) == elements_end(buf@, *old(pos) as int, count as nat, t@, default, lwc, g)->0
            &&& items@.len() == count
            &&& forall|i: int|
                0 <= i < count ==> by_type_matches(
                    #[trigger] items@[i],
                    buf@,
                    elements_end(buf@, *old(pos) as int, i as nat, t@, default, lwc, g)->0,
                    t@,
                    default,
                    lwc,
                    g,
                )
        },
{
    let ghost p = *pos as int;
    let mut items: Vec<Value> = Vec::new();
    let mut i: u32 = 0;
    while i < count
        invariant
            i <= count,
            p == *old(pos),
            elements_end(buf@, p, i as nat, t@, default, lwc, g) == Some(*pos as int),
            items@.len() == i,
            forall|j: int|
                0 <= j < i ==> by_type_matches(
                    #[trigger] items@[j],
                    buf@,
                    elements_end(buf@, p, j as nat, t@, default, lwc, g)->0,
                    t@,
                    default,
                    lwc,
                    g,
                ),
        decreases count - i,
    {
        let v = match read_value_by_type(buf, pos, t, default, lwc, g) {
            Ok(v) => v,
            Err(e) => {
                proof {
                    lemma_elements_none(buf@, p, (i + 1) as nat, count as nat, t@, default, lwc, g);
                }
                return Err(e);
            },
        };
        items.push(v);
        i = i + 1;
    }
    Ok(items)
}

fn read_struct_elements(buf: &[u8], pos: &mut usize, count: u32, k: StructKind, lwc: bool, g: bool) -> (r: Result<
    Vec<Value>,
    GvasError,
>)
    ensures
        struct_elements_end(buf@, *old(pos) as int, count as nat, k, lwc, g) is Some <==> r is Ok,
        r matches Ok(items) ==> {
            &&& *final(pos) == struct_elements_end(buf@, *old(pos) as int, count as nat, k, lwc, g)->0
            &&& items@.len() == count
            &&& forall|i: int|
                0 <= i < count ==> (#[trigger] items@[i] matches Value::Struct(sv) && struct_matches(
                    sv,
                    buf@,
                    struct_elements_end(buf@, *old(pos) as int, i as nat, k, lwc, g)->0,
                    k,
                    lwc,
                    g,
                ))
        },
{
    let ghost p = *pos as int;
    let mut items: Vec<Value> = Vec::new();
    let mut i: u32 = 0;
    while i < count
        invariant
            i <= count,
            p == *old(pos),
            struct_elements_end(buf@, p, i as nat, k, lwc, g) == Some(*pos as int),
            items@.len() == i,
            forall|j: int|
                0 <= j < i ==> (#[trigger] items@[j] matches Value::Struct(sv) && struct_matches(
                    sv,
                    buf@,
                    struct_elements_end(buf@, p, j as nat, k, lwc, g)->0,
                    k,
                    lwc,
                    g,
                )),
        decreases count - i,
    {
        let v = match read_struct_body(buf, pos, k, lwc, g) {
            Ok(v) => v,
            Err(e) => {
                proof {
                    lemma_struct_elements_none(buf@, p, (i + 1) as nat, count as nat, k, lwc, g);
                }
                return Err(e);
            },
        };
        items.push(Value::Struct(v));
        i = i + 1;
    }
    Ok(items)
}

/// Array value body, called with `*pos` already past the 4-byte element count.
fn read_array_body(buf: &[u8], pos: &mut usize, inner_type: &FString, count: u32, lwc: bool, g: bool) -> (r: Result<
    Value,
    GvasError,
>)
    ensures
        array_end(buf@, *old(pos) as int, inner_type@, count as nat, lwc, g) is Some <==> r is Ok,
        r matches Ok(v) ==> *final(pos) == array_end(buf@, *old(pos) as int, inner_type@, count as nat, lwc, g)->0
            && array_matches(v, buf@, *old(pos) as int, inner_type@, count as nat, lwc, g),
{
    let ghost p = *pos as int;
    if inner_type.is_ascii_text("ByteProperty") {
        // The common case: TArray<uint8> ("RawData"), read as a blob.
        let n = count as usize;
        if *pos > buf.len() || n > buf.len() - *pos {
            return Err(GvasError::UnexpectedEof {
                need: n,
                at: *pos,
                have: if *pos <= buf.len() { buf.len() - *pos } else { 0 },
            });
        }
        let bytes = copy_range(buf, *pos, *pos + n);
        *pos = *pos + n;
        Ok(Value::Bytes(bytes))
    } else if inner_type.is_ascii_text("StructProperty") {
        // One nested tag gives the element struct type; it is present even when the
        // count is zero, and its bytes must be consumed either way.
        let tag_start = *pos;
        let inner_tag = match read_property_tag(buf, pos, g)? {
            Some(t) => t,
            None => {
                return Err(GvasError::UnknownPropertyType { name: String::from_str("None"), at: *pos });
            },
        };
        let k = match &inner_tag.extra {
            TagExtra::Struct { struct_type, .. } => struct_kind(struct_type),
            _ => {
                return Err(GvasError::UnknownPropertyType {
                    name: String::from_str("expected nested StructProperty tag in struct array"),
                    at: *pos,
                });
            },
        };
        let items = read_struct_elements(buf, pos, count, k, lwc, g)?;
        Ok(Value::Array(items))
    } else {
        match inner_type.ascii_str() {
            Some(_) => {
                let items = read_elements(buf, pos, count, inner_type, StructKind::Generic, lwc, g)?;
                Ok(Value::Array(items))
            },
            None => Err(GvasError::UnknownPropertyType {
                name: String::from_str("<non-ascii array inner type>"),
                at: *pos,
            }),
        }
    }
}

/// `path` with `suffix` appended.
fn suffixed(path: &str, suffix: &str) -> (s: String)
    ensures
        s@ == path@ + suffix@,
{
    let mut s = String::from_str(path);
    s.append(suffix);
    s
}

/// Struct-typed map keys and values carry no struct-type name on the wire, so the
/// type is looked up by path; without a hint, keys are Guids and values generic.
fn map_struct_defaults(path: &str) -> (r: (StructKind, StructKind))
    ensures
        r == map_defaults(path@),
{
    let key_path = suffixed(path, ".Key");
    let value_path = suffixed(path, ".Value");
    let key_default = match lookup(key_path.as_str()) {
        Some(StructHint::Generic) => StructKind::Generic,
        _ => StructKind::Guid,
    };
    let value_default = match lookup(value_path.as_str()) {
        Some(StructHint::Guid) => StructKind::Guid,
        _ => StructKind::Generic,
    };
    (key_default, value_default)
}

fn read_map_entries(
    buf: &[u8],
    pos: &mut usize,
    count: u32,
    key_type: &FString,
    kd: StructKind,
    value_type: &FString,
    vd: StructKind,
    lwc: bool,
    g: bool,
) -> (r: Result<Vec<(Value, Value)>, GvasError>)
    ensures
        entries_end(buf@, *old(pos) as int, count as nat, key_type@, kd, value_type@, vd, lwc, g) is Some <==> r is Ok,
        r matches Ok(entries) ==> {
            &&& *final(pos) == entries_end(buf@, *old(pos) as int, count as nat, key_type@, kd, value_type@, vd, lwc, g)->0
            &&& entries@.len() == count
            &&& forall|j: int|
                0 <= j < count ==> {
                    let e = entries_end(buf@, *old(pos) as int, j as nat, key_type@, kd, value_type@, vd, lwc, g)->0;
                    &&& by_type_matches((#[trigger] entries@[j]).0, buf@, e, key_type@, kd, lwc, g)
                    &&& by_type_matches(
                        entries@[j].1,
                        buf@,
                        by_type_end(buf@, e, key_type@, kd, lwc, g)->0,
                        value_type@,
                        vd,
                        lwc,
                        g,
                    )
                }
        },
{
    let ghost s = *pos as int;
    let mut entries: Vec<(Value, Value)> = Vec::new();
    let mut i: u32 = 0;
    while i < count
        invariant
            i <= count,
            s == *old(pos),
            entries_end(buf@, s, i as nat, key_type@, kd, value_type@, vd, lwc, g) == Some(*pos as int),
            entries@.len() == i,
            forall|j: int|
                0 <= j < i ==> {
                    let e = entries_end(buf@, s, j as nat, key_type@, kd, value_type@, vd, lwc, g)->0;
                    &&& by_type_matches((#[trigger] entries@[j]).0, buf@, e, key_type@, kd, lwc, g)
                    &&& by_type_matches(
                        entries@[j].1,
                        buf@,
                        by_type_end(buf@, e, key_type@, kd, lwc, g)->0,
                        value_type@,
                        vd,
                        lwc,
                        g,
                    )
                },
        decreases count - i,
    {
        let k = match read_value_by_type(buf, pos, key_type, kd, lwc, g) {
            Ok(k) => k,
            Err(e) => {
                proof {
                    lemma_entries_none(buf@, s, (i + 1) as nat, count as nat, key_type@, kd, value_type@, vd, lwc, g);
                }
                return Err(e);
            },
        };
        let v = match read_value_by_type(buf, pos, value_type, vd, lwc, g) {
            Ok(v) => v,
            Err(e) => {
                proof {
                    lemma_entries_none(buf@, s, (i + 1) as nat, count as nat, key_type@, kd, value_type@, vd, lwc, g);
                }
                return Err(e);
            },
        };
        entries.push((k, v));
        i = i + 1;
    }
    Ok(entries)
}

fn read_map_body(buf: &[u8], pos: &mut usize, key_type: &FString, value_type: &FString, path: &str, lwc: bool, g: bool) -> (r: Result<
    Value,
    GvasError,
>)
    ensures
        map_end(buf@, *old(pos) as int, key_type@, value_type@, path@, lwc, g) is Some <==> r is Ok,
        r matches Ok(v) ==> *final(pos) == map_end(buf@, *old(pos) as int, key_type@, value_type@, path@, lwc, g)->0
            && map_matches(v, buf@, *old(pos) as int, key_type@, value_type@, path@, lwc, g),
{
    let ghost p = *pos as int;
    let (kd, vd) = map_struct_defaults(path);
    let removed_count = read_u32_le(buf, pos)?;
    read_elements(buf, pos, removed_count, key_type, kd, lwc, g)?;
    let ghost q = *pos as int;
    let entry_count = read_u32_le(buf, pos)?;
    let entries = read_map_entries(buf, pos, entry_count, key_type, kd, value_type, vd, lwc, g)?;
    Ok(Value::MapEntries(entries))
}

fn try_materialize_value(buf: &[u8], pos: &mut usize, tag: &PropertyTag, lwc: bool, g: bool, path: &str) -> (r: Result<
    Value,
    GvasError,
>)
    ensures
        tag_value_end(buf@, *old(pos) as int, tag@, path@, lwc, g) is Some <==> r is Ok,
        r matches Ok(v) ==> *final(pos) == tag_value_end(buf@, *old(pos) as int, tag@, path@, lwc, g)->0
            && tag_value_matches(v, buf@, *old(pos) as int, tag@, path@, lwc, g),
{
    match &tag.extra {
        TagExtra::Bool(b) => Ok(Value::Bool(*b)),
        TagExtra::Byte { enum_type } => {
            if enum_type.is_ascii_text("None") {
                Ok(Value::Byte(read_u8(buf, pos)?))
            } else {
                Ok(Value::ByteLabel(read_fstring(buf, pos)?))
            }
        },
        TagExtra::Enum { .. } => Ok(Value::Enum(read_fstring(buf, pos)?)),
        TagExtra::Struct { struct_type, .. } => {
            let k = struct_kind(struct_type);
            Ok(Value::Struct(read_struct_body(buf, pos, k, lwc, g)?))
        },
        TagExtra::Array { inner_type } => {
            let count = read_u32_le(buf, pos)?;
            read_array_body(buf, pos, inner_type, count, lwc, g)
        },
        TagExtra::MapOf { key_type, value_type } => read_map_body(buf, pos, key_type, value_type, path, lwc, g),
        // Sets are outside the supported type set; they fall back to opaque bytes.
        TagExtra::SetOf { .. } => Err(GvasError::UnknownPropertyType { name: String::from_str("SetProperty"), at: *pos }),
        TagExtra::NoExtra => {
            let t = &tag.property_type;
            match kind_of(t) {
                TypeKind::Int | TypeKind::UInt16 | TypeKind::UInt32 | TypeKind::Int64 | TypeKind::Float
                | TypeKind::Str | TypeKind::Name => read_value_by_type(buf, pos, t, StructKind::Generic, lwc, g),
                _ => Err(unknown_type(t, *pos)),
            }
        },
    }
}

fn materialize_value(
    buf: &[u8],
    pos: &mut usize,
    tag: &PropertyTag,
    value_end: usize,
    lwc: bool,
    g: bool,
    path: &str,
) -> (v: Value)
    requires
        *old(pos) <= value_end <= buf@.len(),
    ensures
        materialized(v, buf@, *old(pos) as int, value_end as int, tag@, path@, lwc, g),
{
    let start = *pos;
    let attempt = try_materialize_value(buf, pos, tag, lwc, g, path);
    match attempt {
        Ok(value) => {
            if *pos == value_end {
                return value;
            }
        },
        Err(_) => {},
    }
    // A decode error, or a decode that did not consume exactly the declared length:
    // our reading of this value's layout is wrong here, so keep its bytes opaque.
    Value::Raw(copy_range(buf, start, value_end))
}

/// `entry` indexes a property whose tag reads and whose span ends inside `buf` at or
/// after the tag's end.
pub open spec fn entry_readable(buf: Seq<u8>, entry: PropertyEntry, g: bool) -> bool {
    &&& tag_readable(buf, entry.span.start as int, g)
    &&& !is_none_marker(buf, entry.span.start as int)
    &&& tag_end(buf, entry.span.start as int, g)->0 <= entry.span.end <= buf.len()
}

/// Re-parses `entry`'s tag from `source` and decodes its value. `source` must be the
/// buffer the entry's span was computed against. `path` is the property's dotted path
/// from the save root, used only to look up map key/value struct-type hints.
pub fn materialize_property(
    source: &[u8],
    entry: &PropertyEntry,
    engine_major: u16,
    has_property_guid: bool,
    path: &str,
) -> (r: Result<Value, GvasError>)
    requires
        entry_readable(source@, *entry, has_property_guid),
    ensures
        r matches Ok(v) && materialized(
            v,
            source@,
            tag_end(source@, entry.span.start as int, has_property_guid)->0,
            entry.span.end as int,
            tag_view_at(source@, entry.span.start as int, has_property_guid),
            path@,
            large_world_coordinates(engine_major),
            has_property_guid,
        ),
{
    let mut pos = entry.span.start;
    let tag = match read_property_tag(source, &mut pos, has_property_guid) {
        Ok(Some(t)) => t,
        _ => {
            proof {
                assert(false);
            }
            return Err(GvasError::UnexpectedEof { need: 0, at: pos, have: 0 });
        },
    };
    let lwc = engine_major >= 5;
    Ok(materialize_value(source, &mut pos, &tag, entry.span.end, lwc, has_property_guid, path))
}


// ---------------------------------------------------------------------------
// Typed accessors
// ---------------------------------------------------------------------------

/// Typed accessors. Every one returns `Option` and never panics: a caller reading a
/// game field it expected to be an `i32` should degrade to "unknown" rather than fail.
impl Value {
    pub fn as_i32(&self) -> (r: Option<i32>)
        ensures
            r == (match self {
                Value::Int(v) => Some(*v),
                _ => None,
            }),
    {
        match self {
            Value::Int(v) => Some(*v),
            _ => None,
        }
    }

    /// Any integer-ish scalar widened to `i64`.
    pub fn as_integer(&self) -> (r: Option<i64>)
        ensures
            r == (match self {
                Value::Byte(v) => Some(*v as i64),
                Value::UInt16(v) => Some(*v as i64),
                Value::UInt32(v) => Some(*v as i64),
                Value::Int(v) => Some(*v as i64),
                Value::Int64(v) => Some(*v),
                _ => None,
            }),
    {
        match self {
            Value::Byte(v) => Some(*v as i64),
            Value::UInt16(v) => Some(*v as i64),
            Value::UInt32(v) => Some(*v as i64),
            Value::Int(v) => Some(*v as i64),
            Value::Int64(v) => Some(*v),
            _ => None,
        }
    }

    /// The IEEE-754 bit pattern of a float value.
    pub fn as_f32(&self) -> (r: Option<u32>)
        ensures
            r == (match self {
                Value::Float(v) => Some(*v),
                _ => None,
            }),
    {
        match self {
            Value::Float(v) => Some(*v),
            _ => None,
        }
    }

    pub fn as_bool(&self) -> (r: Option<bool>)
        ensures
            r == (match self {
                Value::Bool(v) => Some(*v),
                _ => None,
            }),
    {
        match self {
            Value::Bool(v) => Some(*v),
            _ => None,
        }
    }

    pub fn as_byte(&self) -> (r: Option<u8>)
        ensures
            r == (match self {
                Value::Byte(v) => Some(*v),
                _ => None,
            }),
    {
        match self {
            Value::Byte(v) => Some(*v),
            _ => None,
        }
    }

    /// Lossy display text for any of the string-shaped variants.
    pub fn as_text(&self) -> (r: Option<String>)
        ensures
            match self {
                Value::Str(s) | Value::Name(s) | Value::Enum(s) | Value::ByteLabel(s) => r matches Some(t)
                    && t@ == s@.display(),
                _ => r is None,
            },
    {
        match self {
            Value::Str(s) | Value::Name(s) | Value::Enum(s) | Value::ByteLabel(s) => Some(s.display_lossy()),
            _ => None,
        }
    }

    pub fn as_guid(&self) -> (r: Option<Guid>)
        ensures
            r == (match self {
                Value::Struct(StructValue::Guid(g)) => Some(*g),
                _ => None,
            }),
    {
        match self {
            Value::Struct(StructValue::Guid(g)) => Some(*g),
            _ => None,
        }
    }

    /// FDateTime ticks (100ns intervals since 0001-01-01).
    pub fn as_ticks(&self) -> (r: Option<u64>)
        ensures
            r == (match self {
                Value::Struct(StructValue::DateTime(t)) => Some(*t),
                _ => None,
            }),
    {
        match self {
            Value::Struct(StructValue::DateTime(t)) => Some(*t),
            _ => None,
        }
    }

    pub fn as_properties(&self) -> (r: Option<&[PropertyEntry]>)
        ensures
            match self {
                Value::Struct(StructValue::Properties(p)) => r matches Some(s) && s@ == p@,
                _ => r is None,
            },
    {
        match self {
            Value::Struct(StructValue::Properties(p)) => Some(p.as_slice()),
            _ => None,
        }
    }

    pub fn as_array(&self) -> (r: Option<&[Value]>)
        ensures
            match self {
                Value::Array(items) => r matches Some(s) && s@ == items@,
                _ => r is None,
            },
    {
        match self {
            Value::Array(items) => Some(items.as_slice()),
            _ => None,
        }
    }

    pub fn as_bytes(&self) -> (r: Option<&[u8]>)
        ensures
            match self {
                Value::Bytes(b) => r matches Some(s) && s@ == b@,
                _ => r is None,
            },
    {
        match self {
            Value::Bytes(b) => Some(b.as_slice()),
            _ => None,
        }
    }

    pub fn as_map(&self) -> (r: Option<&[(Value, Value)]>)
        ensures
            match self {
                Value::MapEntries(entries) => r matches Some(s) && s@ == entries@,
                _ => r is None,
            },
    {
        match self {
            Value::MapEntries(entries) => Some(entries.as_slice()),
            _ => None,
        }
    }
}

// ---------------------------------------------------------------------------
// Layouts: where the parts of a map or an array of structs sit
// ---------------------------------------------------------------------------

/// Where a `MapProperty`'s parts sit in the buffer, for edits that add or remove
/// entries rather than rewriting a value in place.
#[derive(Debug, Clone, PartialEq, Eq)]
pub struct MapLayout {
    /// Number of "keys to remove" recorded before the entries.
    pub removed_count: u32,
    /// Offset of the u32 entry count, which an insert or remove has to patch.
    pub entry_count_offset: usize,
    /// `key_start..value_end` for each entry, in wire order.
    pub entries: Vec<std::ops::Range<usize>>,
}

/// Where an `ArrayProperty`-of-structs' parts sit in the buffer: `[u32 count][inner
/// tag][body]×count`.
#[derive(Debug, Clone, PartialEq, Eq)]
pub struct ArrayLayout {
    /// Offset of the u32 element count.
    pub count_offset: usize,
    /// Offset of the `size` field inside the array's nested element tag.
    pub inner_size_offset: usize,
    /// What that field currently says.
    pub inner_size: u32,
    /// Byte span of each element body, in wire order.
    pub elements: Vec<std::ops::Range<usize>>,
}

/// The spans of `n` map entries starting at `p`: entry `i` runs from the end of the
/// first `i` entries to the end of the first `i + 1`.
pub open spec fn entry_spans_at(
    spans: Seq<std::ops::Range<usize>>,
    buf: Seq<u8>,
    p: int,
    n: nat,
    kt: FStringView,
    kd: StructKind,
    vt: FStringView,
    vd: StructKind,
    lwc: bool,
    g: bool,
) -> bool {
    &&& spans.len() == n
    &&& forall|i: int|
        0 <= i < n ==> (#[trigger] spans[i]).start == entries_end(buf, p, i as nat, kt, kd, vt, vd, lwc, g)->0
            && spans[i].end == entries_end(buf, p, (i + 1) as nat, kt, kd, vt, vd, lwc, g)->0
}

fn map_entry_spans(
    buf: &[u8],
    pos: &mut usize,
    count: u32,
    key_type: &FString,
    kd: StructKind,
    value_type: &FString,
    vd: StructKind,
    lwc: bool,
    g: bool,
) -> (r: Result<Vec<std::ops::Range<usize>>, GvasError>)
    ensures
        entries_end(buf@, *old(pos) as int, count as nat, key_type@, kd, value_type@, vd, lwc, g) is Some <==> r is Ok,
        r matches Ok(spans) ==> {
            &&& *final(pos) == entries_end(buf@, *old(pos) as int, count as nat, key_type@, kd, value_type@, vd, lwc, g)->0
            &&& entry_spans_at(spans@, buf@, *old(pos) as int, count as nat, key_type@, kd, value_type@, vd, lwc, g)
        },
{
    let ghost s = *pos as int;
    let mut spans: Vec<std::ops::Range<usize>> = Vec::new();
    let mut i: u32 = 0;
    while i < count
        invariant
            i <= count,
            s == *old(pos),
            entries_end(buf@, s, i as nat, key_type@, kd, value_type@, vd, lwc, g) == Some(*pos as int),
            entry_spans_at(spans@, buf@, s, i as nat, key_type@, kd, value_type@, vd, lwc, g),
        decreases count - i,
    {
        let start = *pos;
        let read = match read_value_by_type(buf, pos, key_type, kd, lwc, g) {
            Ok(_) => match read_value_by_type(buf, pos, value_type, vd, lwc, g) {
                Ok(_) => Ok(()),
                Err(e) => Err(e),
            },
            Err(e) => Err(e),
        };
        if let Err(e) = read {
            proof {
                lemma_entries_none(buf@, s, (i + 1) as nat, count as nat, key_type@, kd, value_type@, vd, lwc, g);
            }
            return Err(e);
        }
        spans.push(start..*pos);
        i = i + 1;
    }
    Ok(spans)
}

/// Where the map value of a property starting at `s` (with value at `v`) lands.
pub open spec fn layout_map_end(buf: Seq<u8>, s: int, path: Seq<char>, lwc: bool, g: bool) -> Option<int> {
    match tag_view_at(buf, s, g).extra {
        TagExtraView::MapOf { key_type, value_type } => map_end(buf, tag_end(buf, s, g)->0, key_type, value_type, path, lwc, g),
        _ => None,
    }
}

/// Walks a `MapProperty`'s value region recording byte boundaries. The walk must land
/// exactly on the property's declared end; anything else means the layout was
/// misread, and splicing against it would cut an entry in half.
pub fn map_layout(
    source: &[u8],
    entry: &PropertyEntry,
    engine_major: u16,
    has_property_guid: bool,
    path: &str,
) -> (r: Result<MapLayout, GvasError>)
    requires
        entry_readable(source@, *entry, has_property_guid),
    ensures
        ({
            let s = entry.span.start as int;
            let g = has_property_guid;
            let lwc = large_world_coordinates(engine_major);
            let t = tag_view_at(source@, s, g);
            let v = tag_end(source@, s, g)->0;
            &&& (r is Ok <==> layout_map_end(source@, s, path@, lwc, g) == Some(entry.span.end as int))
            &&& (r is Err && !(t.extra is MapOf) ==> r matches Err(GvasError::UnknownPropertyType { .. }))
            &&& (r is Err && layout_map_end(source@, s, path@, lwc, g) is Some ==> r == Err::<MapLayout, GvasError>(
                GvasError::TrailingBytes {
                    at: layout_map_end(source@, s, path@, lwc, g)->0 as usize,
                    expected: entry.span.end,
                },
            ))
            &&& (r matches Ok(l) ==> t.extra matches TagExtraView::MapOf { key_type, value_type } && {
                let (kd, vd) = map_defaults(path@);
                let q = map_removed_end(source@, v, key_type, kd, lwc, g)->0;
                &&& l.removed_count == u32_at(source@, v)
                &&& l.entry_count_offset == q
                &&& entry_spans_at(l.entries@, source@, q + 4, u32_at(source@, q) as nat, key_type, kd, value_type, vd, lwc, g)
            })
        }),
{
    let lwc = engine_major >= 5;
    let mut pos = entry.span.start;
    let tag = match read_property_tag(source, &mut pos, has_property_guid) {
        Ok(Some(t)) => t,
        _ => {
            proof {
                assert(false);
            }
            return Err(GvasError::UnexpectedEof { need: 0, at: pos, have: 0 });
        },
    };
    let (key_type, value_type) = match &tag.extra {
        TagExtra::MapOf { key_type, value_type } => (key_type, value_type),
        _ => {
            return Err(GvasError::UnknownPropertyType { name: tag.property_type.display_lossy(), at: entry.span.start });
        },
    };
    let (kd, vd) = map_struct_defaults(path);
    let removed_count = match read_u32_le(source, &mut pos) {
        Ok(n) => n,
        Err(e) => {
            return Err(e);
        },
    };
    match read_elements(source, &mut pos, removed_count, key_type, kd, lwc, has_property_guid) {
        Ok(_) => {},
        Err(e) => {
            return Err(e);
        },
    }
    let entry_count_offset = pos;
    let entry_count = match read_u32_le(source, &mut pos) {
        Ok(n) => n,
        Err(e) => {
            return Err(e);
        },
    };
    let entries = match map_entry_spans(source, &mut pos, entry_count, key_type, kd, value_type, vd, lwc, has_property_guid) {
        Ok(spans) => spans,
        Err(e) => {
            return Err(e);
        },
    };
    if pos != entry.span.end {
        return Err(GvasError::TrailingBytes { at: pos, expected: entry.span.end });
    }
    Ok(MapLayout { removed_count, entry_count_offset, entries })
}

/// The spans of `n` struct bodies starting at `p`.
pub open spec fn element_spans_at(spans: Seq<std::ops::Range<usize>>, buf: Seq<u8>, p: int, n: nat, k: StructKind, lwc: bool, g: bool) -> bool {
    &&& spans.len() == n
    &&& forall|i: int|
        0 <= i < n ==> (#[trigger] spans[i]).start == struct_elements_end(buf, p, i as nat, k, lwc, g)->0
            && spans[i].end == struct_elements_end(buf, p, (i + 1) as nat, k, lwc, g)->0
}

fn struct_element_spans(buf: &[u8], pos: &mut usize, count: u32, k: StructKind, lwc: bool, g: bool) -> (r: Result<
    Vec<std::ops::Range<usize>>,
    GvasError,
>)
    ensures
        struct_elements_end(buf@, *old(pos) as int, count as nat, k, lwc, g) is Some <==> r is Ok,
        r matches Ok(spans) ==> {
            &&& *final(pos) == struct_elements_end(buf@, *old(pos) as int, count as nat, k, lwc, g)->0
            &&& element_spans_at(spans@, buf@, *old(pos) as int, count as nat, k, lwc, g)
        },
{
    let ghost s = *pos as int;
    let mut spans: Vec<std::ops::Range<usize>> = Vec::new();
    let mut i: u32 = 0;
    while i < count
        invariant
            i <= count,
            s == *old(pos),
            struct_elements_end(buf@, s, i as nat, k, lwc, g) == Some(*pos as int),
            element_spans_at(spans@, buf@, s, i as nat, k, lwc, g),
        decreases count - i,
    {
        let start = *pos;
        match read_struct_body(buf, pos, k, lwc, g) {
            Ok(_) => {},
            Err(e) => {
                proof {
                    lemma_struct_elements_none(buf@, s, (i + 1) as nat, count as nat, k, lwc, g);
                }
                return Err(e);
            },
        }
        spans.push(start..*pos);
        i = i + 1;
    }
    Ok(spans)
}

/// Where the elements of an array-of-structs property starting at `s` end, when its
/// tag and inner tag have that shape.
pub open spec fn layout_array_end(buf: Seq<u8>, s: int, lwc: bool, g: bool) -> Option<int> {
    let v = tag_end(buf, s, g)->0;
    match tag_view_at(buf, s, g).extra {
        TagExtraView::Array { inner_type } => if names(inner_type, "StructProperty") && fits(buf, v, 4)
            && inner_struct_tag_ok(buf, v + 4, g) {
            struct_elements_end(buf, tag_end(buf, v + 4, g)->0, u32_at(buf, v) as nat, inner_struct_kind(buf, v + 4, g), lwc, g)
        } else {
            None
        },
        _ => None,
    }
}

/// The extra of an array whose elements are structs.
pub open spec fn array_of_structs(t: TagExtraView) -> bool {
    t matches TagExtraView::Array { inner_type } && names(inner_type, "StructProperty")
}

/// Walks an `ArrayProperty` of structs recording byte boundaries. Arrays of anything
/// else are refused with `UnknownPropertyType`.
pub fn array_layout(source: &[u8], entry: &PropertyEntry, engine_major: u16, has_property_guid: bool) -> (r: Result<
    ArrayLayout,
    GvasError,
>)
    requires
        entry_readable(source@, *entry, has_property_guid),
    ensures
        ({
            let s = entry.span.start as int;
            let g = has_property_guid;
            let lwc = large_world_coordinates(engine_major);
            let v = tag_end(source@, s, g)->0;
            &&& (r is Ok <==> layout_array_end(source@, s, lwc, g) == Some(entry.span.end as int))
            &&& (!array_of_structs(tag_view_at(source@, s, g).extra) ==> (r matches Err(
                GvasError::UnknownPropertyType { at, .. },
            ) && at == entry.span.start))
            &&& (array_of_structs(tag_view_at(source@, s, g).extra) && fits(source@, v, 4) && tag_readable(
                source@,
                v + 4,
                g,
            ) && (is_none_marker(source@, v + 4) || !(tag_view_at(source@, v + 4, g).extra is Struct)) ==> (r matches Err(
                GvasError::UnknownPropertyType { at, .. },
            ) && at == v + 4))
            &&& (r is Err && layout_array_end(source@, s, lwc, g) is Some ==> r == Err::<ArrayLayout, GvasError>(
                GvasError::TrailingBytes { at: layout_array_end(source@, s, lwc, g)->0 as usize, expected: entry.span.end },
            ))
            &&& (r matches Ok(l) ==> {
                &&& l.count_offset == v
                &&& l.inner_size_offset == size_at(source@, v + 4)
                &&& l.inner_size == tag_view_at(source@, v + 4, g).size
                &&& element_spans_at(
                    l.elements@,
                    source@,
                    tag_end(source@, v + 4, g)->0,
                    u32_at(source@, v) as nat,
                    inner_struct_kind(source@, v + 4, g),
                    lwc,
                    g,
                )
            })
        }),
{
    let lwc = engine_major >= 5;
    let mut pos = entry.span.start;
    let tag = match read_property_tag(source, &mut pos, has_property_guid) {
        Ok(Some(t)) => t,
        _ => {
            proof {
                assert(false);
            }
            return Err(GvasError::UnexpectedEof { need: 0, at: pos, have: 0 });
        },
    };
    let inner_type = match &tag.extra {
        TagExtra::Array { inner_type } => inner_type,
        _ => {
            return Err(GvasError::UnknownPropertyType { name: tag.property_type.display_lossy(), at: entry.span.start });
        },
    };
    if !inner_type.is_ascii_text("StructProperty") {
        return Err(GvasError::UnknownPropertyType { name: inner_type.display_lossy(), at: entry.span.start });
    }
    let count_offset = pos;
    let count = read_u32_le(source, &mut pos)?;
    let inner_tag_start = pos;
    let inner_tag = match read_property_tag(source, &mut pos, has_property_guid)? {
        Some(t) => t,
        None => {
            return Err(GvasError::UnknownPropertyType { name: String::from_str("None"), at: inner_tag_start });
        },
    };
    let k = match &inner_tag.extra {
        TagExtra::Struct { struct_type, .. } => struct_kind(struct_type),
        _ => {
            return Err(GvasError::UnknownPropertyType {
                name: String::from_str("expected nested StructProperty tag in struct array"),
                at: inner_tag_start,
            });
        },
    };
    let inner_size_offset = size_field_offset_of(source, inner_tag_start, has_property_guid);
    let elements = struct_element_spans(source, &mut pos, count, k, lwc, has_property_guid)?;
    if pos != entry.span.end {
        return Err(GvasError::TrailingBytes { at: pos, expected: entry.span.end });
    }
    Ok(ArrayLayout { count_offset, inner_size_offset, inner_size: inner_tag.size, elements })
}

/// The size-field offset of a tag already known to read.
fn size_field_offset_of(buf: &[u8], start: usize, g: bool) -> (o: usize)
    requires
        tag_readable(buf@, start as int, g),
        !is_none_marker(buf@, start as int),
    ensures
        o == size_at(buf@, start as int),
{
    match super::property::size_field_offset(buf, start) {
        Ok(o) => o,
        Err(_) => {
            proof {
                assert(false);
            }
            0
        },
    }
}

} // verus!
