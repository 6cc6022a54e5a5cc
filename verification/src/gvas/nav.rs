//! Navigating the lazy property tree: finding a property by name, materializing it
//! with the right dotted path, and re-rooting onto a nested `RawData` blob, whose
//! property spans are offsets into the blob rather than the save.

use vstd::prelude::*;
use vstd::string::*;
use super::header::{Header, engine_at_least};
use super::primitives::Guid;
use super::property::{tag_end, tag_view_at};
use super::property::{PropertyTagView, TagExtraView, names};
use super::value::{
    StructKind, StructValue, TypeKind, Value, array_matches, by_type_matches, entries_end, entry_at, entry_readable,
    inner_struct_kind, large_world_coordinates, map_defaults, map_matches, map_removed_end, materialize_property,
    materialized, property_list_at, property_list_terminator, struct_elements_end, elements_end, struct_kind_of,
    struct_matches, tag_value_end, tag_value_matches, type_kind,
};
use super::primitives::{FStringView, u32_at};
use super::{GvasError, PropertyEntry};

verus! {

// ---------------------------------------------------------------------------
// Finding by name
// ---------------------------------------------------------------------------

/// `i` is the first index whose entry has this name.
pub open spec fn first_named(props: Seq<PropertyEntry>, name: Seq<char>, i: int) -> bool {
    &&& 0 <= i < props.len()
    &&& props[i].name@ == name
    &&& forall|j: int| 0 <= j < i ==> (#[trigger] props[j]).name@ != name
}

/// No entry has this name.
pub open spec fn none_named(props: Seq<PropertyEntry>, name: Seq<char>) -> bool {
    forall|j: int| 0 <= j < props.len() ==> (#[trigger] props[j]).name@ != name
}

/// `r` is what reading the field `name` of `props` through `c` as a guid gives: the
/// guid when the first such field reads as one; `None` when there is no such field or
/// it reads as something else.
pub open spec fn guid_field_read(c: Cursor, props: Seq<PropertyEntry>, name: Seq<char>, r: Option<Guid>) -> bool {
    match r {
        Some(g) => exists|i: int, v: Value|
            first_named(props, name, i) && c.materializes(props[i], v) && v == Value::Struct(StructValue::Guid(g)),
        None => none_named(props, name) || exists|i: int, v: Value|
            first_named(props, name, i) && c.materializes(props[i], v) && !(v is Struct && v->Struct_0 is Guid),
    }
}

/// The index of the first entry named `name`.
pub fn find_index(props: &[PropertyEntry], name: &str) -> (r: Option<usize>)
    ensures
        match r {
            Some(i) => first_named(props@, name@, i as int),
            None => none_named(props@, name@),
        },
{
    let target = String::from_str(name);
    let mut i: usize = 0;
    while i < props.len()
        invariant
            i <= props@.len(),
            target@ == name@,
            forall|j: int| 0 <= j < i ==> (#[trigger] props@[j]).name@ != name@,
        decreases props@.len() - i,
    {
        if props[i].name == target {
            return Some(i);
        }
        i = i + 1;
    }
    None
}

/// Finds a property by name in a property list. Lists are short and field names are
/// distinct within a struct, so a linear scan is both correct and fast enough.
pub fn find<'a>(props: &'a [PropertyEntry], name: &str) -> (r: Option<&'a PropertyEntry>)
    ensures
        match r {
            Some(e) => exists|i: int| first_named(props@, name@, i) && props@[i] == *e,
            None => none_named(props@, name@),
        },
{
    match find_index(props, name) {
        Some(i) => Some(&props[i]),
        None => None,
    }
}

/// Two entries index the same bytes under the same names.
pub open spec fn same_entry(a: PropertyEntry, b: PropertyEntry) -> bool {
    &&& a.name@ == b.name@
    &&& a.property_type@ == b.property_type@
    &&& a.span.start == b.span.start
    &&& a.span.end == b.span.end
}

pub open spec fn same_entries(a: Seq<PropertyEntry>, b: Seq<PropertyEntry>) -> bool {
    a.len() == b.len() && forall|i: int| 0 <= i < a.len() ==> same_entry(#[trigger] a[i], b[i])
}

impl PropertyEntry {
    /// A copy indexing the same bytes under the same names.
    pub fn duplicate(&self) -> (r: PropertyEntry)
        ensures
            same_entry(r, *self),
    {
        PropertyEntry {
            name: self.name.clone(),
            property_type: self.property_type.clone(),
            span: self.span.start..self.span.end,
        }
    }
}

/// Copies of each entry, in order.
pub fn copy_entries(src: &[PropertyEntry]) -> (r: Vec<PropertyEntry>)
    ensures
        same_entries(r@, src@),
{
    let mut out: Vec<PropertyEntry> = Vec::new();
    let mut i: usize = 0;
    while i < src.len()
        invariant
            i <= src@.len(),
            out@.len() == i,
            forall|j: int| 0 <= j < i ==> same_entry(#[trigger] out@[j], src@[j]),
        decreases src@.len() - i,
    {
        out.push(src[i].duplicate());
        i = i + 1;
    }
    out
}

/// Every entry of `props` is a complete property of `buf`.
pub open spec fn all_readable(buf: Seq<u8>, props: Seq<PropertyEntry>, g: bool) -> bool {
    forall|i: int| 0 <= i < props.len() ==> entry_readable(buf, #[trigger] props[i], g)
}

/// The entries of an indexed property list can each be materialized.
pub proof fn lemma_list_readable(buf: Seq<u8>, props: Seq<PropertyEntry>, s: int, t: int, g: bool)
    requires
        property_list_at(buf, props, s, t, g),
    ensures
        all_readable(buf, props, g),
{
    assert forall|i: int| 0 <= i < props.len() implies entry_readable(buf, #[trigger] props[i], g) by {
        assert(entry_at(buf, props[i], g));
    }
}

/// A value that is a property list indexes complete properties of `buf`.
pub open spec fn props_readable(v: Value, buf: Seq<u8>, g: bool) -> bool {
    v matches Value::Struct(StructValue::Properties(p)) ==> all_readable(buf, p@, g)
}

proof fn lemma_struct_readable(sv: StructValue, buf: Seq<u8>, p: int, k: StructKind, lwc: bool, g: bool)
    requires
        struct_matches(sv, buf, p, k, lwc, g),
    ensures
        props_readable(Value::Struct(sv), buf, g),
{
    if let StructValue::Properties(q) = sv {
        if k == StructKind::Generic {
            lemma_list_readable(buf, q@, p, property_list_terminator(buf, p, g), g);
        }
    }
}

proof fn lemma_by_type_readable(v: Value, buf: Seq<u8>, p: int, t: FStringView, d: StructKind, lwc: bool, g: bool)
    requires
        by_type_matches(v, buf, p, t, d, lwc, g),
    ensures
        props_readable(v, buf, g),
{
    if type_kind(t) == TypeKind::Struct {
        lemma_struct_readable(v->Struct_0, buf, p, d, lwc, g);
    }
}

/// Every property list a materialized value holds — the value itself, its map
/// entries' keys and values, its array items — indexes complete properties of the
/// buffer it was read from, so each can be materialized in turn.
pub proof fn lemma_materialized_readable(
    v: Value,
    buf: Seq<u8>,
    start: int,
    end: int,
    tag: PropertyTagView,
    path: Seq<char>,
    lwc: bool,
    g: bool,
)
    requires
        materialized(v, buf, start, end, tag, path, lwc, g),
    ensures
        props_readable(v, buf, g),
        v matches Value::MapEntries(es) ==> forall|i: int|
            0 <= i < es@.len() ==> props_readable((#[trigger] es@[i]).0, buf, g) && props_readable(es@[i].1, buf, g),
        v matches Value::Array(items) ==> forall|i: int|
            0 <= i < items@.len() ==> props_readable(#[trigger] items@[i], buf, g),
{
    if tag_value_end(buf, start, tag, path, lwc, g) == Some(end) {
        match tag.extra {
            TagExtraView::Struct { struct_type, .. } => {
                lemma_struct_readable(v->Struct_0, buf, start, struct_kind_of(struct_type), lwc, g);
            },
            TagExtraView::NoExtra => {
                lemma_by_type_readable(v, buf, start, tag.property_type, StructKind::Generic, lwc, g);
            },
            TagExtraView::Array { inner_type } => {
                let p = start + 4;
                let count = u32_at(buf, start) as nat;
                if let Value::Array(items) = v {
                    assert forall|i: int| 0 <= i < items@.len() implies props_readable(#[trigger] items@[i], buf, g) by {
                        if names(inner_type, "StructProperty") {
                            let q = tag_end(buf, p, g)->0;
                            let k = inner_struct_kind(buf, p, g);
                            lemma_struct_readable(
                                items@[i]->Struct_0,
                                buf,
                                struct_elements_end(buf, q, i as nat, k, lwc, g)->0,
                                k,
                                lwc,
                                g,
                            );
                        } else if !names(inner_type, "ByteProperty") {
                            lemma_by_type_readable(
                                items@[i],
                                buf,
                                elements_end(buf, p, i as nat, inner_type, StructKind::Generic, lwc, g)->0,
                                inner_type,
                                StructKind::Generic,
                                lwc,
                                g,
                            );
                        }
                    }
                }
            },
            TagExtraView::MapOf { key_type, value_type } => {
                let (kd, vd) = map_defaults(path);
                let q = map_removed_end(buf, start, key_type, kd, lwc, g)->0;
                if let Value::MapEntries(es) = v {
                    assert forall|i: int| 0 <= i < es@.len() implies props_readable((#[trigger] es@[i]).0, buf, g)
                        && props_readable(es@[i].1, buf, g) by {
                        let e = entries_end(buf, q + 4, i as nat, key_type, kd, value_type, vd, lwc, g)->0;
                        lemma_by_type_readable(es@[i].0, buf, e, key_type, kd, lwc, g);
                        lemma_by_type_readable(
                            es@[i].1,
                            buf,
                            super::value::by_type_end(buf, e, key_type, kd, lwc, g)->0,
                            value_type,
                            vd,
                            lwc,
                            g,
                        );
                    }
                }
            },
            _ => {},
        }
    }
}

// ---------------------------------------------------------------------------
// Cursor
// ---------------------------------------------------------------------------

/// The dotted path of a child named `name` under `path`.
pub open spec fn child_path_of(path: Seq<char>, name: Seq<char>) -> Seq<char> {
    if path.len() == 0 {
        name
    } else {
        path + "."@ + name
    }
}

/// A buffer plus the save-wide parameters needed to decode properties indexed against
/// it, and the dotted path it is rooted at.
#[derive(Debug, Clone)]
pub struct Cursor<'a> {
    source: &'a [u8],
    engine_major: u16,
    has_property_guid: bool,
    path: String,
}

impl<'a> Cursor<'a> {
    pub closed spec fn source_view(&self) -> Seq<u8> {
        self.source@
    }

    pub closed spec fn engine_major_view(&self) -> u16 {
        self.engine_major
    }

    pub closed spec fn guid_view(&self) -> bool {
        self.has_property_guid
    }

    pub closed spec fn path_view(&self) -> Seq<char> {
        self.path@
    }

    /// `v` is what materializing `entry` through this cursor gives.
    pub open spec fn materializes(&self, entry: PropertyEntry, v: Value) -> bool {
        materialized(
            v,
            self.source_view(),
            tag_end(self.source_view(), entry.span.start as int, self.guid_view())->0,
            entry.span.end as int,
            tag_view_at(self.source_view(), entry.span.start as int, self.guid_view()),
            child_path_of(self.path_view(), entry.name@),
            large_world_coordinates(self.engine_major_view()),
            self.guid_view(),
        )
    }

    /// A cursor over a whole save's GVAS buffer, rooted at the save root.
    pub fn new(source: &'a [u8], header: &Header) -> (c: Self)
        ensures
            c.source_view() == source@,
            c.engine_major_view() == header.engine_version_major,
            c.guid_view() == engine_at_least(header.engine_version_major, header.engine_version_minor, 4, 12),
            c.path_view() == Seq::<char>::empty(),
    {
        Cursor {
            source,
            engine_major: header.engine_version_major,
            has_property_guid: header.has_property_guid(),
            path: String::new(),
        }
    }

    /// Builds a cursor from already-extracted parts.
    pub fn new_raw(source: &'a [u8], engine_major: u16, has_property_guid: bool, path: &str) -> (c: Self)
        ensures
            c.source_view() == source@,
            c.engine_major_view() == engine_major,
            c.guid_view() == has_property_guid,
            c.path_view() == path@,
    {
        Cursor { source, engine_major, has_property_guid, path: String::from_str(path) }
    }

    pub fn source(&self) -> (r: &'a [u8])
        ensures
            r@ == self.source_view(),
    {
        self.source
    }

    pub fn path(&self) -> (r: &str)
        ensures
            r@ == self.path_view(),
    {
        self.path.as_str()
    }

    pub fn engine_major(&self) -> (r: u16)
        ensures
            r == self.engine_major_view(),
    {
        self.engine_major
    }

    pub fn has_property_guid(&self) -> (r: bool)
        ensures
            r == self.guid_view(),
    {
        self.has_property_guid
    }

    /// Re-roots onto a nested buffer — a `RawData` blob — carrying the save-wide
    /// decode parameters across.
    pub fn rebase<'b>(&self, blob: &'b [u8], path: &str) -> (c: Cursor<'b>)
        ensures
            c.source_view() == blob@,
            c.engine_major_view() == self.engine_major_view(),
            c.guid_view() == self.guid_view(),
            c.path_view() == path@,
    {
        Cursor {
            source: blob,
            engine_major: self.engine_major,
            has_property_guid: self.has_property_guid,
            path: String::from_str(path),
        }
    }

    /// The dotted path a child of this cursor would have.
    pub fn child_path(&self, name: &str) -> (r: String)
        ensures
            r@ == child_path_of(self.path_view(), name@),
    {
        if self.path.as_str().is_empty() {
            String::from_str(name)
        } else {
            let mut s = self.path.clone();
            s.append(".");
            s.append(name);
            s
        }
    }

    /// Materializes `entry`, which must be indexed against this cursor's buffer.
    pub fn materialize(&self, entry: &PropertyEntry) -> (r: Result<Value, GvasError>)
        requires
            entry_readable(self.source_view(), *entry, self.guid_view()),
        ensures
            r matches Ok(v) && self.materializes(*entry, v),
    {
        let path = self.child_path(entry.name.as_str());
        materialize_property(self.source, entry, self.engine_major, self.has_property_guid, path.as_str())
    }

    /// Finds a named property and materializes it. `Ok(None)` means "no such
    /// property" — distinct from an error, which means the bytes would not decode.
    pub fn get(&self, props: &[PropertyEntry], name: &str) -> (r: Result<Option<Value>, GvasError>)
        requires
            all_readable(self.source_view(), props@, self.guid_view()),
        ensures
            match r {
                Ok(Some(v)) => exists|i: int| first_named(props@, name@, i) && self.materializes(props@[i], v),
                Ok(None) => none_named(props@, name@),
                Err(_) => false,
            },
    {
        match find_index(props, name) {
            Some(i) => {
                assert(entry_readable(self.source_view(), props@[i as int], self.guid_view()));
                Ok(Some(self.materialize(&props[i])?))
            },
            None => Ok(None),
        }
    }

    /// `get`, discarding the distinction between "absent" and "failed to decode".
    pub fn get_opt(&self, props: &[PropertyEntry], name: &str) -> (r: Option<Value>)
        requires
            all_readable(self.source_view(), props@, self.guid_view()),
        ensures
            match r {
                Some(v) => exists|i: int| first_named(props@, name@, i) && self.materializes(props@[i], v),
                None => none_named(props@, name@),
            },
    {
        match self.get(props, name) {
            Ok(v) => v,
            Err(_) => None,
        }
    }

    /// Descends into a named child struct, returning both its property list and a
    /// cursor scoped to it (same buffer, extended path).
    pub fn descend(&self, props: &[PropertyEntry], name: &str) -> (r: Result<Option<(Vec<PropertyEntry>, Cursor<'a>)>, GvasError>)
        requires
            all_readable(self.source_view(), props@, self.guid_view()),
        ensures
            match r {
                Ok(Some((children, c))) => {
                    &&& exists|i: int, v: Value| {
                        &&& first_named(props@, name@, i)
                        &&& self.materializes(props@[i], v)
                        &&& v matches Value::Struct(StructValue::Properties(p)) && same_entries(children@, p@)
                    }
                    &&& c.source_view() == self.source_view()
                    &&& c.engine_major_view() == self.engine_major_view()
                    &&& c.guid_view() == self.guid_view()
                    &&& c.path_view() == child_path_of(self.path_view(), name@)
                },
                Ok(None) => none_named(props@, name@) || exists|i: int, v: Value| {
                    &&& first_named(props@, name@, i)
                    &&& self.materializes(props@[i], v)
                    &&& !(v matches Value::Struct(StructValue::Properties(_)))
                },
                Err(_) => false,
            },
    {
        let value = match self.get(props, name)? {
            Some(v) => v,
            None => {
                return Ok(None);
            },
        };
        let children = match value.as_properties() {
            Some(c) => c,
            None => {
                return Ok(None);
            },
        };
        let cursor = Cursor {
            source: self.source,
            engine_major: self.engine_major,
            has_property_guid: self.has_property_guid,
            path: self.child_path(name),
        };
        Ok(Some((copy_entries(children), cursor)))
    }
}

// ---------------------------------------------------------------------------
// Guids as hex
// ---------------------------------------------------------------------------

/// The lowercase hex digit for a nibble.
pub open spec fn hex_char(n: u8) -> char {
    if n < 10 {
        (n + 48) as char
    } else {
        (n + 87) as char
    }
}

/// The two lowercase hex digits of a byte.
pub open spec fn byte_hex(b: u8) -> Seq<char> {
    seq![hex_char(b / 16), hex_char(b % 16)]
}

/// The value of an ASCII hex digit, either case.
pub open spec fn hex_value(c: u8) -> Option<int> {
    if 48 <= c <= 57 {
        Some(c - 48)
    } else if 97 <= c <= 102 {
        Some(c - 87)
    } else if 65 <= c <= 70 {
        Some(c - 55)
    } else {
        None
    }
}

/// The value of a string of hex digits (most significant first).
pub open spec fn radix16(digits: Seq<u8>) -> Option<int>
    decreases digits.len(),
{
    if digits.len() == 0 {
        Some(0)
    } else {
        match (radix16(digits.drop_last()), hex_value(digits.last())) {
            (Some(a), Some(d)) => Some(a * 16 + d),
            _ => None,
        }
    }
}

/// What `from_str_radix(_, 16)` accepts for an unsigned type: an optional leading
/// `+`, then at least one hex digit (values here never overflow: at most 8 digits).
pub open spec fn parse_hex(chunk: Seq<u8>) -> Option<int> {
    if chunk.len() > 0 && chunk[0] == 43 {
        if chunk.len() > 1 { radix16(chunk.skip(1)) } else { None }
    } else if chunk.len() > 0 {
        radix16(chunk)
    } else {
        None
    }
}

proof fn lemma_hex_char_value(n: u8)
    requires
        n < 16,
    ensures
        hex_value(hex_char(n) as u8) == Some(n as int),
        (hex_char(n) as u8) != 43,
        '\0' <= hex_char(n) <= '\u{7f}',
{
}

/// One more digit multiplies the value so far by 16 and adds the digit.
proof fn lemma_radix16_push(s: Seq<u8>, j: int, a: int, d: int)
    requires
        0 <= j < s.len(),
        radix16(s.subrange(0, j)) == Some(a),
        hex_value(s[j]) == Some(d),
    ensures
        radix16(s.subrange(0, j + 1)) == Some(a * 16 + d),
{
    assert(s.subrange(0, j + 1).drop_last() =~= s.subrange(0, j));
}

/// The eight hex digits of group `k` of a guid's grouped rendering read back as the
/// group's little-endian value.
proof fn lemma_hex_group(g: Seq<u8>, chunk: Seq<u8>, k: int)
    requires
        g.len() == 16,
        0 <= k < 4,
        chunk.len() == 8,
        forall|m: int| 0 <= m < 8 ==> #[trigger] chunk[m] == guid_hex_groups(g)[8 * k + m] as u8,
    ensures
        parse_hex(chunk) == Some(
            g[4 * k + 3] * 0x1000000 + g[4 * k + 2] * 0x10000 + g[4 * k + 1] * 0x100 + g[4 * k] as int,
        ),
{
    let b3 = g[4 * k + 3];
    let b2 = g[4 * k + 2];
    let b1 = g[4 * k + 1];
    let b0 = g[4 * k];
    assert forall|m: int| 0 <= m < 8 implies #[trigger] chunk[m] == (if m % 2 == 0 {
        hex_char(g[4 * k + 3 - m / 2] / 16)
    } else {
        hex_char(g[4 * k + 3 - m / 2] % 16)
    }) as u8 by {
        assert((8 * k + m) / 8 == k);
        assert((8 * k + m) % 8 == m);
    }
    lemma_hex_char_value(b3 / 16);
    lemma_hex_char_value(b3 % 16);
    lemma_hex_char_value(b2 / 16);
    lemma_hex_char_value(b2 % 16);
    lemma_hex_char_value(b1 / 16);
    lemma_hex_char_value(b1 % 16);
    lemma_hex_char_value(b0 / 16);
    lemma_hex_char_value(b0 % 16);
    assert(chunk[0] == hex_char(b3 / 16) as u8);
    assert(chunk[1] == hex_char(b3 % 16) as u8);
    assert(chunk[2] == hex_char(b2 / 16) as u8);
    assert(chunk[3] == hex_char(b2 % 16) as u8);
    assert(chunk[4] == hex_char(b1 / 16) as u8);
    assert(chunk[5] == hex_char(b1 % 16) as u8);
    assert(chunk[6] == hex_char(b0 / 16) as u8);
    assert(chunk[7] == hex_char(b0 % 16) as u8);
    assert(chunk.subrange(0, 0) =~= Seq::<u8>::empty());
    lemma_radix16_push(chunk, 0, 0, (b3 / 16) as int);
    lemma_radix16_push(chunk, 1, (b3 / 16) as int, (b3 % 16) as int);
    let v1 = (b3 / 16) * 16 + b3 % 16;
    assert(v1 == b3);
    lemma_radix16_push(chunk, 2, b3 as int, (b2 / 16) as int);
    lemma_radix16_push(chunk, 3, b3 * 16 + b2 / 16, (b2 % 16) as int);
    lemma_radix16_push(chunk, 4, b3 * 0x100 + b2 as int, (b1 / 16) as int);
    lemma_radix16_push(chunk, 5, (b3 * 0x100 + b2) * 16 + b1 / 16, (b1 % 16) as int);
    lemma_radix16_push(chunk, 6, b3 * 0x10000 + b2 * 0x100 + b1 as int, (b0 / 16) as int);
    lemma_radix16_push(chunk, 7, (b3 * 0x10000 + b2 * 0x100 + b1) * 16 + b0 / 16, (b0 % 16) as int);
    assert(chunk.subrange(0, 8) =~= chunk);
}

/// Law: a guid's grouped hex rendering reads back as the same guid.
pub proof fn guid_hex_groups_round_trip(g: Guid, s: &str)
    requires
        s@ == guid_hex_groups(g@),
    ensures
        guid_from_hex_groups(s.spec_bytes()) == Some(g@),
{
    let h = guid_hex_groups(g@);
    assert forall|i: int| 0 <= i < h.len() implies '\0' <= #[trigger] h[i] <= '\u{7f}' by {
        let b = g@[4 * (i / 8) + 3 - (i % 8) / 2];
        lemma_hex_char_value(b / 16);
        lemma_hex_char_value(b % 16);
    }
    assert(is_ascii(s));
    is_ascii_spec_bytes(s);
    let bytes = s.spec_bytes();
    assert(bytes.len() == 32);
    let vals = Seq::new(4, |k: int| parse_hex(bytes.subrange(8 * k, 8 * k + 8)));
    assert forall|k: int| 0 <= k < 4 implies #[trigger] vals[k] == Some(
        g@[4 * k + 3] * 0x1000000 + g@[4 * k + 2] * 0x10000 + g@[4 * k + 1] * 0x100 + g@[4 * k] as int,
    ) by {
        lemma_hex_group(g@, bytes.subrange(8 * k, 8 * k + 8), k);
    }
    assert forall|i: int| 0 <= i < 16 implies #[trigger] ((vals[i / 4]->0 as u32 >> (8 * (i % 4)) as u32) & 0xff) as u8
        == g@[i] by {
        let k = i / 4;
        let j = i % 4;
        let b3 = g@[4 * k + 3];
        let b2 = g@[4 * k + 2];
        let b1 = g@[4 * k + 1];
        let b0 = g@[4 * k];
        let v: u32 = (b3 * 0x1000000 + b2 * 0x10000 + b1 * 0x100 + b0) as u32;
        assert(vals[k]->0 as u32 == v);
        assert((v >> 0u32) & 0xff == b0 && (v >> 8u32) & 0xff == b1 && (v >> 16u32) & 0xff == b2 && (v >> 24u32)
            & 0xff == b3) by (bit_vector)
            requires
                v == b3 * 0x1000000 + b2 * 0x10000 + b1 * 0x100 + b0,
        ;
        assert(i == 4 * k + j);
    }
    assert(Seq::new(16, |i: int| ((vals[i / 4]->0 as u32 >> (8 * (i % 4)) as u32) & 0xff) as u8) =~= g@);
}

/// An ASCII byte with its letters `A`-`F` lowercased.
pub open spec fn lower_hex_byte(c: u8) -> u8 {
    if 65 <= c <= 70 {
        (c + 32) as u8
    } else {
        c
    }
}

proof fn lemma_hex_char_of_value(c: u8)
    requires
        hex_value(c) is Some,
    ensures
        hex_value(c)->0 < 16,
        hex_char(hex_value(c)->0 as u8) == lower_hex_byte(c) as char,
{
}

/// Some byte of `digits` is not a hex digit: no value.
proof fn lemma_radix16_bad(digits: Seq<u8>, i: int)
    requires
        0 <= i < digits.len(),
        hex_value(digits[i]) is None,
    ensures
        radix16(digits) is None,
{
    assert(digits.take(i + 1).last() == digits[i]);
    lemma_radix16_none_extends(digits, i + 1);
}

/// Eight hex digits parse as the number they spell, and the guid bytes taken from that
/// number print back as the digits, lowercased.
/// The value of eight hex digits.
proof fn lemma_group_value(chunk: Seq<u8>)
    requires
        chunk.len() == 8,
        forall|m: int| 0 <= m < 8 ==> hex_value(#[trigger] chunk[m]) is Some,
    ensures
        parse_hex(chunk) == Some(
            hex_value(chunk[0])->0 * 0x10000000 + hex_value(chunk[1])->0 * 0x1000000 + hex_value(chunk[2])->0 * 0x100000
                + hex_value(chunk[3])->0 * 0x10000 + hex_value(chunk[4])->0 * 0x1000 + hex_value(chunk[5])->0 * 0x100
                + hex_value(chunk[6])->0 * 0x10 + hex_value(chunk[7])->0,
        ),
{
    let d0 = hex_value(chunk[0])->0;
    let d1 = hex_value(chunk[1])->0;
    let d2 = hex_value(chunk[2])->0;
    let d3 = hex_value(chunk[3])->0;
    let d4 = hex_value(chunk[4])->0;
    let d5 = hex_value(chunk[5])->0;
    let d6 = hex_value(chunk[6])->0;
    let d7 = hex_value(chunk[7])->0;
    assert(hex_value(chunk[0]) is Some && hex_value(chunk[1]) is Some && hex_value(chunk[2]) is Some && hex_value(
        chunk[3],
    ) is Some);
    assert(hex_value(chunk[4]) is Some && hex_value(chunk[5]) is Some && hex_value(chunk[6]) is Some && hex_value(
        chunk[7],
    ) is Some);
    assert(chunk.subrange(0, 0) =~= Seq::<u8>::empty());
    lemma_radix16_push(chunk, 0, 0, d0);
    lemma_radix16_push(chunk, 1, d0, d1);
    lemma_radix16_push(chunk, 2, d0 * 16 + d1, d2);
    lemma_radix16_push(chunk, 3, (d0 * 16 + d1) * 16 + d2, d3);
    lemma_radix16_push(chunk, 4, ((d0 * 16 + d1) * 16 + d2) * 16 + d3, d4);
    lemma_radix16_push(chunk, 5, (((d0 * 16 + d1) * 16 + d2) * 16 + d3) * 16 + d4, d5);
    lemma_radix16_push(chunk, 6, ((((d0 * 16 + d1) * 16 + d2) * 16 + d3) * 16 + d4) * 16 + d5, d6);
    lemma_radix16_push(chunk, 7, (((((d0 * 16 + d1) * 16 + d2) * 16 + d3) * 16 + d4) * 16 + d5) * 16 + d6, d7);
    assert(chunk.subrange(0, 8) =~= chunk);
    assert(chunk[0] != 43);
}

/// The bytes of a number spelled by eight hex digits, nibble by nibble.
proof fn lemma_group_nibbles(e0: u32, e1: u32, e2: u32, e3: u32, e4: u32, e5: u32, e6: u32, e7: u32, v: u32)
    by (bit_vector)
    requires
        e0 < 16,
        e1 < 16,
        e2 < 16,
        e3 < 16,
        e4 < 16,
        e5 < 16,
        e6 < 16,
        e7 < 16,
        v == e0 * 0x10000000 + e1 * 0x1000000 + e2 * 0x100000 + e3 * 0x10000 + e4 * 0x1000 + e5 * 0x100 + e6 * 0x10
            + e7,
    ensures
        (((v >> 24u32) & 0xff) as u8) / 16 == e0,
        (((v >> 24u32) & 0xff) as u8) % 16 == e1,
        (((v >> 16u32) & 0xff) as u8) / 16 == e2,
        (((v >> 16u32) & 0xff) as u8) % 16 == e3,
        (((v >> 8u32) & 0xff) as u8) / 16 == e4,
        (((v >> 8u32) & 0xff) as u8) % 16 == e5,
        (((v >> 0u32) & 0xff) as u8) / 16 == e6,
        (((v >> 0u32) & 0xff) as u8) % 16 == e7,
{
}

/// Eight hex digits parse as the number they spell, and the guid bytes taken from that
/// number print back as the digits, lowercased.
#[verifier::rlimit(40)]
proof fn lemma_group_digits(chunk: Seq<u8>)
    requires
        chunk.len() == 8,
        forall|m: int| 0 <= m < 8 ==> hex_value(#[trigger] chunk[m]) is Some,
    ensures
        parse_hex(chunk) is Some,
        parse_hex(chunk)->0 <= u32::MAX,
        ({
            let v = parse_hex(chunk)->0 as u32;
            forall|m: int|
                0 <= m < 8 ==> hex_char(
                    if m % 2 == 0 {
                        (((v >> (8 * (3 - m / 2)) as u32) & 0xff) as u8) / 16
                    } else {
                        (((v >> (8 * (3 - m / 2)) as u32) & 0xff) as u8) % 16
                    },
                ) == lower_hex_byte(#[trigger] chunk[m]) as char
        }),
{
    lemma_group_value(chunk);
    let d = Seq::new(8, |m: int| hex_value(chunk[m])->0);
    assert forall|m: int| 0 <= m < 8 implies 0 <= #[trigger] d[m] < 16 && hex_char(d[m] as u8) == lower_hex_byte(chunk[m]) as char by {
        lemma_hex_char_of_value(chunk[m]);
    }
    let v = parse_hex(chunk)->0 as u32;
    assert(0 <= d[0] < 16 && 0 <= d[1] < 16 && 0 <= d[2] < 16 && 0 <= d[3] < 16);
    assert(0 <= d[4] < 16 && 0 <= d[5] < 16 && 0 <= d[6] < 16 && 0 <= d[7] < 16);
    lemma_group_nibbles(
        d[0] as u32,
        d[1] as u32,
        d[2] as u32,
        d[3] as u32,
        d[4] as u32,
        d[5] as u32,
        d[6] as u32,
        d[7] as u32,
        v,
    );
    assert forall|m: int| 0 <= m < 8 implies hex_char(
        if m % 2 == 0 {
            (((v >> (8 * (3 - m / 2)) as u32) & 0xff) as u8) / 16
        } else {
            (((v >> (8 * (3 - m / 2)) as u32) & 0xff) as u8) % 16
        },
    ) == lower_hex_byte(#[trigger] chunk[m]) as char by {
        assert(hex_char(d[m] as u8) == lower_hex_byte(chunk[m]) as char);
        // One case per digit, so that each shift and nibble is a constant.
        if m == 0 {
        } else if m == 1 {
        } else if m == 2 {
        } else if m == 3 {
        } else if m == 4 {
        } else if m == 5 {
        } else if m == 6 {
        } else {
        }
    }
}

/// Law: `hex_to_guid` refuses text that is not 32 bytes long, and text with a byte
/// that is neither a hex digit nor `+` (which, as `from_str_radix` does, it accepts
/// before each group of eight); on 32 hex digits it succeeds, and `guid_to_hex` of the
/// guid it reads prints the text back with its letters lowercased.
#[verifier::rlimit(40)]
#[verifier::spinoff_prover]
pub proof fn hex_to_guid_law(h: Seq<u8>)
    ensures
        h.len() != 32 ==> guid_from_hex_groups(h) is None,
        (exists|i: int| 0 <= i < h.len() && hex_value(#[trigger] h[i]) is None && h[i] != 43) ==> guid_from_hex_groups(
            h,
        ) is None,
        h.len() == 32 && (forall|i: int| 0 <= i < h.len() ==> hex_value(#[trigger] h[i]) is Some) ==> (
        guid_from_hex_groups(h) matches Some(g) && guid_hex_groups(g) == h.map_values(
            |c: u8| lower_hex_byte(c) as char,
        )),
{
    if h.len() == 32 {
        let vals = Seq::new(4, |k: int| parse_hex(h.subrange(8 * k, 8 * k + 8)));
        if exists|i: int| 0 <= i < h.len() && hex_value(#[trigger] h[i]) is None && h[i] != 43 {
            let i = choose|i: int| 0 <= i < h.len() && hex_value(#[trigger] h[i]) is None && h[i] != 43;
            let k = i / 8;
            let m = i % 8;
            let chunk = h.subrange(8 * k, 8 * k + 8);
            assert(chunk[m] == h[i]);
            if chunk[0] == 43 {
                assert(m != 0);
                assert(chunk.skip(1)[m - 1] == chunk[m]);
                lemma_radix16_bad(chunk.skip(1), m - 1);
            } else {
                lemma_radix16_bad(chunk, m);
            }
            assert(vals[k] is None);
        }
        if forall|i: int| 0 <= i < h.len() ==> hex_value(#[trigger] h[i]) is Some {
            assert forall|k: int| 0 <= k < 4 implies #[trigger] vals[k] is Some by {
                let chunk = h.subrange(8 * k, 8 * k + 8);
                assert forall|m: int| 0 <= m < 8 implies hex_value(#[trigger] chunk[m]) is Some by {
                    assert(chunk[m] == h[8 * k + m]);
                }
                lemma_group_digits(chunk);
            }
            let g = Seq::new(16, |i: int| ((vals[i / 4]->0 as u32 >> (8 * (i % 4)) as u32) & 0xff) as u8);
            assert(guid_from_hex_groups(h) == Some(g));
            let want = h.map_values(|c: u8| lower_hex_byte(c) as char);
            assert forall|i: int| 0 <= i < 32 implies #[trigger] guid_hex_groups(g)[i] == want[i] by {
                let k = i / 8;
                let m = i % 8;
                let chunk = h.subrange(8 * k, 8 * k + 8);
                assert forall|q: int| 0 <= q < 8 implies hex_value(#[trigger] chunk[q]) is Some by {
                    assert(chunk[q] == h[8 * k + q]);
                }
                lemma_group_digits(chunk);
                assert(chunk[m] == h[i]);
                let j = 4 * k + 3 - m / 2;
                assert(j / 4 == k && j % 4 == 3 - m / 2);
            }
            assert(guid_hex_groups(g) =~= want);
        }
    }
}

pub fn hex_digit_str(n: u8) -> (s: &'static str)
    requires
        n < 16,
    ensures
        s@ == seq![hex_char(n)],
{
    proof {
        reveal_strlit("0");
        reveal_strlit("1");
        reveal_strlit("2");
        reveal_strlit("3");
        reveal_strlit("4");
        reveal_strlit("5");
        reveal_strlit("6");
        reveal_strlit("7");
        reveal_strlit("8");
        reveal_strlit("9");
        reveal_strlit("a");
        reveal_strlit("b");
        reveal_strlit("c");
        reveal_strlit("d");
        reveal_strlit("e");
        reveal_strlit("f");
    }
    let s = match n {
        0 => "0",
        1 => "1",
        2 => "2",
        3 => "3",
        4 => "4",
        5 => "5",
        6 => "6",
        7 => "7",
        8 => "8",
        9 => "9",
        10 => "a",
        11 => "b",
        12 => "c",
        13 => "d",
        14 => "e",
        _ => "f",
    };
    assert(s@ =~= seq![hex_char(n)]);
    s
}

/// Appends the two lowercase hex digits of `b`.
pub fn push_byte_hex(s: &mut String, b: u8)
    ensures
        final(s)@ == old(s)@ + byte_hex(b),
{
    s.append(hex_digit_str(b / 16));
    s.append(hex_digit_str(b % 16));
    assert(final(s)@ =~= old(s)@ + byte_hex(b));
}

/// Parses hex digits (with the optional leading `+`) as `from_str_radix(_, 16)`
/// does for a value of at most `chunk.len()` digits.
pub fn parse_hex_bytes(chunk: &[u8]) -> (r: Option<u64>)
    requires
        chunk@.len() <= 8,
    ensures
        match r {
            Some(v) => parse_hex(chunk@) == Some(v as int),
            None => parse_hex(chunk@) is None,
        },
{
    if chunk.len() == 0 {
        return None;
    }
    let start: usize = if chunk[0] == 43 { 1 } else { 0 };
    if start == 1 && chunk.len() == 1 {
        return None;
    }
    let ghost digits = chunk@.skip(start as int);
    let mut acc: u64 = 0;
    let mut i: usize = start;
    while i < chunk.len()
        invariant
            start <= i <= chunk@.len() <= 8,
            chunk@.len() > 0,
            start == 1 <==> chunk@[0] == 43,
            start <= 1,
            start == 1 ==> chunk@.len() > 1,
            digits == chunk@.skip(start as int),
            radix16(digits.take(i - start)) == Some(acc as int),
            acc < pow16(i - start),
        decreases chunk@.len() - i,
    {
        let c = chunk[i];
        let d: u64 = if 48 <= c && c <= 57 {
            (c - 48) as u64
        } else if 97 <= c && c <= 102 {
            (c - 87) as u64
        } else if 65 <= c && c <= 70 {
            (c - 55) as u64
        } else {
            proof {
                assert(digits.take(i - start + 1).drop_last() =~= digits.take(i - start));
                assert(digits[i - start] == c);
                assert(digits.take(i - start + 1).last() == c);
                assert(hex_value(c) is None);
                lemma_radix16_none_extends(digits, i - start + 1);
                if start == 1 {
                    assert(chunk@.skip(1) =~= digits);
                } else {
                    assert(chunk@.skip(0) =~= chunk@);
                }
            }
            return None;
        };
        proof {
            assert(digits.take(i - start + 1).drop_last() =~= digits.take(i - start));
            assert(digits[i - start] == c);
            assert(digits.take(i - start + 1).last() == c);
            lemma_pow16_step(i - start);
        }
        acc = acc * 16 + d;
        i = i + 1;
    }
    proof {
        assert(digits.take(i - start) =~= digits);
        if start == 1 {
            assert(chunk@.skip(1) =~= digits);
        } else {
            assert(chunk@.skip(0) =~= chunk@);
        }
    }
    Some(acc)
}

pub open spec fn pow16(n: int) -> int
    decreases n,
{
    if n <= 0 { 1 } else { 16 * pow16(n - 1) }
}

proof fn lemma_pow16_step(n: int)
    requires
        0 <= n < 8,
    ensures
        pow16(n + 1) == 16 * pow16(n),
        pow16(n + 1) <= 0x1_0000_0000,
{
    lemma_pow16_le8(n + 1);
}

/// A digit sequence with a bad digit at position `n - 1` has no value, nor does any
/// longer sequence extending it.
proof fn lemma_radix16_none_extends(digits: Seq<u8>, n: int)
    requires
        1 <= n <= digits.len(),
        radix16(digits.take(n)) is None,
    ensures
        radix16(digits) is None,
    decreases digits.len() - n,
{
    if n < digits.len() {
        assert(digits.take(n + 1).drop_last() =~= digits.take(n));
        lemma_radix16_none_extends(digits, n + 1);
    } else {
        assert(digits.take(n) =~= digits);
    }
}

/// The Unreal display form of a guid: four little-endian u32 groups, each printed as
/// eight lowercase hex digits, most significant first.
pub open spec fn guid_hex_groups(g: Seq<u8>) -> Seq<char> {
    Seq::new(32, |i: int| {
        let group = i / 8;
        let within = i % 8;
        let b = g[4 * group + 3 - within / 2];
        if within % 2 == 0 { hex_char(b / 16) } else { hex_char(b % 16) }
    })
}

/// A `Guid` as 32 lowercase hex chars, in Unreal's own display convention: four
/// little-endian `u32` groups, each printed big-endian. Palworld names each player's
/// save file after their `PlayerUId` in exactly this form.
pub fn guid_to_hex(guid: &Guid) -> (s: String)
    ensures
        s@ == guid_hex_groups(guid@),
{
    let mut s = String::new();
    let mut group: usize = 0;
    while group < 4
        invariant
            group <= 4,
            guid@.len() == 16,
            s@ =~= guid_hex_groups(guid@).take(8 * group as int),
        decreases 4 - group,
    {
        let mut m: usize = 0;
        while m < 4
            invariant
                group < 4,
                m <= 4,
                guid@.len() == 16,
                s@ =~= guid_hex_groups(guid@).take(8 * group + 2 * m),
            decreases 4 - m,
        {
            let b = guid[4 * group + 3 - m];
            push_byte_hex(&mut s, b);
            proof {
                assert(guid_hex_groups(guid@).take(8 * group + 2 * m + 2) =~= guid_hex_groups(guid@).take(
                    8 * group + 2 * m,
                ) + byte_hex(b));
            }
            m = m + 1;
        }
        group = group + 1;
    }
    s
}

/// The guid whose Unreal display form `hex` is: each 8-character group parsed as a
/// hex u32 and stored little-endian.
pub open spec fn guid_from_hex_groups(hex: Seq<u8>) -> Option<Seq<u8>> {
    if hex.len() != 32 {
        None
    } else {
        let vals = Seq::new(4, |k: int| parse_hex(hex.subrange(8 * k, 8 * k + 8)));
        if exists|k: int| 0 <= k < 4 && #[trigger] vals[k] is None {
            None
        } else {
            Some(Seq::new(16, |i: int| ((vals[i / 4]->0 as u32 >> (8 * (i % 4)) as u32) & 0xff) as u8))
        }
    }
}

/// Inverse of [`guid_to_hex`].
pub fn hex_to_guid(hex: &str) -> (r: Option<Guid>)
    ensures
        match r {
            Some(g) => guid_from_hex_groups(hex.spec_bytes()) == Some(g@),
            None => guid_from_hex_groups(hex.spec_bytes()) is None,
        },
{
    let bytes = hex.as_bytes();
    if bytes.len() != 32 {
        return None;
    }
    let ghost vals = Seq::new(4, |k: int| parse_hex(bytes@.subrange(8 * k, 8 * k + 8)));
    let mut out: Guid = [0u8; 16];
    let mut group: usize = 0;
    while group < 4
        invariant
            group <= 4,
            bytes@.len() == 32,
            bytes@ == hex.spec_bytes(),
            vals == Seq::new(4, |k: int| parse_hex(bytes@.subrange(8 * k, 8 * k + 8))),
            forall|k: int| 0 <= k < group ==> (#[trigger] vals[k]) is Some,
            forall|i: int|
                0 <= i < 4 * group ==> out@[i] == ((vals[i / 4]->0 as u32 >> (8 * (i % 4)) as u32) & 0xff) as u8,
            out@.len() == 16,
        decreases 4 - group,
    {
        let chunk = vstd::slice::slice_subrange(bytes, 8 * group, 8 * group + 8);
        let v = match parse_hex_bytes(chunk) {
            Some(v) => v,
            None => {
                assert(vals[group as int] is None);
                return None;
            },
        };
        proof {
            assert(vals[group as int] == Some(v as int));
            lemma_pow16_bound(chunk@);
        }
        let v32 = v as u32;
        out[4 * group] = (v32 & 0xff) as u8;
        out[4 * group + 1] = ((v32 >> 8) & 0xff) as u8;
        out[4 * group + 2] = ((v32 >> 16) & 0xff) as u8;
        out[4 * group + 3] = ((v32 >> 24) & 0xff) as u8;
        proof {
            assert(v32 & 0xff == (v32 >> 0u32) & 0xff) by (bit_vector);
        }
        group = group + 1;
    }
    proof {
        let expect = Seq::new(16, |i: int| ((vals[i / 4]->0 as u32 >> (8 * (i % 4)) as u32) & 0xff) as u8);
        assert(out@ =~= expect);
    }
    Some(out)
}

/// A parsed group of at most eight digits fits a u32.
proof fn lemma_pow16_bound(chunk: Seq<u8>)
    requires
        chunk.len() <= 8,
        parse_hex(chunk) is Some,
    ensures
        0 <= parse_hex(chunk)->0 < 0x1_0000_0000,
{
    let digits = if chunk[0] == 43 { chunk.skip(1) } else { chunk };
    lemma_radix16_bound(digits);
    lemma_pow16_le8(digits.len() as int);
}

proof fn lemma_radix16_bound(digits: Seq<u8>)
    requires
        radix16(digits) is Some,
    ensures
        0 <= radix16(digits)->0 < pow16(digits.len() as int),
    decreases digits.len(),
{
    if digits.len() > 0 {
        lemma_radix16_bound(digits.drop_last());
        assert(pow16(digits.len() as int) == 16 * pow16(digits.len() - 1));
    }
}

proof fn lemma_pow16_le8(n: int)
    requires
        0 <= n <= 8,
    ensures
        pow16(n) <= 0x1_0000_0000,
{
    reveal_with_fuel(pow16, 9);
}

} // verus!
