//! The one descent every `Level.sav` task shares: reach a named map (or array) under
//! `worldSaveData` and hand back its entries.
//!
//! `GroupSaveDataMap`, `CharacterSaveParameterMap`, `ItemContainerSaveData` and the
//! rest all sit at `worldSaveData.<Name>` and are all `MapProperty`.
//!
//! [`WorldMap`] keeps `world_entry` and `map_entry`: those two are exactly the
//! ancestor chain `crate::edit::replace_property_value` needs to fix up enclosing
//! `size` fields.

use vstd::prelude::*;
use crate::gvas::header::engine_at_least;
use crate::gvas::nav::{Cursor, all_readable, child_path_of, find, find_index, first_named, lemma_materialized_readable, props_readable};
use crate::gvas::property::{tag_end, tag_view_at};
use crate::gvas::value::{StructValue, Value, entry_readable, large_world_coordinates, materialized};
use crate::gvas::{GvasError, GvasFile, PropertyEntry, declares_property_guid, parses, properties_at};
use crate::gvas::header::engine_field_at;
use crate::gvas::primitives::u16_at;
use crate::gvas::value::{property_list_at, property_list_terminator};
use crate::gvas::nav::none_named;

use crate::gvas::error::gvas_message;
use crate::text::push_str;

verus! {

#[derive(Debug)]
pub enum WorldError {
    Gvas(GvasError),
    /// No `worldSaveData` property — this isn't a `Level.sav` (a `Players/*.sav` or
    /// `LevelMeta.sav` will land here, which is expected, not a malformed file).
    NotALevelSave,
    /// `worldSaveData` exists but has no map (or array) by that name, or it didn't
    /// decode as one. Carries the name so the caller can report which one.
    MapNotFound { name: String },
}

/// The human-readable description of each error.
pub open spec fn world_message(e: WorldError) -> Seq<char> {
    match e {
        WorldError::Gvas(g) => gvas_message(g),
        WorldError::NotALevelSave => "this save has no worldSaveData (not a Level.sav)"@,
        WorldError::MapNotFound { name } => "worldSaveData has no map named "@ + name@,
    }
}

impl WorldError {
    /// A one-line, human-readable description.
    pub fn message(&self) -> (r: String)
        ensures
            r@ == world_message(*self),
    {
        match self {
            WorldError::Gvas(g) => g.message(),
            WorldError::NotALevelSave => {
                let mut s = String::new();
                push_str(&mut s, "this save has no worldSaveData (not a Level.sav)");
                s
            },
            WorldError::MapNotFound { name } => {
                let mut s = String::new();
                push_str(&mut s, "worldSaveData has no map named ");
                push_str(&mut s, name.as_str());
                s
            },
        }
    }
}

impl WorldError {
    pub fn code(&self) -> (r: &'static str)
        ensures
            r@ == world_error_code(*self),
    {
        proof {
            reveal_strlit("gvas_parse_failed");
            reveal_strlit("not_a_level_save");
            reveal_strlit("map_not_found");
        }
        match self {
            WorldError::Gvas(_) => "gvas_parse_failed",
            WorldError::NotALevelSave => "not_a_level_save",
            WorldError::MapNotFound { .. } => "map_not_found",
        }
    }
}

/// The stable, machine-readable code of each error.
pub open spec fn world_error_code(e: WorldError) -> Seq<char> {
    match e {
        WorldError::Gvas(_) => seq!['g', 'v', 'a', 's', '_', 'p', 'a', 'r', 's', 'e', '_', 'f', 'a', 'i', 'l', 'e', 'd'],
        WorldError::NotALevelSave => seq!['n', 'o', 't', '_', 'a', '_', 'l', 'e', 'v', 'e', 'l', '_', 's', 'a', 'v', 'e'],
        WorldError::MapNotFound { .. } => seq!['m', 'a', 'p', '_', 'n', 'o', 't', '_', 'f', 'o', 'u', 'n', 'd'],
    }
}

/// One entry of a `worldSaveData` map: the materialized key, and the value's property
/// list.
pub struct MapEntry {
    pub key: Value,
    pub fields: Vec<PropertyEntry>,
}

pub struct WorldMap<'a> {
    /// The top-level `worldSaveData` property. Ancestor chain, element 0.
    pub world_entry: PropertyEntry,
    /// The named map property. Ancestor chain, element 1.
    pub map_entry: PropertyEntry,
    pub entries: Vec<MapEntry>,
    /// Scoped to `worldSaveData.<Name>`, so `cursor.child_path("Value")` and friends
    /// line up with the hint table.
    pub cursor: Cursor<'a>,
}

/// The map entries whose value is a property list, in order, with that list.
pub open spec fn struct_entries(raw: Seq<(Value, Value)>) -> Seq<(Value, Seq<PropertyEntry>)>
    decreases raw.len(),
{
    if raw.len() == 0 {
        Seq::empty()
    } else {
        let prev = struct_entries(raw.drop_last());
        match raw.last().1 {
            Value::Struct(StructValue::Properties(p)) => prev.push((raw.last().0, p@)),
            _ => prev,
        }
    }
}

/// `entries` holds exactly `expected`, in order.
pub open spec fn entries_are(entries: Seq<MapEntry>, expected: Seq<(Value, Seq<PropertyEntry>)>) -> bool {
    &&& entries.len() == expected.len()
    &&& forall|i: int|
        0 <= i < entries.len() ==> (#[trigger] entries[i]).key == expected[i].0 && entries[i].fields@ == expected[i].1
}

/// `v` is what materializing `entry` of `buf` gives, with the path `path`.
#[verifier::opaque]
pub open spec fn decoded_as(buf: Seq<u8>, entry: PropertyEntry, path: Seq<char>, engine_major: u16, g: bool, v: Value) -> bool {
    materialized(
        v,
        buf,
        tag_end(buf, entry.span.start as int, g)->0,
        entry.span.end as int,
        tag_view_at(buf, entry.span.start as int, g),
        path,
        large_world_coordinates(engine_major),
        g,
    )
}

impl<'a> WorldMap<'a> {
    /// Each entry's field list and key (when it is a property list) can be
    /// materialized through the cursor.
    pub open spec fn wf(&self) -> bool {
        forall|i: int|
            0 <= i < self.entries@.len() ==> {
                &&& all_readable(self.cursor.source_view(), (#[trigger] self.entries@[i]).fields@, self.cursor.guid_view())
                &&& props_readable(self.entries@[i].key, self.cursor.source_view(), self.cursor.guid_view())
            }
    }

    /// The ancestor chain for splicing a property inside one of this map's entries:
    /// `[worldSaveData, <map>, <leaf>]`.
    pub fn edit_chain<'e>(&'e self, leaf: &'e PropertyEntry) -> (r: [&'e PropertyEntry; 3])
        ensures
            *r[0] == self.world_entry,
            *r[1] == self.map_entry,
            *r[2] == *leaf,
    {
        [&self.world_entry, &self.map_entry, leaf]
    }
}

/// Moves the entries whose value is a property list out of `raw`, in order.
fn take_struct_entries(raw: Vec<(Value, Value)>, Ghost(buf): Ghost<Seq<u8>>, Ghost(g): Ghost<bool>) -> (out: Vec<MapEntry>)
    requires
        forall|i: int|
            0 <= i < raw@.len() ==> props_readable((#[trigger] raw@[i]).0, buf, g) && props_readable(raw@[i].1, buf, g),
    ensures
        entries_are(out@, struct_entries(raw@)),
        forall|i: int|
            0 <= i < out@.len() ==> {
                &&& all_readable(buf, (#[trigger] out@[i]).fields@, g)
                &&& props_readable(out@[i].key, buf, g)
            },
{
    let ghost orig = raw@;
    let n = raw.len();
    let mut raw = raw;
    let mut rev: Vec<(Value, Value)> = Vec::new();
    while raw.len() > 0
        invariant
            n == orig.len(),
            raw@ == orig.subrange(0, raw@.len() as int),
            rev@.len() == n - raw@.len(),
            forall|j: int| 0 <= j < rev@.len() ==> #[trigger] rev@[j] == orig[n - 1 - j],
        decreases raw@.len(),
    {
        let x = raw.pop().unwrap();
        rev.push(x);
        assert(raw@ =~= orig.subrange(0, raw@.len() as int));
    }
    let mut out: Vec<MapEntry> = Vec::new();
    while rev.len() > 0
        invariant
            n == orig.len(),
            rev@.len() <= n,
            forall|j: int| 0 <= j < rev@.len() ==> #[trigger] rev@[j] == orig[n - 1 - j],
            forall|i: int|
                0 <= i < orig.len() ==> props_readable((#[trigger] orig[i]).0, buf, g) && props_readable(orig[i].1, buf, g),
            entries_are(out@, struct_entries(orig.subrange(0, n - rev@.len()))),
            forall|i: int|
                0 <= i < out@.len() ==> {
                    &&& all_readable(buf, (#[trigger] out@[i]).fields@, g)
                    &&& props_readable(out@[i].key, buf, g)
                },
        decreases rev@.len(),
    {
        let ghost i = n - rev@.len();
        let (key, value) = rev.pop().unwrap();
        assert(orig.subrange(0, i + 1).drop_last() =~= orig.subrange(0, i));
        assert(orig[i] == (key, value));
        match value {
            Value::Struct(StructValue::Properties(fields)) => {
                out.push(MapEntry { key, fields });
            },
            _ => {},
        }
    }
    assert(orig.subrange(0, n as int) =~= orig);
    out
}

/// The engine major version a save's header records.
pub open spec fn engine_of(gvas: Seq<u8>) -> u16 {
    u16_at(gvas, engine_field_at(gvas, 0))
}

/// `top` is the save's top-level property list.
pub open spec fn top_level(gvas: Seq<u8>, top: Seq<PropertyEntry>) -> bool {
    property_list_at(
        gvas,
        top,
        properties_at(gvas),
        property_list_terminator(gvas, properties_at(gvas), declares_property_guid(gvas)),
        declares_property_guid(gvas),
    )
}

/// `children` is the property list held by the save's first top-level `worldSaveData`.
#[verifier::opaque]
pub open spec fn world_children(gvas: Seq<u8>, children: Seq<PropertyEntry>) -> bool {
    exists|top: Seq<PropertyEntry>, i: int, wv: Value|
        #![trigger top_level(gvas, top), first_named(top, "worldSaveData"@, i), decoded_as(gvas, top[i], "worldSaveData"@, engine_of(gvas), declares_property_guid(gvas), wv)]
        {
            &&& top_level(gvas, top)
            &&& first_named(top, "worldSaveData"@, i)
            &&& decoded_as(gvas, top[i], "worldSaveData"@, engine_of(gvas), declares_property_guid(gvas), wv)
            &&& wv matches Value::Struct(StructValue::Properties(c)) && c@ == children
        }
}

/// `w` is the save's first top-level property named `worldSaveData`.
pub open spec fn world_entry_is(gvas: Seq<u8>, w: PropertyEntry) -> bool {
    exists|top: Seq<PropertyEntry>, i: int|
        #![trigger top_level(gvas, top), first_named(top, "worldSaveData"@, i)]
        top_level(gvas, top) && first_named(top, "worldSaveData"@, i) && crate::gvas::nav::same_entry(w, top[i])
}

/// `m` is the first property named `name` in the property list of the save's
/// `worldSaveData`.
pub open spec fn world_child_is(gvas: Seq<u8>, name: Seq<char>, m: PropertyEntry) -> bool {
    exists|children: Seq<PropertyEntry>, mi: int|
        #![trigger world_children(gvas, children), first_named(children, name, mi)]
        world_children(gvas, children) && first_named(children, name, mi) && crate::gvas::nav::same_entry(
            m,
            children[mi],
        )
}

/// The save has no top-level `worldSaveData` property list: it is not a `Level.sav`.
#[verifier::opaque]
pub open spec fn no_world(gvas: Seq<u8>) -> bool {
    exists|top: Seq<PropertyEntry>|
        #![trigger top_level(gvas, top)]
        top_level(gvas, top) && (none_named(top, "worldSaveData"@) || exists|i: int, wv: Value|
            #![trigger first_named(top, "worldSaveData"@, i), decoded_as(gvas, top[i], "worldSaveData"@, engine_of(gvas), declares_property_guid(gvas), wv)]
            first_named(top, "worldSaveData"@, i) && decoded_as(
                gvas,
                top[i],
                "worldSaveData"@,
                engine_of(gvas),
                declares_property_guid(gvas),
                wv,
            ) && !(wv is Struct && wv->Struct_0 is Properties))
}

/// `es` are, in order, the entries with property-list values of the map `name` under
/// the save's `worldSaveData`.
#[verifier::opaque]
pub open spec fn world_map_entries(gvas: Seq<u8>, name: Seq<char>, es: Seq<MapEntry>) -> bool {
    exists|children: Seq<PropertyEntry>, mi: int, v: Value|
        #![trigger world_children(gvas, children), first_named(children, name, mi), decoded_as(gvas, children[mi], child_path_of("worldSaveData"@, name), engine_of(gvas), declares_property_guid(gvas), v)]
        {
            &&& world_children(gvas, children)
            &&& first_named(children, name, mi)
            &&& decoded_as(
                gvas,
                children[mi],
                child_path_of("worldSaveData"@, name),
                engine_of(gvas),
                declares_property_guid(gvas),
                v,
            )
            &&& v matches Value::MapEntries(raw) && entries_are(es, struct_entries(raw@))
        }
}

/// The save's `worldSaveData` has no map named `name`.
#[verifier::opaque]
pub open spec fn no_world_map(gvas: Seq<u8>, name: Seq<char>) -> bool {
    exists|children: Seq<PropertyEntry>|
        #![trigger world_children(gvas, children)]
        world_children(gvas, children) && (none_named(children, name) || exists|mi: int, v: Value|
            #![trigger first_named(children, name, mi), decoded_as(gvas, children[mi], child_path_of("worldSaveData"@, name), engine_of(gvas), declares_property_guid(gvas), v)]
            first_named(children, name, mi) && decoded_as(
                gvas,
                children[mi],
                child_path_of("worldSaveData"@, name),
                engine_of(gvas),
                declares_property_guid(gvas),
                v,
            ) && !(v is MapEntries))
}

proof fn lemma_decoded_same(buf: Seq<u8>, a: PropertyEntry, b: PropertyEntry, path: Seq<char>, engine: u16, g: bool, v: Value)
    requires
        crate::gvas::nav::same_entry(a, b),
        decoded_as(buf, a, path, engine, g, v),
    ensures
        decoded_as(buf, b, path, engine, g, v),
{
    reveal(decoded_as);
}

proof fn lemma_world_children(gvas: Seq<u8>, top: Seq<PropertyEntry>, i: int, wv: Value, children: Seq<PropertyEntry>)
    requires
        top_level(gvas, top),
        first_named(top, "worldSaveData"@, i),
        decoded_as(gvas, top[i], "worldSaveData"@, engine_of(gvas), declares_property_guid(gvas), wv),
        wv matches Value::Struct(StructValue::Properties(c)) && c@ == children,
    ensures
        world_children(gvas, children),
{
    reveal(world_children);
}

proof fn lemma_no_world(gvas: Seq<u8>, top: Seq<PropertyEntry>, i: int, wv: Value)
    requires
        top_level(gvas, top),
        none_named(top, "worldSaveData"@) || (first_named(top, "worldSaveData"@, i) && decoded_as(
            gvas,
            top[i],
            "worldSaveData"@,
            engine_of(gvas),
            declares_property_guid(gvas),
            wv,
        ) && !(wv is Struct && wv->Struct_0 is Properties)),
    ensures
        no_world(gvas),
{
    reveal(no_world);
}

proof fn lemma_no_world_map(gvas: Seq<u8>, children: Seq<PropertyEntry>, name: Seq<char>, mi: int, v: Value)
    requires
        world_children(gvas, children),
        none_named(children, name) || (first_named(children, name, mi) && decoded_as(
            gvas,
            children[mi],
            child_path_of("worldSaveData"@, name),
            engine_of(gvas),
            declares_property_guid(gvas),
            v,
        ) && !(v is MapEntries)),
    ensures
        no_world_map(gvas, name),
{
    reveal(no_world_map);
}

/// `elems` are, in order, the property-list elements of the array `name` under the
/// save's `worldSaveData`.
#[verifier::opaque]
pub open spec fn world_array_elements(gvas: Seq<u8>, name: Seq<char>, elems: Seq<Seq<PropertyEntry>>) -> bool {
    exists|children: Seq<PropertyEntry>, ai: int, items: Vec<Value>|
        #![trigger world_children(gvas, children), first_named(children, name, ai), decoded_as(gvas, children[ai], child_path_of("worldSaveData"@, name), engine_of(gvas), declares_property_guid(gvas), Value::Array(items))]
        {
            &&& world_children(gvas, children)
            &&& first_named(children, name, ai)
            &&& decoded_as(
                gvas,
                children[ai],
                child_path_of("worldSaveData"@, name),
                engine_of(gvas),
                declares_property_guid(gvas),
                Value::Array(items),
            )
            &&& elems == struct_items(items@)
        }
}

/// The save's `worldSaveData` has no array named `name`: no such child, or one whose
/// value is not an array.
#[verifier::opaque]
pub open spec fn no_world_array(gvas: Seq<u8>, name: Seq<char>) -> bool {
    exists|children: Seq<PropertyEntry>|
        #![trigger world_children(gvas, children)]
        world_children(gvas, children) && (none_named(children, name) || exists|mi: int, v: Value|
            #![trigger first_named(children, name, mi), decoded_as(gvas, children[mi], child_path_of("worldSaveData"@, name), engine_of(gvas), declares_property_guid(gvas), v)]
            first_named(children, name, mi) && decoded_as(
                gvas,
                children[mi],
                child_path_of("worldSaveData"@, name),
                engine_of(gvas),
                declares_property_guid(gvas),
                v,
            ) && !(v is Array))
}

proof fn lemma_no_world_array(gvas: Seq<u8>, children: Seq<PropertyEntry>, name: Seq<char>, mi: int, v: Value)
    requires
        world_children(gvas, children),
        none_named(children, name) || (first_named(children, name, mi) && decoded_as(
            gvas,
            children[mi],
            child_path_of("worldSaveData"@, name),
            engine_of(gvas),
            declares_property_guid(gvas),
            v,
        ) && !(v is Array)),
    ensures
        no_world_array(gvas, name),
{
    reveal(no_world_array);
}

proof fn lemma_world_map(gvas: Seq<u8>, children: Seq<PropertyEntry>, name: Seq<char>, mi: int, v: Value, es: Seq<MapEntry>)
    requires
        world_children(gvas, children),
        first_named(children, name, mi),
        decoded_as(gvas, children[mi], child_path_of("worldSaveData"@, name), engine_of(gvas), declares_property_guid(gvas), v),
        v matches Value::MapEntries(raw) && entries_are(es, struct_entries(raw@)),
    ensures
        world_map_entries(gvas, name, es),
{
    reveal(world_map_entries);
}

/// Parses the save and materializes its top-level `worldSaveData`.
fn world_value<'a>(gvas: &'a [u8]) -> (r: Result<(GvasFile<'a>, PropertyEntry, Value), WorldError>)
    ensures
        match r {
            Ok((file, w, v)) => {
                &&& parses(gvas@)
                &&& file.source_view() == gvas@
                &&& file.has_guid() == declares_property_guid(gvas@)
                &&& file.header.engine_version_major == engine_of(gvas@)
                &&& w.name@ == "worldSaveData"@
                &&& props_readable(v, gvas@, file.has_guid())
                &&& top_level(gvas@, file.properties@)
                &&& exists|i: int|
                    first_named(file.properties@, "worldSaveData"@, i) && #[trigger] decoded_as(
                        gvas@,
                        file.properties@[i],
                        "worldSaveData"@,
                        engine_of(gvas@),
                        declares_property_guid(gvas@),
                        v,
                    ) && crate::gvas::nav::same_entry(w, file.properties@[i])
            },
            Err(WorldError::Gvas(e)) => !parses(gvas@) && e == crate::gvas::parse_failure(gvas@),
            Err(WorldError::NotALevelSave) => parses(gvas@) && no_world(gvas@),
            Err(WorldError::MapNotFound { .. }) => false,
        },
{
    let file = match GvasFile::parse(gvas) {
        Ok(f) => f,
        Err(e) => {
            return Err(WorldError::Gvas(e));
        },
    };
    let world_idx = match find_index(file.properties.as_slice(), "worldSaveData") {
        Some(i) => i,
        None => {
            proof {
                lemma_no_world(gvas@, file.properties@, 0, Value::Bool(false));
            }
            return Err(WorldError::NotALevelSave);
        },
    };
    let world_entry = file.properties[world_idx].duplicate();
    let world_value = match file.materialize(world_idx) {
        Ok(v) => v,
        Err(e) => {
            return Err(WorldError::Gvas(e));
        },
    };
    proof {
        let e = file.properties@[world_idx as int];
        let s = e.span.start as int;
        lemma_materialized_readable(
            world_value,
            gvas@,
            tag_end(gvas@, s, file.has_guid())->0,
            e.span.end as int,
            tag_view_at(gvas@, s, file.has_guid()),
            e.name@,
            large_world_coordinates(file.header.engine_version_major),
            file.has_guid(),
        );
        reveal(decoded_as);
        assert(decoded_as(gvas@, e, "worldSaveData"@, engine_of(gvas@), declares_property_guid(gvas@), world_value));
    }
    Ok((file, world_entry, world_value))
}

/// Materializes a map property through `cursor` and keeps the entries whose value is
/// a property list; `None` when the value is not a map.
fn read_map_entries(cursor: &Cursor, entry: &PropertyEntry) -> (r: Option<Vec<MapEntry>>)
    requires
        entry_readable(cursor.source_view(), *entry, cursor.guid_view()),
    ensures
        exists|v: Value| {
            &&& decoded_as(
                cursor.source_view(),
                *entry,
                child_path_of(cursor.path_view(), entry.name@),
                cursor.engine_major_view(),
                cursor.guid_view(),
                v,
            )
            &&& match r {
                Some(es) => v matches Value::MapEntries(raw) && entries_are(es@, struct_entries(raw@)),
                None => !(v is MapEntries),
            }
        },
        r matches Some(es) ==> forall|i: int|
            0 <= i < es@.len() ==> {
                &&& all_readable(cursor.source_view(), (#[trigger] es@[i]).fields@, cursor.guid_view())
                &&& props_readable(es@[i].key, cursor.source_view(), cursor.guid_view())
            },
{
    let value = match cursor.materialize(entry) {
        Ok(v) => v,
        Err(_) => {
            assert(false);
            return None;
        },
    };
    let ghost mv = value;
    proof {
        let buf = cursor.source_view();
        let g = cursor.guid_view();
        let s = entry.span.start as int;
        lemma_materialized_readable(
            value,
            buf,
            tag_end(buf, s, g)->0,
            entry.span.end as int,
            tag_view_at(buf, s, g),
            child_path_of(cursor.path_view(), entry.name@),
            large_world_coordinates(cursor.engine_major_view()),
            g,
        );
        reveal(decoded_as);
        assert(decoded_as(
            buf,
            *entry,
            child_path_of(cursor.path_view(), entry.name@),
            cursor.engine_major_view(),
            g,
            mv,
        ));
    }
    match value {
        Value::MapEntries(raw) => Some(take_struct_entries(raw, Ghost(cursor.source_view()), Ghost(cursor.guid_view()))),
        _ => None,
    }
}

/// Walks `worldSaveData.<map_name>` and materializes its entries.
///
/// Entries whose value isn't a property list are skipped rather than erroring: a map
/// that partly fails to decode still yields the parts that worked.
pub fn open_map<'a>(gvas: &'a [u8], map_name: &str) -> (r: Result<WorldMap<'a>, WorldError>)
    ensures
        match r {
            Ok(m) => {
                &&& parses(gvas@)
                &&& m.wf()
                &&& m.cursor.source_view() == gvas@
                &&& m.cursor.guid_view() == declares_property_guid(gvas@)
                &&& m.cursor.path_view() == child_path_of("worldSaveData"@, map_name@)
                &&& m.world_entry.name@ == "worldSaveData"@
                &&& m.map_entry.name@ == map_name@
                &&& exists|v: Value| {
                    &&& decoded_as(
                        gvas@,
                        m.map_entry,
                        child_path_of("worldSaveData"@, map_name@),
                        m.cursor.engine_major_view(),
                        m.cursor.guid_view(),
                        v,
                    )
                    &&& v matches Value::MapEntries(raw) && entries_are(m.entries@, struct_entries(raw@))
                }
                &&& m.cursor.engine_major_view() == engine_of(gvas@)
                &&& world_map_entries(gvas@, map_name@, m.entries@)
                &&& world_entry_is(gvas@, m.world_entry)
                &&& world_child_is(gvas@, map_name@, m.map_entry)
            },
            Err(WorldError::Gvas(e)) => !parses(gvas@) && e == crate::gvas::parse_failure(gvas@),
            Err(WorldError::NotALevelSave) => parses(gvas@) && no_world(gvas@),
            Err(WorldError::MapNotFound { name }) => parses(gvas@) && name@ == map_name@ && no_world_map(gvas@, map_name@),
        },
{
    let (file, world_entry, world) = world_value(gvas)?;
    let ghost wv = world;
    let ghost wi = choose|i: int|
        first_named(file.properties@, "worldSaveData"@, i) && #[trigger] decoded_as(
            gvas@,
            file.properties@[i],
            "worldSaveData"@,
            engine_of(gvas@),
            declares_property_guid(gvas@),
            wv,
        ) && crate::gvas::nav::same_entry(world_entry, file.properties@[i]);
    let world_children = match world.as_properties() {
        Some(c) => c,
        None => {
            proof {
                lemma_no_world(gvas@, file.properties@, wi, wv);
            }
            return Err(WorldError::NotALevelSave);
        },
    };
    proof {
        lemma_world_children(gvas@, file.properties@, wi, wv, world_children@);
    }
    let mi = match find_index(world_children, map_name) {
        Some(i) => i,
        None => {
            proof {
                lemma_no_world_map(gvas@, world_children@, map_name@, 0, Value::Bool(false));
            }
            return Err(WorldError::MapNotFound { name: String::from_str(map_name) });
        },
    };
    let map_entry = world_children[mi].duplicate();
    let root = Cursor::new(gvas, &file.header);
    let world_cursor = root.rebase(gvas, "worldSaveData");
    proof {
        assert(all_readable(gvas@, world_children@, file.has_guid()));
        assert(entry_readable(gvas@, world_children@[mi as int], file.has_guid()));
    }
    let entries = read_map_entries(&world_cursor, &map_entry);
    let ghost mv = choose|v: Value| {
        &&& decoded_as(
            gvas@,
            map_entry,
            child_path_of(world_cursor.path_view(), map_entry.name@),
            world_cursor.engine_major_view(),
            world_cursor.guid_view(),
            v,
        )
        &&& match entries {
            Some(es) => v matches Value::MapEntries(raw) && entries_are(es@, struct_entries(raw@)),
            None => !(v is MapEntries),
        }
    };
    proof {
        lemma_decoded_same(
            gvas@,
            map_entry,
            world_children@[mi as int],
            child_path_of("worldSaveData"@, map_name@),
            engine_of(gvas@),
            declares_property_guid(gvas@),
            mv,
        );
    }
    let entries = match entries {
        Some(es) => es,
        None => {
            proof {
                lemma_no_world_map(gvas@, world_children@, map_name@, mi as int, mv);
            }
            return Err(WorldError::MapNotFound { name: String::from_str(map_name) });
        },
    };
    proof {
        lemma_world_map(gvas@, world_children@, map_name@, mi as int, mv, entries@);
    }
    let path = world_cursor.child_path(map_name);
    let cursor = root.rebase(gvas, path.as_str());
    let m = WorldMap { world_entry, map_entry, entries, cursor };
    assert(world_entry_is(gvas@, m.world_entry)) by {
        assert(top_level(gvas@, file.properties@) && first_named(file.properties@, "worldSaveData"@, wi));
    }
    assert(world_child_is(gvas@, map_name@, m.map_entry)) by {
        assert(self::world_children(gvas@, world_children@) && first_named(world_children@, map_name@, mi as int));
    }
    assert(m.wf());
    assert(m.cursor.guid_view() == declares_property_guid(gvas@));
    assert(m.cursor.path_view() == child_path_of("worldSaveData"@, map_name@));
    assert(m.map_entry.name@ == map_name@);
    Ok(m)
}

/// Materializes `entry` of `source` with the dotted path `path`.
pub(crate) fn materialize_at(source: &[u8], entry: &PropertyEntry, engine_major: u16, g: bool, path: &str) -> (v: Value)
    requires
        entry_readable(source@, *entry, g),
    ensures
        decoded_as(source@, *entry, path@, engine_major, g, v),
        props_readable(v, source@, g),
        v matches Value::Array(items) ==> forall|i: int|
            0 <= i < items@.len() ==> props_readable(#[trigger] items@[i], source@, g),
{
    let r = crate::gvas::value::materialize_property(source, entry, engine_major, g, path);
    match r {
        Ok(v) => {
            proof {
                reveal(decoded_as);
                let s = entry.span.start as int;
                lemma_materialized_readable(
                    v,
                    source@,
                    tag_end(source@, s, g)->0,
                    entry.span.end as int,
                    tag_view_at(source@, s, g),
                    path@,
                    large_world_coordinates(engine_major),
                    g,
                );
            }
            v
        },
        Err(_) => {
            assert(false);
            Value::Bool(false)
        },
    }
}

/// An array of structs under `worldSaveData`: each element's property list, in
/// order, with a cursor scoped to `worldSaveData.<Name>`.
pub struct WorldArray<'a> {
    pub world_entry: PropertyEntry,
    pub array_entry: PropertyEntry,
    pub elements: Vec<Vec<PropertyEntry>>,
    pub cursor: Cursor<'a>,
}

impl<'a> WorldArray<'a> {
    /// Each element's property list can be materialized through the cursor.
    pub open spec fn wf(&self) -> bool {
        forall|i: int|
            0 <= i < self.elements@.len() ==> all_readable(
                self.cursor.source_view(),
                (#[trigger] self.elements@[i])@,
                self.cursor.guid_view(),
            )
    }
}

/// The property lists of the items that are property lists, in order.
pub open spec fn struct_items(items: Seq<Value>) -> Seq<Seq<PropertyEntry>>
    decreases items.len(),
{
    if items.len() == 0 {
        Seq::empty()
    } else {
        let prev = struct_items(items.drop_last());
        match items.last() {
            Value::Struct(StructValue::Properties(p)) => prev.push(p@),
            _ => prev,
        }
    }
}

/// Moves the property lists out of `items`, in order.
fn take_struct_items(items: Vec<Value>, Ghost(buf): Ghost<Seq<u8>>, Ghost(g): Ghost<bool>) -> (out: Vec<Vec<PropertyEntry>>)
    requires
        forall|i: int| 0 <= i < items@.len() ==> props_readable(#[trigger] items@[i], buf, g),
    ensures
        out@.len() == struct_items(items@).len(),
        forall|i: int| 0 <= i < out@.len() ==> (#[trigger] out@[i])@ == struct_items(items@)[i],
        forall|i: int| 0 <= i < out@.len() ==> all_readable(buf, (#[trigger] out@[i])@, g),
{
    let ghost orig = items@;
    let n = items.len();
    let mut items = items;
    let mut rev: Vec<Value> = Vec::new();
    while items.len() > 0
        invariant
            n == orig.len(),
            items@ == orig.subrange(0, items@.len() as int),
            rev@.len() == n - items@.len(),
            forall|j: int| 0 <= j < rev@.len() ==> #[trigger] rev@[j] == orig[n - 1 - j],
        decreases items@.len(),
    {
        let x = items.pop().unwrap();
        rev.push(x);
        assert(items@ =~= orig.subrange(0, items@.len() as int));
    }
    let mut out: Vec<Vec<PropertyEntry>> = Vec::new();
    while rev.len() > 0
        invariant
            n == orig.len(),
            rev@.len() <= n,
            forall|j: int| 0 <= j < rev@.len() ==> #[trigger] rev@[j] == orig[n - 1 - j],
            forall|i: int| 0 <= i < orig.len() ==> props_readable(#[trigger] orig[i], buf, g),
            out@.len() == struct_items(orig.subrange(0, n - rev@.len())).len(),
            forall|i: int|
                0 <= i < out@.len() ==> (#[trigger] out@[i])@ == struct_items(orig.subrange(0, n - rev@.len()))[i],
            forall|i: int| 0 <= i < out@.len() ==> all_readable(buf, (#[trigger] out@[i])@, g),
        decreases rev@.len(),
    {
        let ghost i = n - rev@.len();
        let item = rev.pop().unwrap();
        assert(orig.subrange(0, i + 1).drop_last() =~= orig.subrange(0, i));
        assert(orig[i] == item);
        match item {
            Value::Struct(StructValue::Properties(fields)) => {
                out.push(fields);
            },
            _ => {},
        }
    }
    assert(orig.subrange(0, n as int) =~= orig);
    out
}

/// Walks `worldSaveData.<array_name>` and keeps the elements that are property
/// lists. An array whose elements are not structs yields no elements.
pub fn open_array<'a>(gvas: &'a [u8], array_name: &str) -> (r: Result<WorldArray<'a>, WorldError>)
    ensures
        match r {
            Ok(a) => {
                &&& parses(gvas@)
                &&& a.wf()
                &&& a.cursor.source_view() == gvas@
                &&& a.cursor.guid_view() == declares_property_guid(gvas@)
                &&& a.cursor.path_view() == child_path_of("worldSaveData"@, array_name@)
                &&& a.world_entry.name@ == "worldSaveData"@
                &&& a.array_entry.name@ == array_name@
                &&& a.cursor.engine_major_view() == engine_of(gvas@)
                &&& world_array_elements(gvas@, array_name@, a.elements@.map_values(|e: Vec<PropertyEntry>| e@))
            },
            Err(WorldError::Gvas(e)) => !parses(gvas@) && e == crate::gvas::parse_failure(gvas@),
            Err(WorldError::NotALevelSave) => parses(gvas@) && no_world(gvas@),
            Err(WorldError::MapNotFound { name }) => parses(gvas@) && name@ == array_name@ && no_world_array(
                gvas@,
                array_name@,
            ),
        },
{
    let (file, world_entry, world) = world_value(gvas)?;
    let ghost wv = world;
    let ghost wi = choose|i: int|
        first_named(file.properties@, "worldSaveData"@, i) && #[trigger] decoded_as(
            gvas@,
            file.properties@[i],
            "worldSaveData"@,
            engine_of(gvas@),
            declares_property_guid(gvas@),
            wv,
        ) && crate::gvas::nav::same_entry(world_entry, file.properties@[i]);
    let world_children = match world.as_properties() {
        Some(c) => c,
        None => {
            proof {
                lemma_no_world(gvas@, file.properties@, wi, wv);
            }
            return Err(WorldError::NotALevelSave);
        },
    };
    proof {
        lemma_world_children(gvas@, file.properties@, wi, wv, world_children@);
    }
    let ai = match find_index(world_children, array_name) {
        Some(i) => i,
        None => {
            proof {
                lemma_no_world_array(gvas@, world_children@, array_name@, 0, Value::Bool(false));
            }
            return Err(WorldError::MapNotFound { name: String::from_str(array_name) });
        },
    };
    let array_entry = world_children[ai].duplicate();
    let root = Cursor::new(gvas, &file.header);
    let world_cursor = root.rebase(gvas, "worldSaveData");
    proof {
        assert(all_readable(gvas@, world_children@, file.has_guid()));
        assert(entry_readable(gvas@, world_children@[ai as int], file.has_guid()));
    }
    let path = world_cursor.child_path(array_name);
    let value = materialize_at(gvas, &array_entry, file.header.engine_version_major, file.header.has_property_guid(), path.as_str());
    let ghost av = value;
    proof {
        lemma_decoded_same(
            gvas@,
            array_entry,
            world_children@[ai as int],
            child_path_of("worldSaveData"@, array_name@),
            engine_of(gvas@),
            declares_property_guid(gvas@),
            av,
        );
    }
    let items = match value {
        Value::Array(items) => items,
        _ => {
            proof {
                lemma_no_world_array(gvas@, world_children@, array_name@, ai as int, av);
            }
            return Err(WorldError::MapNotFound { name: String::from_str(array_name) });
        },
    };
    let ghost item_values = items@;
    let elements = take_struct_items(items, Ghost(gvas@), Ghost(file.has_guid()));
    proof {
        reveal(world_array_elements);
        assert(elements@.map_values(|e: Vec<PropertyEntry>| e@) =~= struct_items(item_values));
        assert(av == Value::Array(items));
    }
    let cursor = root.rebase(gvas, path.as_str());
    let a = WorldArray { world_entry, array_entry, elements, cursor };
    assert(a.wf());
    Ok(a)
}

} // verus!
