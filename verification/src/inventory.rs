//! A player's inventories, joined across two save files.
//!
//! `Level.sav` holds every item container in the world but says nothing about which
//! belongs to whom. The mapping lives in the player's own `Players/<uid>.sav`, under
//! `SaveData.InventoryInfo`, where each container kind is a struct wrapping an `ID`
//! guid — exactly the key of the `worldSaveData.ItemContainerSaveData` map. Ids are
//! read from the player's own file and then looked up, never guessed from the
//! container side. Read-only.

use vstd::prelude::*;
use crate::gvas::nav::{
    Cursor, all_readable, child_path_of, find_index, first_named, guid_hex_groups, guid_to_hex, lemma_materialized_readable,
    none_named, props_readable,
};
use crate::gvas::primitives::{Guid, guid_eq};
use crate::gvas::property::{tag_end, tag_view_at};
use crate::gvas::value::{StructValue, Value, entry_readable, large_world_coordinates};
use crate::gvas::{GvasError, GvasFile, PropertyEntry, declares_property_guid, parses, properties_at};
use crate::gvas::header::engine_field_at;
use crate::gvas::primitives::{fstring_view_at, i32_at, u16_at};
use crate::rawdata::item_container::item_slot_end;
use crate::gvas::value::{property_list_at, property_list_terminator};
use crate::gvas::nav::same_entries;
use crate::rawdata::error::RawDataError;
use crate::rawdata::item_container;
use crate::world::{self, WorldError, MapEntry, engine_of, world_map_entries};

use crate::gvas::error::gvas_message;
use crate::rawdata::error::raw_data_message;
use crate::world::world_message;
use crate::text::push_str;

verus! {

pub const ITEM_CONTAINER_MAP: &'static str = "ItemContainerSaveData";

/// The `worldSaveData` map holding Pal containers (a Pal box, the party).
pub const PAL_CONTAINER_MAP: &'static str = "CharacterContainerSaveData";

/// The `worldSaveData` array holding per-item dynamic state.
pub const DYNAMIC_ITEM_ARRAY: &'static str = "DynamicItemSaveData";

#[derive(Debug, Clone, Copy, PartialEq, Eq)]
pub enum ContainerKind {
    Common,
    Essential,
    Weapon,
    Armor,
    Food,
    DropSlot,
}

/// The container kinds reachable from a player's `SaveData`, in the order a UI
/// should show them, each with its property name under `InventoryInfo`.
pub const CONTAINER_KINDS: [(ContainerKind, &'static str); 6] = [
    (ContainerKind::Common, "CommonContainerId"),
    (ContainerKind::Essential, "EssentialContainerId"),
    (ContainerKind::Weapon, "WeaponLoadOutContainerId"),
    (ContainerKind::Armor, "PlayerEquipArmorContainerId"),
    (ContainerKind::Food, "FoodEquipContainerId"),
    (ContainerKind::DropSlot, "DropSlotContainerId"),
];

impl ContainerKind {
    /// Stable identifier for the wasm boundary and the UI. Not localized.
    pub fn as_str(self) -> (r: &'static str)
        ensures
            r@ == kind_name(self),
    {
        match self {
            ContainerKind::Common => "common",
            ContainerKind::Essential => "essential",
            ContainerKind::Weapon => "weapon",
            ContainerKind::Armor => "armor",
            ContainerKind::Food => "food",
            ContainerKind::DropSlot => "drop_slot",
        }
    }
}

pub open spec fn kind_name(k: ContainerKind) -> Seq<char> {
    match k {
        ContainerKind::Common => "common"@,
        ContainerKind::Essential => "essential"@,
        ContainerKind::Weapon => "weapon"@,
        ContainerKind::Armor => "armor"@,
        ContainerKind::Food => "food"@,
        ContainerKind::DropSlot => "drop_slot"@,
    }
}

#[derive(Debug)]
pub enum InventoryError {
    World(WorldError),
    Gvas(GvasError),
    RawData(RawDataError),
    /// The file handed in as a player save has no `SaveData.InventoryInfo` — almost
    /// always because it's a `Level.sav`, not a player file.
    NotAPlayerSave,
}

/// The human-readable description of each error.
pub open spec fn inventory_message(e: InventoryError) -> Seq<char> {
    match e {
        InventoryError::World(w) => world_message(w),
        InventoryError::Gvas(g) => gvas_message(g),
        InventoryError::RawData(r) => raw_data_message(r),
        InventoryError::NotAPlayerSave => "this save has no SaveData.InventoryInfo (not a player save)"@,
    }
}

impl InventoryError {
    /// A one-line, human-readable description.
    pub fn message(&self) -> (r: String)
        ensures
            r@ == inventory_message(*self),
    {
        match self {
            InventoryError::World(w) => w.message(),
            InventoryError::Gvas(g) => g.message(),
            InventoryError::RawData(r) => r.message(),
            InventoryError::NotAPlayerSave => {
                let mut s = String::new();
                push_str(&mut s, "this save has no SaveData.InventoryInfo (not a player save)");
                s
            },
        }
    }
}

/// The machine-readable code of each inventory error.
pub open spec fn inventory_error_code(e: InventoryError) -> Seq<char> {
    match e {
        InventoryError::World(w) => world::world_error_code(w),
        InventoryError::Gvas(_) => "gvas_parse_failed"@,
        InventoryError::RawData(_) => "rawdata_decode_failed"@,
        InventoryError::NotAPlayerSave => "not_a_player_save"@,
    }
}

impl InventoryError {
    pub fn code(&self) -> (r: &'static str)
        ensures
            r@ == inventory_error_code(*self),
    {
        match self {
            InventoryError::World(e) => e.code(),
            InventoryError::Gvas(_) => "gvas_parse_failed",
            InventoryError::RawData(_) => "rawdata_decode_failed",
            InventoryError::NotAPlayerSave => "not_a_player_save",
        }
    }
}

#[derive(Debug, Clone, PartialEq, Eq)]
pub struct SlotView {
    pub slot_index: i32,
    pub count: i32,
    /// Item id as the game stores it, e.g. `Wood`.
    pub static_id: Option<String>,
}

#[derive(Debug, Clone, PartialEq, Eq)]
pub struct ContainerView {
    pub kind: ContainerKind,
    pub id: String,
    /// Declared capacity (`SlotNum`), larger than `slots.len()` because empty slots
    /// aren't listed.
    pub slot_count: i32,
    /// Occupied slots only, in slot order.
    pub slots: Vec<SlotView>,
    /// The player's file named a container id that no entry in `Level.sav` matches.
    pub missing: bool,
}

#[derive(Debug, Clone, PartialEq, Eq)]
pub struct PlayerInventory {
    pub player_uid: String,
    pub containers: Vec<ContainerView>,
}

// ---------------------------------------------------------------------------
// The player's file
// ---------------------------------------------------------------------------

/// The first property named `name` in `props` materializes through `c` to `v`.
pub open spec fn named_value(c: Cursor, props: Seq<PropertyEntry>, name: Seq<char>, v: Value) -> bool {
    exists|i: int| first_named(props, name, i) && c.materializes(props[i], v)
}

/// `name` in `props` reads through `c` as a struct whose `ID` reads as `g`.
pub open spec fn container_id_is(c: Cursor, props: Seq<PropertyEntry>, name: Seq<char>, g: Guid) -> bool {
    exists|v: Value| named_value(c, props, name, v) && id_field_is(c, v, g)
}

/// `v` is a property list whose `ID` reads as the guid `g`.
pub open spec fn id_field_is(c: Cursor, v: Value, g: Guid) -> bool {
    v matches Value::Struct(StructValue::Properties(p)) && named_value(
        c,
        p@,
        "ID"@,
        Value::Struct(StructValue::Guid(g)),
    )
}

/// `c` reads the save `gvas` with the save's own decode settings, at `path`.
spec fn cursor_over(gvas: Seq<u8>, c: Cursor, path: Seq<char>) -> bool {
    &&& c.source_view() == gvas
    &&& c.engine_major_view() == u16_at(gvas, engine_field_at(gvas, 0))
    &&& c.guid_view() == declares_property_guid(gvas)
    &&& c.path_view() == path
}

/// `sp` is, entry for entry, the property list held by the top-level `SaveData`
/// property of the save `gvas`.
#[verifier::opaque]
spec fn save_data_read(gvas: Seq<u8>, sp: Seq<PropertyEntry>) -> bool {
    exists|top: Seq<PropertyEntry>, root: Cursor, v: Value|
        #![trigger property_list_at(gvas, top, properties_at(gvas), property_list_terminator(gvas, properties_at(gvas), declares_property_guid(gvas)), declares_property_guid(gvas)), named_value(root, top, "SaveData"@, v)]
        {
            &&& property_list_at(
                gvas,
                top,
                properties_at(gvas),
                property_list_terminator(gvas, properties_at(gvas), declares_property_guid(gvas)),
                declares_property_guid(gvas),
            )
            &&& cursor_over(gvas, root, Seq::empty())
            &&& named_value(root, top, "SaveData"@, v)
            &&& v matches Value::Struct(StructValue::Properties(p)) && same_entries(sp, p@)
        }
}

/// `v` is what the field `name` of the player save's `SaveData` reads as.
#[verifier::opaque]
pub closed spec fn save_data_field(gvas: Seq<u8>, name: Seq<char>, v: Value) -> bool {
    exists|sp: Seq<PropertyEntry>, c: Cursor|
        save_data_read(gvas, sp) && cursor_over(gvas, c, "SaveData"@) && #[trigger] named_value(c, sp, name, v)
}

/// The `name` container id of the player save's `SaveData` is the guid `g`: the field
/// is a struct whose `ID` reads as `g`.
#[verifier::opaque]
pub closed spec fn save_data_id(gvas: Seq<u8>, name: Seq<char>, g: Guid) -> bool {
    exists|sp: Seq<PropertyEntry>, c: Cursor|
        save_data_read(gvas, sp) && cursor_over(gvas, c, "SaveData"@) && #[trigger] container_id_is(c, sp, name, g)
}

/// The `name` container id under the player save's `SaveData.InventoryInfo` is `g`.
#[verifier::opaque]
pub closed spec fn inventory_info_id(gvas: Seq<u8>, name: Seq<char>, g: Guid) -> bool {
    exists|ip: Seq<PropertyEntry>, info: Value, c: Cursor|
        #![trigger save_data_field(gvas, "InventoryInfo"@, info), container_id_is(c, ip, name, g)]
        save_data_field(gvas, "InventoryInfo"@, info) && cursor_over(gvas, c, "SaveData.InventoryInfo"@) && (
        info matches Value::Struct(StructValue::Properties(p)) && p@ == ip) && container_id_is(c, ip, name, g)
}

proof fn lemma_save_data_field(gvas: Seq<u8>, sp: Seq<PropertyEntry>, c: Cursor, name: Seq<char>, v: Value)
    requires
        save_data_read(gvas, sp),
        cursor_over(gvas, c, "SaveData"@),
        named_value(c, sp, name, v),
    ensures
        save_data_field(gvas, name, v),
{
    reveal(save_data_field);
}

proof fn lemma_save_data_id(gvas: Seq<u8>, sp: Seq<PropertyEntry>, c: Cursor, name: Seq<char>, g: Guid)
    requires
        save_data_read(gvas, sp),
        cursor_over(gvas, c, "SaveData"@),
        container_id_is(c, sp, name, g),
    ensures
        save_data_id(gvas, name, g),
{
    reveal(save_data_id);
}

proof fn lemma_inventory_info_id(gvas: Seq<u8>, info: Value, ip: Seq<PropertyEntry>, c: Cursor, name: Seq<char>, g: Guid)
    requires
        save_data_field(gvas, "InventoryInfo"@, info),
        cursor_over(gvas, c, "SaveData.InventoryInfo"@),
        info matches Value::Struct(StructValue::Properties(p)) && p@ == ip,
        container_id_is(c, ip, name, g),
    ensures
        inventory_info_id(gvas, name, g),
{
    reveal(inventory_info_id);
}

/// The player save has no top-level `SaveData` property list.
#[verifier::opaque]
pub closed spec fn no_save_data(gvas: Seq<u8>) -> bool {
    exists|top: Seq<PropertyEntry>, root: Cursor|
        #![trigger property_list_at(gvas, top, properties_at(gvas), property_list_terminator(gvas, properties_at(gvas), declares_property_guid(gvas)), declares_property_guid(gvas)), cursor_over(gvas, root, Seq::empty())]
        {
            &&& property_list_at(
                gvas,
                top,
                properties_at(gvas),
                property_list_terminator(gvas, properties_at(gvas), declares_property_guid(gvas)),
                declares_property_guid(gvas),
            )
            &&& cursor_over(gvas, root, Seq::empty())
            &&& (none_named(top, "SaveData"@) || exists|v: Value|
                #[trigger] named_value(root, top, "SaveData"@, v) && !(v is Struct && v->Struct_0 is Properties))
        }
}

/// The player save's `SaveData` has no `InventoryInfo` property list.
#[verifier::opaque]
pub closed spec fn no_inventory_info(gvas: Seq<u8>) -> bool {
    exists|sp: Seq<PropertyEntry>, c: Cursor|
        #![trigger save_data_read(gvas, sp), cursor_over(gvas, c, "SaveData"@)]
        save_data_read(gvas, sp) && cursor_over(gvas, c, "SaveData"@) && (none_named(sp, "InventoryInfo"@)
            || exists|v: Value|
            #[trigger] named_value(c, sp, "InventoryInfo"@, v) && !(v is Struct && v->Struct_0 is Properties))
}

/// The player save's `SaveData` has no `PlayerUId` guid.
#[verifier::opaque]
pub closed spec fn no_player_uid(gvas: Seq<u8>) -> bool {
    exists|sp: Seq<PropertyEntry>, c: Cursor|
        #![trigger save_data_read(gvas, sp), cursor_over(gvas, c, "SaveData"@)]
        save_data_read(gvas, sp) && cursor_over(gvas, c, "SaveData"@) && (none_named(sp, "PlayerUId"@)
            || exists|v: Value|
            #[trigger] named_value(c, sp, "PlayerUId"@, v) && !(v is Struct && v->Struct_0 is Guid))
}

/// The `name` container id of the player save's `SaveData` is absent or unreadable.
#[verifier::opaque]
pub closed spec fn save_data_id_absent(gvas: Seq<u8>, name: Seq<char>) -> bool {
    exists|sp: Seq<PropertyEntry>, c: Cursor|
        save_data_read(gvas, sp) && cursor_over(gvas, c, "SaveData"@) && #[trigger] container_id_absent(c, sp, name)
}

/// The `name` container id under `SaveData.InventoryInfo` is absent or unreadable.
#[verifier::opaque]
pub closed spec fn inventory_info_absent(gvas: Seq<u8>, name: Seq<char>) -> bool {
    exists|ip: Seq<PropertyEntry>, info: Value, c: Cursor|
        #![trigger save_data_field(gvas, "InventoryInfo"@, info), container_id_absent(c, ip, name)]
        save_data_field(gvas, "InventoryInfo"@, info) && cursor_over(gvas, c, "SaveData.InventoryInfo"@) && (
        info matches Value::Struct(StructValue::Properties(p)) && p@ == ip) && container_id_absent(c, ip, name)
}

/// The id found for `property`, under `InventoryInfo` when `in_info`, else directly
/// under `SaveData`.
pub open spec fn id_found(gvas: Seq<u8>, in_info: bool, property: Seq<char>, g: Guid) -> bool {
    if in_info {
        inventory_info_id(gvas, property, g)
    } else {
        save_data_id(gvas, property, g)
    }
}

/// No id for `property` is found.
pub open spec fn id_missing(gvas: Seq<u8>, in_info: bool, property: Seq<char>) -> bool {
    if in_info {
        inventory_info_absent(gvas, property)
    } else {
        save_data_id_absent(gvas, property)
    }
}

/// `ids` lists, in the order of `wanted` (label, property) pairs, each label with the
/// id found for its property, skipping those whose id is missing.
pub open spec fn listed_ids(
    gvas: Seq<u8>,
    in_info: bool,
    wanted: Seq<(Seq<char>, Seq<char>)>,
    ids: Seq<(&'static str, Guid)>,
) -> bool
    decreases wanted.len(),
{
    if wanted.len() == 0 {
        ids.len() == 0
    } else {
        let w = wanted.last();
        ||| ids.len() > 0 && ids.last().0@ == w.0 && id_found(gvas, in_info, w.1, ids.last().1) && listed_ids(
            gvas,
            in_info,
            wanted.drop_last(),
            ids.drop_last(),
        )
        ||| id_missing(gvas, in_info, w.1) && listed_ids(gvas, in_info, wanted.drop_last(), ids)
    }
}

/// The inventory kinds by name, as a map keyed by kind name orders them, each with its
/// property under `InventoryInfo`.
pub open spec fn kinds_by_name() -> Seq<(Seq<char>, Seq<char>)> {
    seq![
        ("armor"@, "PlayerEquipArmorContainerId"@),
        ("common"@, "CommonContainerId"@),
        ("drop_slot"@, "DropSlotContainerId"@),
        ("essential"@, "EssentialContainerId"@),
        ("food"@, "FoodEquipContainerId"@),
        ("weapon"@, "WeaponLoadOutContainerId"@),
    ]
}

/// The Pal containers by name, each with its property under `SaveData`.
pub open spec fn pal_containers_by_name() -> Seq<(Seq<char>, Seq<char>)> {
    seq![("otomo"@, "OtomoCharacterContainerId"@), ("pal_storage"@, "PalStorageContainerId"@)]
}

proof fn lemma_save_data_id_absent(gvas: Seq<u8>, sp: Seq<PropertyEntry>, c: Cursor, name: Seq<char>)
    requires
        save_data_read(gvas, sp),
        cursor_over(gvas, c, "SaveData"@),
        container_id_absent(c, sp, name),
    ensures
        save_data_id_absent(gvas, name),
{
    reveal(save_data_id_absent);
}

proof fn lemma_inventory_info_absent(gvas: Seq<u8>, info: Value, ip: Seq<PropertyEntry>, c: Cursor, name: Seq<char>)
    requires
        save_data_field(gvas, "InventoryInfo"@, info),
        cursor_over(gvas, c, "SaveData.InventoryInfo"@),
        info matches Value::Struct(StructValue::Properties(p)) && p@ == ip,
        container_id_absent(c, ip, name),
    ensures
        inventory_info_absent(gvas, name),
{
    reveal(inventory_info_absent);
}

/// The property name, under `InventoryInfo`, of each container kind.
pub open spec fn kind_property(k: ContainerKind) -> Seq<char> {
    match k {
        ContainerKind::Common => "CommonContainerId"@,
        ContainerKind::Essential => "EssentialContainerId"@,
        ContainerKind::Weapon => "WeaponLoadOutContainerId"@,
        ContainerKind::Armor => "PlayerEquipArmorContainerId"@,
        ContainerKind::Food => "FoodEquipContainerId"@,
        ContainerKind::DropSlot => "DropSlotContainerId"@,
    }
}

/// `name` of `props` is absent, or does not read as a struct whose `ID` is a guid.
pub open spec fn container_id_absent(c: Cursor, props: Seq<PropertyEntry>, name: Seq<char>) -> bool {
    ||| none_named(props, name)
    ||| exists|v: Value|
        #[trigger] named_value(c, props, name, v) && match v {
            Value::Struct(StructValue::Properties(p)) => none_named(p@, "ID"@) || exists|id: Value|
                #[trigger] named_value(c, p@, "ID"@, id) && !(id is Struct && id->Struct_0 is Guid),
            _ => true,
        }
}

/// The key of a container-map entry has an `ID` that reads as the guid `guid`.
pub open spec fn key_id_is(c: Cursor, key: Value, guid: Seq<u8>) -> bool {
    key matches Value::Struct(StructValue::Properties(kp)) && exists|g: Guid|
        #[trigger] named_value(c, kp@, "ID"@, Value::Struct(StructValue::Guid(g))) && g@ == guid
}

/// The key of a container-map entry has no `ID`, or an `ID` that reads as something
/// other than the guid `guid`.
pub open spec fn key_id_other(c: Cursor, key: Value, guid: Seq<u8>) -> bool {
    match key {
        Value::Struct(StructValue::Properties(kp)) => none_named(kp@, "ID"@) || exists|v: Value|
            #[trigger] named_value(c, kp@, "ID"@, v) && !(v matches Value::Struct(StructValue::Guid(g)) && g@ == guid),
        _ => true,
    }
}

/// The `RawData` byte array of one `Slots` item, when it is a property list holding one.
pub open spec fn item_blob(c: Cursor, item: Value, b: Seq<u8>) -> bool {
    item matches Value::Struct(StructValue::Properties(p)) && exists|rb: Vec<u8>|
        #[trigger] named_value(c, p@, "RawData"@, Value::Bytes(rb)) && rb@ == b
}

/// One `Slots` item holds no `RawData` byte array.
pub open spec fn no_item_blob(c: Cursor, item: Value) -> bool {
    match item {
        Value::Struct(StructValue::Properties(p)) => none_named(p@, "RawData"@) || exists|v: Value|
            #[trigger] named_value(c, p@, "RawData"@, v) && !(v is Bytes),
        _ => true,
    }
}

/// `out` holds, in order, the `RawData` byte array of each item that has one.
pub open spec fn item_blobs(c: Cursor, items: Seq<Value>, out: Seq<Vec<u8>>) -> bool
    decreases items.len(),
{
    if items.len() == 0 {
        out.len() == 0
    } else {
        ||| out.len() > 0 && item_blob(c, items.last(), out.last()@) && item_blobs(c, items.drop_last(), out.drop_last())
        ||| no_item_blob(c, items.last()) && item_blobs(c, items.drop_last(), out)
    }
}

/// A slot blob that decodes and holds a positive count.
pub open spec fn occupied(b: Seq<u8>) -> bool {
    item_slot_end(b) is Some && i32_at(b, 4) > 0
}

/// `s` is the view of the slot blob `b`: its index, its count, and its item id as text
/// (none when that text is empty).
pub open spec fn slot_view_of(s: SlotView, b: Seq<u8>) -> bool {
    let d = fstring_view_at(b, 8).display();
    &&& s.slot_index == i32_at(b, 0)
    &&& s.count == i32_at(b, 4)
    &&& if d.len() == 0 {
        s.static_id is None
    } else {
        s.static_id matches Some(t) && t@ == d
    }
}

/// `slots` holds, in order, the view of each occupied slot blob among `items`.
pub open spec fn slots_read(c: Cursor, items: Seq<Value>, slots: Seq<SlotView>) -> bool
    decreases items.len(),
{
    if items.len() == 0 {
        slots.len() == 0
    } else {
        ||| exists|b: Seq<u8>|
            #[trigger] item_blob(c, items.last(), b) && occupied(b) && slots.len() > 0 && slot_view_of(slots.last(), b)
                && slots_read(c, items.drop_last(), slots.drop_last())
        ||| (no_item_blob(c, items.last()) || exists|b: Seq<u8>| #[trigger] item_blob(c, items.last(), b) && !occupied(b))
            && slots_read(c, items.drop_last(), slots)
    }
}

/// `fields` has no `Slots` array: it is absent or reads as something else.
pub open spec fn no_slots(c: Cursor, fields: Seq<PropertyEntry>) -> bool {
    none_named(fields, "Slots"@) || exists|v: Value| #[trigger] named_value(c, fields, "Slots"@, v) && !(v is Array)
}

/// `read` holds, in order, the view of each occupied slot of `fields`' `Slots` array;
/// none when there is no such array.
pub open spec fn container_slots(c: Cursor, fields: Seq<PropertyEntry>, read: Seq<SlotView>) -> bool {
    ||| no_slots(c, fields) && read.len() == 0
    ||| exists|items: Vec<Value>|
        #[trigger] named_value(c, fields, "Slots"@, Value::Array(items)) && slots_read(c, items@, read)
}

/// A named value, with what it holds readable in turn.
fn get_readable(c: &Cursor, props: &[PropertyEntry], name: &str) -> (r: Option<Value>)
    requires
        all_readable(c.source_view(), props@, c.guid_view()),
    ensures
        match r {
            Some(v) => {
                &&& named_value(*c, props@, name@, v)
                &&& props_readable(v, c.source_view(), c.guid_view())
                &&& v matches Value::Array(items) ==> forall|i: int|
                    0 <= i < items@.len() ==> props_readable(#[trigger] items@[i], c.source_view(), c.guid_view())
            },
            None => none_named(props@, name@),
        },
{
    let i = match find_index(props, name) {
        Some(i) => i,
        None => {
            return None;
        },
    };
    assert(entry_readable(c.source_view(), props@[i as int], c.guid_view()));
    let v = match c.materialize(&props[i]) {
        Ok(v) => v,
        Err(_) => {
            assert(false);
            return None;
        },
    };
    proof {
        let e = props@[i as int];
        let buf = c.source_view();
        let g = c.guid_view();
        lemma_materialized_readable(
            v,
            buf,
            tag_end(buf, e.span.start as int, g)->0,
            e.span.end as int,
            tag_view_at(buf, e.span.start as int, g),
            child_path_of(c.path_view(), e.name@),
            large_world_coordinates(c.engine_major_view()),
            g,
        );
        assert(first_named(props@, name@, i as int));
    }
    Some(v)
}

/// Reads `SaveData` out of a player save, erroring if this isn't one.
fn player_save_data<'a>(player_gvas: &'a [u8]) -> (r: Result<(Vec<PropertyEntry>, Cursor<'a>), InventoryError>)
    ensures
        match r {
            Ok((props, c)) => {
                &&& parses(player_gvas@)
                &&& c.source_view() == player_gvas@
                &&& all_readable(player_gvas@, props@, c.guid_view())
                &&& save_data_read(player_gvas@, props@)
                &&& cursor_over(player_gvas@, c, "SaveData"@)
            },
            Err(InventoryError::Gvas(e)) => !parses(player_gvas@) && e == crate::gvas::parse_failure(player_gvas@),
            Err(InventoryError::NotAPlayerSave) => parses(player_gvas@) && no_save_data(player_gvas@),
            Err(_) => false,
        },
{
    let file = match GvasFile::parse(player_gvas) {
        Ok(f) => f,
        Err(e) => {
            return Err(InventoryError::Gvas(e));
        },
    };
    let root = Cursor::new(player_gvas, &file.header);
    proof {
        assert(cursor_over(player_gvas@, root, Seq::empty()));
    }
    let idx = match find_index(file.properties.as_slice(), "SaveData") {
        Some(i) => i,
        None => {
            assert(no_save_data(player_gvas@)) by {
                reveal(no_save_data);
            }
            return Err(InventoryError::NotAPlayerSave);
        },
    };
    proof {
        assert(crate::gvas::value::entry_at(player_gvas@, file.properties@[idx as int], file.has_guid()));
    }
    let value = match get_readable(&root, file.properties.as_slice(), "SaveData") {
        Some(v) => v,
        None => {
            assert(no_save_data(player_gvas@)) by {
                reveal(no_save_data);
            }
            return Err(InventoryError::NotAPlayerSave);
        },
    };
    let props = match value.as_properties() {
        Some(p) => crate::gvas::nav::copy_entries(p),
        None => {
            assert(no_save_data(player_gvas@)) by {
                reveal(no_save_data);
                assert(named_value(root, file.properties@, "SaveData"@, value));
            }
            return Err(InventoryError::NotAPlayerSave);
        },
    };
    proof {
        let p = value->Struct_0->Properties_0;
        assert forall|i: int| 0 <= i < props@.len() implies entry_readable(
            player_gvas@,
            #[trigger] props@[i],
            root.guid_view(),
        ) by {
            assert(entry_readable(player_gvas@, p@[i], root.guid_view()));
            assert(crate::gvas::nav::same_entry(props@[i], p@[i]));
        }
    }
    let cursor = root.rebase(player_gvas, "SaveData");
    proof {
        let top = file.properties@;
        assert(cursor_over(player_gvas@, root, Seq::empty()));
        assert(named_value(root, top, "SaveData"@, value));
        assert(save_data_read(player_gvas@, props@)) by {
            reveal(save_data_read);
        }
    }
    Ok((props, cursor))
}

/// A `<Name>ContainerId` property is a struct wrapping a single `ID` guid.
fn container_id(cursor: &Cursor, props: &[PropertyEntry], name: &str) -> (r: Option<Guid>)
    requires
        all_readable(cursor.source_view(), props@, cursor.guid_view()),
    ensures
        r matches Some(g) ==> container_id_is(*cursor, props@, name@, g),
        r is None ==> container_id_absent(*cursor, props@, name@),
{
    let value = match get_readable(cursor, props, name) {
        Some(v) => v,
        None => {
            return None;
        },
    };
    let ghost outer = value;
    let inner = match value.as_properties() {
        Some(p) => p,
        None => {
            assert(named_value(*cursor, props@, name@, outer));
            return None;
        },
    };
    let id = match get_readable(cursor, inner, "ID") {
        Some(v) => v,
        None => {
            assert(named_value(*cursor, props@, name@, outer));
            return None;
        },
    };
    let r = id.as_guid();
    proof {
        assert(named_value(*cursor, outer->Struct_0->Properties_0@, "ID"@, id));
        assert(named_value(*cursor, props@, name@, outer));
        if r is Some {
            assert(id_field_is(*cursor, outer, r->0));
        }
    }
    r
}

/// The player's container ids, keyed by kind name and in name order, as a map keyed by
/// kind name would list them. A kind whose property is absent is simply not listed —
/// that's a save-version difference, not a failure.
#[verifier::rlimit(60)]
#[verifier::spinoff_prover]
pub fn container_ids(player_gvas: &[u8]) -> (r: Result<Vec<(&'static str, Guid)>, InventoryError>)
    ensures
        match r {
            Ok(ids) => {
                &&& parses(player_gvas@)
                &&& ids@.len() <= 6
                &&& listed_ids(player_gvas@, true, kinds_by_name(), ids@)
            },
            Err(InventoryError::Gvas(e)) => !parses(player_gvas@) && e == crate::gvas::parse_failure(player_gvas@),
            Err(InventoryError::NotAPlayerSave) => parses(player_gvas@) && (no_save_data(player_gvas@)
                || no_inventory_info(player_gvas@)),
            Err(_) => false,
        },
{
    let (save_data, cursor) = player_save_data(player_gvas)?;
    let info = match get_readable(&cursor, save_data.as_slice(), "InventoryInfo") {
        Some(v) => v,
        None => {
            assert(no_inventory_info(player_gvas@)) by {
                reveal(no_inventory_info);
            }
            return Err(InventoryError::NotAPlayerSave);
        },
    };
    let info_props = match info.as_properties() {
        Some(p) => p,
        None => {
            assert(no_inventory_info(player_gvas@)) by {
                reveal(no_inventory_info);
                assert(named_value(cursor, save_data@, "InventoryInfo"@, info));
            }
            return Err(InventoryError::NotAPlayerSave);
        },
    };
    let info_cursor = cursor.rebase(player_gvas, "SaveData.InventoryInfo");
    proof {
        lemma_save_data_field(player_gvas@, save_data@, cursor, "InventoryInfo"@, info);
    }
    let wanted: [(&'static str, &'static str); 6] = [
        ("armor", "PlayerEquipArmorContainerId"),
        ("common", "CommonContainerId"),
        ("drop_slot", "DropSlotContainerId"),
        ("essential", "EssentialContainerId"),
        ("food", "FoodEquipContainerId"),
        ("weapon", "WeaponLoadOutContainerId"),
    ];
    let ghost spec_wanted = kinds_by_name();
    assert(forall|j: int| 0 <= j < 6 ==> wanted@[j].0@ == spec_wanted[j].0 && wanted@[j].1@ == spec_wanted[j].1);
    let mut out: Vec<(&'static str, Guid)> = Vec::new();
    let mut i: usize = 0;
    while i < 6
        invariant
            i <= 6,
            out@.len() <= i,
            parses(player_gvas@),
            spec_wanted == kinds_by_name(),
            forall|j: int| 0 <= j < 6 ==> wanted@[j].0@ == spec_wanted[j].0 && wanted@[j].1@ == spec_wanted[j].1,
            info_cursor.source_view() == player_gvas@,
            all_readable(player_gvas@, info_props@, info_cursor.guid_view()),
            cursor_over(player_gvas@, info_cursor, "SaveData.InventoryInfo"@),
            save_data_field(player_gvas@, "InventoryInfo"@, info),
            info matches Value::Struct(StructValue::Properties(p)) && p@ == info_props@,
            listed_ids(player_gvas@, true, spec_wanted.subrange(0, i as int), out@),
        decreases 6 - i,
    {
        let (label, property) = wanted[i];
        proof {
            assert(spec_wanted.subrange(0, i + 1).drop_last() =~= spec_wanted.subrange(0, i as int));
        }
        let ghost before = out@;
        match container_id(&info_cursor, info_props, property) {
            Some(g) => {
                proof {
                    lemma_inventory_info_id(player_gvas@, info, info_props@, info_cursor, property@, g);
                }
                out.push((label, g));
                proof {
                    assert(out@.drop_last() =~= before);
                }
            },
            None => {
                proof {
                    lemma_inventory_info_absent(player_gvas@, info, info_props@, info_cursor, property@);
                }
            },
        }
        i = i + 1;
    }
    assert(spec_wanted.subrange(0, 6) =~= spec_wanted);
    Ok(out)
}

/// The player's Pal container ids, from `SaveData` top level: the Pal box
/// (`PalStorageContainerId`) and the party (`OtomoCharacterContainerId`), named
/// `pal_storage` and `otomo` and listed in name order. An absent property is not
/// listed.
#[verifier::rlimit(60)]
#[verifier::spinoff_prover]
pub fn pal_container_ids(player_gvas: &[u8]) -> (r: Result<Vec<(&'static str, Guid)>, InventoryError>)
    ensures
        match r {
            Ok(ids) => {
                &&& parses(player_gvas@)
                &&& ids@.len() <= 2
                &&& listed_ids(player_gvas@, false, pal_containers_by_name(), ids@)
            },
            Err(InventoryError::Gvas(e)) => !parses(player_gvas@) && e == crate::gvas::parse_failure(player_gvas@),
            Err(InventoryError::NotAPlayerSave) => parses(player_gvas@) && no_save_data(player_gvas@),
            Err(_) => false,
        },
{
    let (save_data, cursor) = player_save_data(player_gvas)?;
    let wanted: [(&'static str, &'static str); 2] = [
        ("otomo", "OtomoCharacterContainerId"),
        ("pal_storage", "PalStorageContainerId"),
    ];
    let ghost spec_wanted = pal_containers_by_name();
    assert(forall|j: int| 0 <= j < 2 ==> wanted@[j].0@ == spec_wanted[j].0 && wanted@[j].1@ == spec_wanted[j].1);
    let mut out: Vec<(&'static str, Guid)> = Vec::new();
    let mut i: usize = 0;
    while i < 2
        invariant
            i <= 2,
            out@.len() <= i,
            parses(player_gvas@),
            spec_wanted == pal_containers_by_name(),
            forall|j: int| 0 <= j < 2 ==> wanted@[j].0@ == spec_wanted[j].0 && wanted@[j].1@ == spec_wanted[j].1,
            cursor.source_view() == player_gvas@,
            all_readable(player_gvas@, save_data@, cursor.guid_view()),
            save_data_read(player_gvas@, save_data@),
            cursor_over(player_gvas@, cursor, "SaveData"@),
            listed_ids(player_gvas@, false, spec_wanted.subrange(0, i as int), out@),
        decreases 2 - i,
    {
        let (label, property) = wanted[i];
        proof {
            assert(spec_wanted.subrange(0, i + 1).drop_last() =~= spec_wanted.subrange(0, i as int));
        }
        let ghost before = out@;
        match container_id(&cursor, save_data.as_slice(), property) {
            Some(g) => {
                proof {
                    lemma_save_data_id(player_gvas@, save_data@, cursor, property@, g);
                }
                out.push((label, g));
                proof {
                    assert(out@.drop_last() =~= before);
                }
            },
            None => {
                proof {
                    lemma_save_data_id_absent(player_gvas@, save_data@, cursor, property@);
                }
            },
        }
        i = i + 1;
    }
    assert(spec_wanted.subrange(0, 2) =~= spec_wanted);
    Ok(out)
}

/// The player's own uid, from their save file rather than from a caller.
pub fn player_uid(player_gvas: &[u8]) -> (r: Result<String, InventoryError>)
    ensures
        match r {
            Ok(s) => parses(player_gvas@) && exists|g: Guid|
                save_data_field(player_gvas@, "PlayerUId"@, Value::Struct(StructValue::Guid(g))) && s@ == guid_hex_groups(
                    g@,
                ),
            Err(InventoryError::Gvas(e)) => !parses(player_gvas@) && e == crate::gvas::parse_failure(player_gvas@),
            Err(InventoryError::NotAPlayerSave) => parses(player_gvas@) && (no_save_data(player_gvas@) || no_player_uid(
                player_gvas@,
            )),
            Err(_) => false,
        },
{
    let (save_data, cursor) = player_save_data(player_gvas)?;
    match get_readable(&cursor, save_data.as_slice(), "PlayerUId") {
        Some(v) => match v.as_guid() {
            Some(g) => {
                proof {
                    lemma_save_data_field(player_gvas@, save_data@, cursor, "PlayerUId"@, v);
                }
                Ok(guid_to_hex(&g))
            },
            None => {
                assert(no_player_uid(player_gvas@)) by {
                    reveal(no_player_uid);
                    assert(named_value(cursor, save_data@, "PlayerUId"@, v));
                }
                Err(InventoryError::NotAPlayerSave)
            },
        },
        None => {
            assert(no_player_uid(player_gvas@)) by {
                reveal(no_player_uid);
            }
            Err(InventoryError::NotAPlayerSave)
        },
    }
}

// ---------------------------------------------------------------------------
// Joining against Level.sav
// ---------------------------------------------------------------------------

/// Slots ordered by `slot_index`, equal indices keeping their order.
pub open spec fn sorted_by_slot(s: Seq<SlotView>) -> bool {
    forall|j: int, k: int| 0 <= j <= k < s.len() ==> s[j].slot_index <= s[k].slot_index
}

/// `perm` places the input: `out[j]` is `input[perm[j]]`, no input position is used
/// twice, and two slots with the same `slot_index` keep their input order.
pub open spec fn stable_placement(perm: Seq<int>, out: Seq<SlotView>, input: Seq<SlotView>) -> bool {
    &&& perm.len() == out.len()
    &&& forall|j: int| #![trigger perm[j]] 0 <= j < out.len() ==> 0 <= perm[j] < input.len() && out[j] == input[perm[j]]
    &&& forall|j: int, k: int| #![trigger perm[j], perm[k]] 0 <= j < k < out.len() ==> perm[j] != perm[k]
    &&& forall|j: int, k: int|
        #![trigger out[j], out[k]]
        0 <= j < k < out.len() && out[j].slot_index == out[k].slot_index ==> perm[j] < perm[k]
}

/// `out` is the stable sort of `input` by `slot_index`: a rearrangement of all of its
/// slots, ordered by index, equal indices in input order.
#[verifier::opaque]
pub open spec fn stable_sort_of(out: Seq<SlotView>, input: Seq<SlotView>) -> bool {
    &&& out.len() == input.len()
    &&& sorted_by_slot(out)
    &&& exists|perm: Seq<int>| #[trigger] stable_placement(perm, out, input)
}

/// A stable insertion sort by `slot_index`.
fn sort_slots(slots: Vec<SlotView>) -> (out: Vec<SlotView>)
    ensures
        stable_sort_of(out@, slots@),
{
    let mut out: Vec<SlotView> = Vec::new();
    let mut rest = slots;
    let ghost orig = rest@;
    let ghost mut perm: Seq<int> = Seq::empty();
    let mut taken: usize = 0;
    while rest.len() > 0
        invariant
            sorted_by_slot(out@),
            out@.len() + rest@.len() == orig.len(),
            taken == out@.len(),
            orig == slots@,
            rest@ == orig.subrange(taken as int, orig.len() as int),
            perm.len() == out@.len(),
            forall|j: int| #![trigger perm[j]] 0 <= j < out@.len() ==> 0 <= perm[j] < taken && out@[j] == orig[perm[j]],
            forall|j: int, k: int| #![trigger perm[j], perm[k]] 0 <= j < k < out@.len() ==> perm[j] != perm[k],
            forall|j: int, k: int|
                #![trigger out@[j], out@[k]]
                0 <= j < k < out@.len() && out@[j].slot_index == out@[k].slot_index ==> perm[j] < perm[k],
        decreases rest@.len(),
    {
        let x = rest.remove(0);
        assert(x == orig[taken as int]);
        let mut p = out.len();
        while p > 0 && out[p - 1].slot_index > x.slot_index
            invariant
                p <= out@.len(),
                sorted_by_slot(out@),
                forall|j: int| p <= j < out@.len() ==> (#[trigger] out@[j]).slot_index > x.slot_index,
            decreases p,
        {
            p = p - 1;
        }
        let ghost before = out@;
        let ghost old_perm = perm;
        out.insert(p, x);
        proof {
            perm = old_perm.insert(p as int, taken as int);
            assert forall|j: int, k: int| 0 <= j <= k < out@.len() implies out@[j].slot_index <= out@[k].slot_index by {
                if j < p as int && k > p as int {
                    assert(out@[j] == before[j]);
                    assert(out@[k] == before[k - 1]);
                } else if j == p as int && k > p as int {
                    assert(out@[k] == before[k - 1]);
                } else if j < p as int && k == p as int {
                    assert(out@[j] == before[j]);
                    if p > 0 {
                        assert(before[p - 1].slot_index <= x.slot_index);
                        assert(before[j].slot_index <= before[p - 1].slot_index);
                    }
                } else if j > p as int {
                    assert(out@[j] == before[j - 1]);
                    assert(out@[k] == before[k - 1]);
                } else if k < p as int {
                    assert(out@[j] == before[j]);
                    assert(out@[k] == before[k]);
                }
            }
            assert forall|j: int| #![trigger perm[j]] 0 <= j < out@.len() implies 0 <= perm[j] < taken + 1
                && out@[j] == orig[perm[j]] by {
                if j < p as int {
                    assert(out@[j] == before[j]);
                    assert(perm[j] == old_perm[j]);
                } else if j == p as int {
                    assert(out@[j] == orig[taken as int]);
                } else {
                    assert(out@[j] == before[j - 1]);
                    assert(perm[j] == old_perm[j - 1]);
                }
            }
            assert forall|j: int, k: int| #![trigger perm[j], perm[k]] 0 <= j < k < out@.len() implies perm[j]
                != perm[k] by {
                if j < p as int && k < p as int {
                    assert(perm[j] == old_perm[j] && perm[k] == old_perm[k]);
                } else if j < p as int && k == p as int {
                    assert(perm[j] == old_perm[j]);
                } else if j < p as int {
                    assert(perm[j] == old_perm[j] && perm[k] == old_perm[k - 1]);
                } else if j == p as int {
                    assert(perm[k] == old_perm[k - 1]);
                } else {
                    assert(perm[j] == old_perm[j - 1] && perm[k] == old_perm[k - 1]);
                }
            }
            assert forall|j: int, k: int|
                #![trigger out@[j], out@[k]]
                0 <= j < k < out@.len() && out@[j].slot_index == out@[k].slot_index implies perm[j] < perm[k] by {
                if j < p as int && k < p as int {
                    assert(out@[j] == before[j] && out@[k] == before[k]);
                    assert(perm[j] == old_perm[j] && perm[k] == old_perm[k]);
                } else if j < p as int && k == p as int {
                    assert(perm[j] == old_perm[j]);
                } else if j < p as int {
                    assert(out@[j] == before[j] && out@[k] == before[k - 1]);
                    assert(perm[j] == old_perm[j] && perm[k] == old_perm[k - 1]);
                } else if j == p as int {
                    assert(out@[k] == before[k - 1]);
                    assert(before[k - 1].slot_index > x.slot_index);
                } else {
                    assert(out@[j] == before[j - 1] && out@[k] == before[k - 1]);
                    assert(perm[j] == old_perm[j - 1] && perm[k] == old_perm[k - 1]);
                }
            }
        }
        taken = out.len();
        assert(rest@ =~= orig.subrange(taken as int, orig.len() as int));
    }
    assert(stable_placement(perm, out@, slots@));
    proof {
        reveal(stable_sort_of);
    }
    out
}

/// The `RawData` byte arrays of the items of a container's `Slots` array, in order;
/// an item without one is skipped. `None` when there is no `Slots` array.
pub(crate) fn slot_blobs(cursor: &Cursor, fields: &[PropertyEntry]) -> (r: Option<Vec<Vec<u8>>>)
    requires
        all_readable(cursor.source_view(), fields@, cursor.guid_view()),
    ensures
        match r {
            Some(out) => exists|items: Vec<Value>|
                #[trigger] named_value(*cursor, fields@, "Slots"@, Value::Array(items)) && item_blobs(
                    *cursor,
                    items@,
                    out@,
                ),
            None => no_slots(*cursor, fields@),
        },
{
    let v = match get_readable(cursor, fields, "Slots") {
        Some(v) => v,
        None => {
            return None;
        },
    };
    let ghost whole = v;
    let items = match v.as_array() {
        Some(a) => a,
        None => {
            assert(named_value(*cursor, fields@, "Slots"@, whole));
            return None;
        },
    };
    let mut out: Vec<Vec<u8>> = Vec::new();
    let mut i: usize = 0;
    while i < items.len()
        invariant
            i <= items@.len(),
            forall|k: int|
                0 <= k < items@.len() ==> props_readable(#[trigger] items@[k], cursor.source_view(), cursor.guid_view()),
            item_blobs(*cursor, items@.subrange(0, i as int), out@),
        decreases items@.len() - i,
    {
        assert(props_readable(items@[i as int], cursor.source_view(), cursor.guid_view()));
        proof {
            assert(items@.subrange(0, i + 1).drop_last() =~= items@.subrange(0, i as int));
        }
        let ghost item = items@[i as int];
        let ghost before = out@;
        match items[i].as_properties() {
            Some(slot_fields) => match get_readable(cursor, slot_fields, "RawData") {
                Some(raw) => match raw.as_bytes() {
                    Some(bytes) => {
                        let blob = crate::gvas::primitives::bytes_to_vec(bytes);
                        proof {
                            let rb = raw->Bytes_0;
                            assert(named_value(*cursor, item->Struct_0->Properties_0@, "RawData"@, Value::Bytes(rb)));
                            assert(item_blob(*cursor, item, blob@));
                        }
                        out.push(blob);
                        proof {
                            assert(out@.drop_last() =~= before);
                        }
                    },
                    None => {
                        assert(named_value(*cursor, item->Struct_0->Properties_0@, "RawData"@, raw));
                        assert(no_item_blob(*cursor, item));
                    },
                },
                None => {
                    assert(no_item_blob(*cursor, item));
                },
            },
            None => {
                assert(no_item_blob(*cursor, item));
            },
        }
        i = i + 1;
    }
    proof {
        assert(items@.subrange(0, i as int) =~= items@);
        assert(whole == Value::Array(whole->Array_0));
    }
    Some(out)
}

/// The occupied slots of one container's `Slots` array, in slot order. A slot whose
/// `RawData` will not decode is skipped rather than failing the inventory.
#[verifier::rlimit(40)]
#[verifier::spinoff_prover]
fn read_slots(cursor: &Cursor, fields: &[PropertyEntry]) -> (r: Vec<SlotView>)
    requires
        all_readable(cursor.source_view(), fields@, cursor.guid_view()),
    ensures
        sorted_by_slot(r@),
        forall|j: int| 0 <= j < r@.len() ==> (#[trigger] r@[j]).count > 0,
        exists|read: Seq<SlotView>| #[trigger] container_slots(*cursor, fields@, read) && stable_sort_of(r@, read),
{
    let mut slots: Vec<SlotView> = Vec::new();
    match get_readable(cursor, fields, "Slots") {
        Some(v) => {
            let ghost whole = v;
            match v.as_array() {
                Some(items) => {
                    let mut i: usize = 0;
                    while i < items.len()
                        invariant
                            i <= items@.len(),
                            forall|k: int|
                                0 <= k < items@.len() ==> props_readable(#[trigger] items@[k], cursor.source_view(), cursor.guid_view()),
                            forall|j: int| 0 <= j < slots@.len() ==> (#[trigger] slots@[j]).count > 0,
                            slots_read(*cursor, items@.subrange(0, i as int), slots@),
                        decreases items@.len() - i,
                    {
                        assert(props_readable(items@[i as int], cursor.source_view(), cursor.guid_view()));
                        proof {
                            assert(items@.subrange(0, i + 1).drop_last() =~= items@.subrange(0, i as int));
                        }
                        let ghost item = items@[i as int];
                        let ghost before = slots@;
                        match items[i].as_properties() {
                            Some(slot_fields) => {
                                match get_readable(cursor, slot_fields, "RawData") {
                                    Some(raw) => match raw.as_bytes() {
                                        Some(bytes) => {
                                            proof {
                                                let rb = raw->Bytes_0;
                                                assert(named_value(*cursor, item->Struct_0->Properties_0@, "RawData"@, Value::Bytes(rb)));
                                                assert(item_blob(*cursor, item, bytes@));
                                            }
                                            match item_container::decode_slot(bytes) {
                                                Ok(decoded) => {
                                                    if decoded.count > 0 {
                                                        let name = decoded.item.static_id.display_lossy();
                                                        let static_id = if name.as_str().is_empty() {
                                                            None
                                                        } else {
                                                            Some(name)
                                                        };
                                                        let view = SlotView {
                                                            slot_index: decoded.slot_index,
                                                            count: decoded.count,
                                                            static_id,
                                                        };
                                                        assert(slot_view_of(view, bytes@));
                                                        slots.push(view);
                                                        proof {
                                                            assert(slots@.drop_last() =~= before);
                                                        }
                                                    } else {
                                                        assert(!occupied(bytes@));
                                                    }
                                                },
                                                Err(_) => {
                                                    assert(!occupied(bytes@));
                                                },
                                            }
                                        },
                                        None => {
                                            assert(named_value(*cursor, item->Struct_0->Properties_0@, "RawData"@, raw));
                                            assert(no_item_blob(*cursor, item));
                                        },
                                    },
                                    None => {
                                        assert(no_item_blob(*cursor, item));
                                    },
                                }
                            },
                            None => {
                                assert(no_item_blob(*cursor, item));
                            },
                        }
                        i = i + 1;
                    }
                    proof {
                        assert(items@.subrange(0, i as int) =~= items@);
                        assert(whole == Value::Array(whole->Array_0));
                        assert(container_slots(*cursor, fields@, slots@));
                    }
                },
                None => {
                    assert(named_value(*cursor, fields@, "Slots"@, whole));
                    assert(container_slots(*cursor, fields@, slots@));
                },
            }
        },
        None => {
            assert(container_slots(*cursor, fields@, slots@));
        },
    }
    let ghost read = slots@;
    let sorted = sort_slots(slots);
    proof {
        reveal(stable_sort_of);
        assert forall|j: int| 0 <= j < sorted@.len() implies (#[trigger] sorted@[j]).count > 0 by {
            let perm = choose|perm: Seq<int>| #[trigger] stable_placement(perm, sorted@, read);
            assert(sorted@[j] == read[perm[j]]);
        }
        assert(container_slots(*cursor, fields@, read));
    }
    sorted
}

/// The position of the last entry whose key's `ID` is `guid`.
fn position_of(map: &world::WorldMap, guid: &Guid) -> (r: Option<usize>)
    requires
        map.wf(),
    ensures
        match r {
            Some(p) => {
                &&& p < map.entries@.len()
                &&& key_id_is(map.cursor, map.entries@[p as int].key, guid@)
                &&& forall|j: int|
                    p < j < map.entries@.len() ==> key_id_other(map.cursor, #[trigger] map.entries@[j].key, guid@)
            },
            None => forall|j: int|
                0 <= j < map.entries@.len() ==> key_id_other(map.cursor, #[trigger] map.entries@[j].key, guid@),
        },
{
    let mut i = map.entries.len();
    while i > 0
        invariant
            i <= map.entries@.len(),
            map.wf(),
            forall|j: int| i <= j < map.entries@.len() ==> key_id_other(map.cursor, #[trigger] map.entries@[j].key, guid@),
        decreases i,
    {
        i = i - 1;
        let entry = &map.entries[i];
        proof {
            assert(props_readable(entry.key, map.cursor.source_view(), map.cursor.guid_view()));
        }
        match entry.key.as_properties() {
            Some(key_props) => match get_readable(&map.cursor, key_props, "ID") {
                Some(v) => match v.as_guid() {
                    Some(id) => {
                        if guid_eq(&id, guid) {
                            assert(named_value(map.cursor, key_props@, "ID"@, Value::Struct(StructValue::Guid(id))));
                            return Some(i);
                        }
                        assert(named_value(map.cursor, key_props@, "ID"@, v));
                    },
                    None => {
                        assert(named_value(map.cursor, key_props@, "ID"@, v));
                    },
                },
                None => {},
            },
            None => {},
        }
    }
    None
}

/// The integer a value holds, when it holds one.
pub open spec fn integer_of(v: Value) -> Option<i64> {
    match v {
        Value::Byte(x) => Some(x as i64),
        Value::UInt16(x) => Some(x as i64),
        Value::UInt32(x) => Some(x as i64),
        Value::Int(x) => Some(x as i64),
        Value::Int64(x) => Some(x),
        _ => None,
    }
}

/// `n` is a container's declared capacity: its `SlotNum` integer, or 0 when absent or
/// not an integer.
pub open spec fn slot_count_read(c: Cursor, fields: Seq<PropertyEntry>, n: i32) -> bool {
    ||| exists|v: Value| #[trigger] named_value(c, fields, "SlotNum"@, v) && (integer_of(v) matches Some(x) && n == x as i32)
    ||| n == 0 && (none_named(fields, "SlotNum"@) || exists|v: Value|
        #[trigger] named_value(c, fields, "SlotNum"@, v) && integer_of(v) is None)
}

/// `cv` is the view of the container of kind `k` with id `g` among the level's
/// item-container entries `es`, read through `c`: the last entry whose key `ID` is `g`,
/// its capacity and its occupied slots in slot order; `missing` when no entry has it.
#[verifier::opaque]
pub open spec fn container_view_of(c: Cursor, es: Seq<MapEntry>, k: ContainerKind, g: Guid, cv: ContainerView) -> bool {
    &&& cv.kind == k
    &&& cv.id@ == guid_hex_groups(g@)
    &&& if cv.missing {
        &&& cv.slot_count == 0
        &&& cv.slots@.len() == 0
        &&& forall|j: int| 0 <= j < es.len() ==> key_id_other(c, (#[trigger] es[j]).key, g@)
    } else {
        exists|p: int|
            #![trigger es[p]]
            {
                &&& 0 <= p < es.len()
                &&& key_id_is(c, es[p].key, g@)
                &&& forall|j: int| p < j < es.len() ==> key_id_other(c, (#[trigger] es[j]).key, g@)
                &&& slot_count_read(c, es[p].fields@, cv.slot_count)
                &&& sorted_by_slot(cv.slots@)
                &&& exists|read: Seq<SlotView>|
                    #[trigger] container_slots(c, es[p].fields@, read) && stable_sort_of(cv.slots@, read)
            }
    }
}

/// The guid of the last entry of `ids` labelled `name`.
pub open spec fn id_labelled(ids: Seq<(&'static str, Guid)>, name: Seq<char>) -> Option<Guid>
    decreases ids.len(),
{
    if ids.len() == 0 {
        None
    } else if ids.last().0@ == name {
        Some(ids.last().1)
    } else {
        id_labelled(ids.drop_last(), name)
    }
}

/// `cvs` are, in the order of `kinds`, the views of the containers whose kind has an id
/// in `ids`.
pub open spec fn inventory_rows(
    c: Cursor,
    es: Seq<MapEntry>,
    ids: Seq<(&'static str, Guid)>,
    kinds: Seq<ContainerKind>,
    cvs: Seq<ContainerView>,
) -> bool
    decreases kinds.len(),
{
    if kinds.len() == 0 {
        cvs.len() == 0
    } else {
        match id_labelled(ids, kind_name(kinds.last())) {
            Some(g) => cvs.len() > 0 && container_view_of(c, es, kinds.last(), g, cvs.last()) && inventory_rows(
                c,
                es,
                ids,
                kinds.drop_last(),
                cvs.drop_last(),
            ),
            None => inventory_rows(c, es, ids, kinds.drop_last(), cvs),
        }
    }
}

/// The container kinds in `CONTAINER_KINDS` order.
pub open spec fn kinds_in_order() -> Seq<ContainerKind> {
    seq![
        ContainerKind::Common,
        ContainerKind::Essential,
        ContainerKind::Weapon,
        ContainerKind::Armor,
        ContainerKind::Food,
        ContainerKind::DropSlot,
    ]
}

/// `c` reads the level's item-container map with the save's own decode settings.
pub open spec fn item_map_cursor(level: Seq<u8>, c: Cursor) -> bool {
    &&& c.source_view() == level
    &&& c.path_view() == crate::gvas::nav::child_path_of("worldSaveData"@, ITEM_CONTAINER_MAP@)
    &&& c.guid_view() == declares_property_guid(level)
    &&& c.engine_major_view() == engine_of(level)
}

/// `inv` is the inventory of the player save `player` joined against the level
/// `level`: the player's uid, and for each kind in `CONTAINER_KINDS` order whose id the
/// player save lists, that container as the level holds it.
pub closed spec fn inventory_of(level: Seq<u8>, player: Seq<u8>, inv: PlayerInventory) -> bool {
    &&& exists|g: Guid|
        #[trigger] save_data_field(player, "PlayerUId"@, Value::Struct(StructValue::Guid(g))) && inv.player_uid@
            == guid_hex_groups(g@)
    &&& exists|ids: Seq<(&'static str, Guid)>, c: Cursor, es: Seq<MapEntry>|
        #![trigger listed_ids(player, true, kinds_by_name(), ids), item_map_cursor(level, c), world_map_entries(level, ITEM_CONTAINER_MAP@, es)]
        {
            &&& listed_ids(player, true, kinds_by_name(), ids)
            &&& item_map_cursor(level, c)
            &&& world_map_entries(level, ITEM_CONTAINER_MAP@, es)
            &&& inventory_rows(c, es, ids, kinds_in_order(), inv.containers@)
        }
}

/// The view of the container of kind `kind`, when the player's ids list one: the
/// level's entry for its id, or `missing` when the level has none.
fn kind_container(map: &world::WorldMap, wanted: &Vec<(&'static str, Guid)>, kind: ContainerKind) -> (r: Option<ContainerView>)
    requires
        map.wf(),
    ensures
        match id_labelled(wanted@, kind_name(kind)) {
            Some(g) => r matches Some(cv) && container_view_of(map.cursor, map.entries@, kind, g, cv) && sorted_by_slot(
                cv.slots@,
            ) && (cv.missing ==> cv.slots@.len() == 0 && cv.slot_count == 0),
            None => r is None,
        },
{
    let name = kind.as_str();
    let mut found: Option<Guid> = None;
    let mut w: usize = 0;
    while w < wanted.len()
        invariant
            w <= wanted@.len(),
            name@ == kind_name(kind),
            found == id_labelled(wanted@.subrange(0, w as int), name@),
        decreases wanted@.len() - w,
    {
        proof {
            assert(wanted@.subrange(0, w + 1).drop_last() =~= wanted@.subrange(0, w as int));
        }
        let (n, g) = wanted[w];
        if String::from_str(n) == String::from_str(name) {
            found = Some(g);
        }
        w = w + 1;
    }
    proof {
        assert(wanted@.subrange(0, w as int) =~= wanted@);
    }
    let guid = match found {
        Some(g) => g,
        None => {
            return None;
        },
    };
    let id_hex = guid_to_hex(&guid);
    match position_of(map, &guid) {
        None => {
            let cv = ContainerView { kind, id: id_hex, slot_count: 0, slots: Vec::new(), missing: true };
            assert(container_view_of(map.cursor, map.entries@, kind, guid, cv)) by {
                reveal(container_view_of);
            }
            Some(cv)
        },
        Some(position) => {
            let entry = &map.entries[position];
            proof {
                assert(all_readable(map.cursor.source_view(), entry.fields@, map.cursor.guid_view()));
            }
            let slot_count: i32 = match get_readable(&map.cursor, entry.fields.as_slice(), "SlotNum") {
                Some(v) => match v.as_integer() {
                    Some(n) => n as i32,
                    None => 0,
                },
                None => 0,
            };
            proof {
                assert(slot_count_read(map.cursor, entry.fields@, slot_count));
            }
            let slots = read_slots(&map.cursor, entry.fields.as_slice());
            let cv = ContainerView { kind, id: id_hex, slot_count, slots, missing: false };
            proof {
                assert(map.entries@[position as int] == *entry);
                assert(container_view_of(map.cursor, map.entries@, kind, guid, cv)) by {
                    reveal(container_view_of);
                }
            }
            Some(cv)
        },
    }
}

/// The container views, in `CONTAINER_KINDS` order, of each kind whose id `wanted`
/// lists.
fn join_containers(map: &world::WorldMap, wanted: &Vec<(&'static str, Guid)>) -> (containers: Vec<ContainerView>)
    requires
        map.wf(),
    ensures
        containers@.len() <= 6,
        inventory_rows(map.cursor, map.entries@, wanted@, kinds_in_order(), containers@),
        forall|j: int|
            0 <= j < containers@.len() ==> sorted_by_slot((#[trigger] containers@[j]).slots@) && (
            containers@[j].missing ==> containers@[j].slots@.len() == 0 && containers@[j].slot_count == 0),
{
    let kinds = CONTAINER_KINDS;
    let ghost es = map.entries@;
    let ghost order = kinds_in_order();
    assert(forall|j: int| 0 <= j < 6 ==> kinds@[j].0 == order[j]);
    let mut containers: Vec<ContainerView> = Vec::new();
    let mut k: usize = 0;
    while k < 6
        invariant
            k <= 6,
            containers@.len() <= k,
            map.wf(),
            es == map.entries@,
            order == kinds_in_order(),
            forall|j: int| 0 <= j < 6 ==> kinds@[j].0 == order[j],
            inventory_rows(map.cursor, es, wanted@, order.subrange(0, k as int), containers@),
            forall|j: int|
                0 <= j < containers@.len() ==> sorted_by_slot((#[trigger] containers@[j]).slots@) && (
                containers@[j].missing ==> containers@[j].slots@.len() == 0 && containers@[j].slot_count == 0),
        decreases 6 - k,
    {
        let (kind, _) = kinds[k];
        proof {
            assert(order.subrange(0, k + 1).drop_last() =~= order.subrange(0, k as int));
            assert(order.subrange(0, k + 1).last() == kind);
        }
        let ghost before = containers@;
        match kind_container(map, wanted, kind) {
            Some(cv) => {
                containers.push(cv);
                proof {
                    assert(containers@.drop_last() =~= before);
                }
            },
            None => {},
        }
        k = k + 1;
    }
    proof {
        assert(order.subrange(0, 6) =~= order);
    }
    containers
}

/// Joins a player's container ids against `Level.sav`'s item containers. Only the
/// matching entries are decoded.
#[verifier::rlimit(40)]
pub fn player_inventory(level_gvas: &[u8], player_gvas: &[u8]) -> (r: Result<PlayerInventory, InventoryError>)
    ensures
        match r {
            Ok(inv) => {
                &&& parses(level_gvas@) && parses(player_gvas@)
                &&& inv.containers@.len() <= 6
                &&& inventory_of(level_gvas@, player_gvas@, inv)
                &&& forall|j: int|
                    0 <= j < inv.containers@.len() ==> sorted_by_slot((#[trigger] inv.containers@[j]).slots@) && (
                    inv.containers@[j].missing ==> inv.containers@[j].slots@.len() == 0
                        && inv.containers@[j].slot_count == 0)
            },
            Err(InventoryError::Gvas(e)) => !parses(player_gvas@) && e == crate::gvas::parse_failure(player_gvas@),
            Err(InventoryError::NotAPlayerSave) => parses(player_gvas@) && (no_save_data(player_gvas@)
                || no_inventory_info(player_gvas@) || no_player_uid(player_gvas@)),
            Err(InventoryError::World(WorldError::Gvas(e))) => parses(player_gvas@) && !parses(level_gvas@) && e
                == crate::gvas::parse_failure(level_gvas@),
            Err(InventoryError::World(WorldError::NotALevelSave)) => parses(player_gvas@) && parses(level_gvas@)
                && world::no_world(level_gvas@),
            Err(InventoryError::World(WorldError::MapNotFound { name })) => parses(player_gvas@) && parses(level_gvas@)
                && name@ == ITEM_CONTAINER_MAP@ && world::no_world_map(level_gvas@, ITEM_CONTAINER_MAP@),
            Err(_) => false,
        },
{
    let uid = player_uid(player_gvas)?;
    let wanted = container_ids(player_gvas)?;
    let map = match world::open_map(level_gvas, ITEM_CONTAINER_MAP) {
        Ok(m) => m,
        Err(e) => {
            return Err(InventoryError::World(e));
        },
    };
    let containers = join_containers(&map, &wanted);
    proof {
        assert(item_map_cursor(level_gvas@, map.cursor));
        assert(inventory_of(level_gvas@, player_gvas@, PlayerInventory { player_uid: uid, containers }));
    }
    Ok(PlayerInventory { player_uid: uid, containers })
}


/// Every reading of `item`'s `RawData` is a byte array that decodes as a slot with a
/// positive count, and there is one.
pub open spec fn holds_positive_slot(c: Cursor, item: Value) -> bool {
    &&& item is Struct && item->Struct_0 is Properties
    &&& exists|b: Seq<u8>| item_blob(c, item, b)
    &&& forall|v: Value|
        #[trigger] named_value(c, item->Struct_0->Properties_0@, "RawData"@, v) ==> (v matches Value::Bytes(rb)
            && item_slot_end(rb@) is Some && i32_at(rb@, 4) > 0)
}

/// Law: every `Slots` item whose `RawData` decodes as a slot with a positive count is
/// listed, as the view of that blob, and every listed slot has a positive count. A
/// stack of one item is listed like any other.
#[verifier::rlimit(30)]
pub proof fn slots_read_lists_every_positive_count(c: Cursor, items: Seq<Value>, slots: Seq<SlotView>, k: int)
    requires
        slots_read(c, items, slots),
        0 <= k < items.len(),
        holds_positive_slot(c, items[k]),
    ensures
        exists|j: int, b: Seq<u8>|
            #![trigger slots[j], item_blob(c, items[k], b)]
            0 <= j < slots.len() && item_blob(c, items[k], b) && slot_view_of(slots[j], b) && slots[j].count == i32_at(b, 4),
        forall|j: int| 0 <= j < slots.len() ==> (#[trigger] slots[j]).count > 0,
    decreases items.len(),
{
    lemma_slots_positive(c, items, slots);
    let last = items.last();
    let init = items.drop_last();
    if k == items.len() - 1 {
        let p = last->Struct_0->Properties_0;
        let b0 = choose|b: Seq<u8>| item_blob(c, last, b);
        let rb0 = choose|rb: Vec<u8>| #[trigger] named_value(c, p@, "RawData"@, Value::Bytes(rb)) && rb@ == b0;
        let i0 = choose|i: int| first_named(p@, "RawData"@, i) && c.materializes(p@[i], Value::Bytes(rb0));
        if exists|b: Seq<u8>| #[trigger] item_blob(c, last, b) && occupied(b) && slots.len() > 0 && slot_view_of(slots.last(), b)
            && slots_read(c, init, slots.drop_last()) {
            let b = choose|b: Seq<u8>| #[trigger] item_blob(c, last, b) && occupied(b) && slots.len() > 0 && slot_view_of(slots.last(), b)
                && slots_read(c, init, slots.drop_last());
            assert(slots[slots.len() - 1] == slots.last());
            assert(item_blob(c, items[k], b));
        } else {
            if no_item_blob(c, last) {
                if none_named(p@, "RawData"@) {
                    assert(p@[i0].name@ == "RawData"@);
                } else {
                    let v = choose|v: Value| #[trigger] named_value(c, p@, "RawData"@, v) && !(v is Bytes);
                    assert(v is Bytes);
                }
            } else {
                let b = choose|b: Seq<u8>| #[trigger] item_blob(c, last, b) && !occupied(b);
                let rb = choose|rb: Vec<u8>| #[trigger] named_value(c, p@, "RawData"@, Value::Bytes(rb)) && rb@ == b;
                assert(item_slot_end(rb@) is Some && i32_at(rb@, 4) > 0);
            }
        }
    } else {
        assert(init[k] == items[k]);
        if exists|b: Seq<u8>| #[trigger] item_blob(c, last, b) && occupied(b) && slots.len() > 0 && slot_view_of(slots.last(), b)
            && slots_read(c, init, slots.drop_last()) {
            let b = choose|b: Seq<u8>| #[trigger] item_blob(c, last, b) && occupied(b) && slots.len() > 0 && slot_view_of(slots.last(), b)
                && slots_read(c, init, slots.drop_last());
            slots_read_lists_every_positive_count(c, init, slots.drop_last(), k);
            let (j, b2) = choose|j: int, b2: Seq<u8>|
                #![trigger slots.drop_last()[j], item_blob(c, init[k], b2)]
                0 <= j < slots.drop_last().len() && item_blob(c, init[k], b2) && slot_view_of(slots.drop_last()[j], b2)
                    && slots.drop_last()[j].count == i32_at(b2, 4);
            assert(slots.drop_last()[j] == slots[j]);
            assert(item_blob(c, items[k], b2));
        } else {
            slots_read_lists_every_positive_count(c, init, slots, k);
            let (j, b2) = choose|j: int, b2: Seq<u8>|
                #![trigger slots[j], item_blob(c, init[k], b2)]
                0 <= j < slots.len() && item_blob(c, init[k], b2) && slot_view_of(slots[j], b2) && slots[j].count == i32_at(b2, 4);
            assert(item_blob(c, items[k], b2));
        }
    }
}

proof fn lemma_slots_positive(c: Cursor, items: Seq<Value>, slots: Seq<SlotView>)
    requires
        slots_read(c, items, slots),
    ensures
        forall|j: int| 0 <= j < slots.len() ==> (#[trigger] slots[j]).count > 0,
    decreases items.len(),
{
    if items.len() > 0 {
        if exists|b: Seq<u8>| #[trigger] item_blob(c, items.last(), b) && occupied(b) && slots.len() > 0 && slot_view_of(slots.last(), b)
            && slots_read(c, items.drop_last(), slots.drop_last()) {
            let b = choose|b: Seq<u8>| #[trigger] item_blob(c, items.last(), b) && occupied(b) && slots.len() > 0 && slot_view_of(slots.last(), b)
                && slots_read(c, items.drop_last(), slots.drop_last());
            lemma_slots_positive(c, items.drop_last(), slots.drop_last());
            assert forall|j: int| 0 <= j < slots.len() implies (#[trigger] slots[j]).count > 0 by {
                if j < slots.len() - 1 {
                    assert(slots.drop_last()[j] == slots[j]);
                }
            }
        } else {
            lemma_slots_positive(c, items.drop_last(), slots);
        }
    }
}

} // verus!
