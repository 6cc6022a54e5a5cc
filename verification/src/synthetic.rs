//! Synthetic Palworld saves, built from this crate's own writers, for tests that
//! need a `.sav` without shipping real (personal) data. They are structurally real:
//! a proper GVAS header, a `worldSaveData` holding a guild, a character-map entry and
//! an item container, plus a matching player save. Built inner-to-outer so every
//! `size` field is exact.

use vstd::prelude::*;
use vstd::string::*;
use crate::container::{self, Algorithm, Container, Passes, encoded};
use crate::edit::{byte_array_bytes, byte_array_value};
use crate::gvas::header::{GVAS_MAGIC, Header};
use crate::gvas::primitives::{FString, FStringView, append_bytes, bytes_to_vec, write_fstring, write_i32_le, write_u32_le};
use crate::gvas::property::{PropertyTag, PropertyTagView, TagExtra, TagExtraView, none_terminator, write_property_tag};
use crate::gvas::primitives::{i32_bytes, u32_bytes};
use crate::gvas::header::HeaderView;
use crate::rawdata::{group, item_container};

verus! {

/// Obviously-synthetic: this is test data, not a guid lifted from a real save.
pub const GUILD_ID: [u8; 16] = [
    0x00, 0x11, 0x22, 0x33, 0x44, 0x55, 0x66, 0x77, 0x88, 0x99, 0xaa, 0xbb, 0xcc, 0xdd, 0xee, 0xff,
];

/// Little-endian 1 in the final u32 group, so this renders as
/// "00000000000000000000000000000001" — Palworld's own player-file naming.
pub const PLAYER_UID: [u8; 16] = [0, 0, 0, 0, 0, 0, 0, 0, 0, 0, 0, 0, 0x01, 0, 0, 0];

pub const PLAYER_INSTANCE_ID: [u8; 16] = [
    0x77, 0x77, 0x77, 0x77, 0x77, 0x77, 0x77, 0x77, 0x77, 0x77, 0x77, 0x77, 0x77, 0x77, 0x77, 0x77,
];

/// The container the synthetic player's InventoryInfo points at, and the key of the
/// one entry in the synthetic level's ItemContainerSaveData.
pub const CONTAINER_ID: [u8; 16] = [
    0x42, 0x42, 0x42, 0x42, 0x42, 0x42, 0x42, 0x42, 0x42, 0x42, 0x42, 0x42, 0x42, 0x42, 0x42, 0x42,
];

/// The 1-byte FString form of `s`, NUL-terminated.
pub fn ascii(s: &str) -> (r: FString)
    ensures
        r@ == (FStringView::Ascii { content: s.spec_bytes(), trailing: seq![0u8] }),
{
    let content = bytes_to_vec(s.as_bytes());
    let mut trailing: Vec<u8> = Vec::new();
    trailing.push(0);
    assert(trailing@ =~= seq![0u8]);
    FString::Ascii { content, trailing }
}

/// The 1-byte, NUL-terminated FString holding `s`.
pub open spec fn ascii_view(s: Seq<u8>) -> FStringView {
    FStringView::Ascii { content: s, trailing: seq![0u8] }
}

/// A tag as these saves write one: index 0 and no property guid.
pub open spec fn tag_view(name: Seq<u8>, property_type: Seq<u8>, size: u32, extra: TagExtraView) -> PropertyTagView {
    PropertyTagView {
        name: ascii_view(name),
        property_type: ascii_view(property_type),
        size,
        index: 0,
        extra,
        guid: None,
    }
}

/// A property: its tag, in the guid-carrying form and sized to `value`, then `value`.
pub open spec fn property_bytes(name: Seq<u8>, property_type: Seq<u8>, extra: TagExtraView, value: Seq<u8>) -> Seq<u8> {
    tag_view(name, property_type, value.len() as u32, extra).bytes(true) + value
}

/// The extra of a struct property of type `struct_type`, with a zero guid.
pub open spec fn struct_extra_view(struct_type: Seq<u8>) -> TagExtraView {
    TagExtraView::Struct { struct_type: ascii_view(struct_type), guid: Seq::new(16, |i: int| 0u8) }
}

/// The extra of a byte array property.
pub open spec fn byte_array_extra_view() -> TagExtraView {
    TagExtraView::Array { inner_type: ascii_view("ByteProperty".spec_bytes()) }
}

/// The extra of a map from structs to structs.
pub open spec fn map_extra_view() -> TagExtraView {
    TagExtraView::MapOf {
        key_type: ascii_view("StructProperty".spec_bytes()),
        value_type: ascii_view("StructProperty".spec_bytes()),
    }
}

/// A guid-valued struct property.
pub open spec fn guid_property_bytes(name: Seq<u8>, guid: Seq<u8>) -> Seq<u8> {
    property_bytes(name, "StructProperty".spec_bytes(), struct_extra_view("Guid".spec_bytes()), guid)
}

/// The `None` name that ends a property list.
pub open spec fn none_bytes() -> Seq<u8> {
    ascii_view("None".spec_bytes()).bytes()
}

/// `d` is the synthetic guild: one character handle, one member with a role, and the
/// current (`PostUpdate`) tail.
pub open spec fn synthetic_guild(d: group::GroupData) -> bool {
    &&& d.group_id@ == GUILD_ID@
    &&& d.group_name@ == ascii_view("test-group".spec_bytes())
    &&& d.individual_character_handle_ids@.len() == 1
    &&& d.individual_character_handle_ids@[0].guid@ == Seq::new(16, |i: int| 1u8)
    &&& d.individual_character_handle_ids@[0].instance_id@ == Seq::new(16, |i: int| 2u8)
    &&& d.data matches group::GroupVariant::Guild(g) && {
        &&& g.org_type == 0
        &&& g.leading_bytes@ == Seq::new(4, |i: int| 0u8)
        &&& g.base_ids@.len() == 0
        &&& g.unknown_1 == 0
        &&& g.base_camp_level == 7
        &&& g.map_object_instance_ids_base_camp_points@.len() == 0
        &&& g.guild_name@ == ascii_view("Original Name".spec_bytes())
        &&& g.last_guild_name_modifier_player_uid@ == Seq::new(16, |i: int| 0u8)
        &&& g.guild_markers@.len() == 0
        &&& g.tail matches group::GuildTail::PostUpdate(t) && {
            &&& t.guild_chest_allowed_roles@ == seq![1u8, 2u8]
            &&& t.unknown_i32 == 0
            &&& t.admin_player_uid@ == Seq::new(16, |i: int| 9u8)
            &&& t.players@.len() == 1
            &&& t.players@[0].player_uid@ == Seq::new(16, |i: int| 9u8)
            &&& t.players@[0].last_online_real_time == 682105930000
            &&& t.players@[0].player_name@ == ascii_view("Tester".spec_bytes())
            &&& t.players@[0].role == 1
            &&& t.role_permissions@.len() == 0
            &&& t.trailing_bytes@ == Seq::new(4, |i: int| 0u8)
        }
    }
}

/// `b` is the encoding of the synthetic guild.
pub open spec fn synthetic_guild_blob(b: Seq<u8>) -> bool {
    exists|d: group::GroupData| synthetic_guild(d) && b == group::group_bytes(d)
}

/// The synthetic `GroupSaveDataMap` entry value around the guild blob `blob`.
pub open spec fn group_entry_bytes(blob: Seq<u8>) -> Seq<u8> {
    property_bytes(
        "GroupType".spec_bytes(),
        "EnumProperty".spec_bytes(),
        TagExtraView::Enum { enum_type: ascii_view("EPalGroupType".spec_bytes()) },
        ascii_view(group::GUILD.spec_bytes()).bytes(),
    ) + property_bytes("RawData".spec_bytes(), "ArrayProperty".spec_bytes(), byte_array_extra_view(), byte_array_bytes(blob))
        + none_bytes()
}

/// The synthetic player's `SaveParameter` list: `Level` 34, `NickName` "Tester",
/// `IsPlayer` true.
pub open spec fn player_save_parameter_bytes() -> Seq<u8> {
    property_bytes(
        "Level".spec_bytes(),
        "ByteProperty".spec_bytes(),
        TagExtraView::Byte { enum_type: ascii_view("None".spec_bytes()) },
        seq![34u8],
    ) + property_bytes("NickName".spec_bytes(), "StrProperty".spec_bytes(), TagExtraView::NoExtra, ascii_view("Tester".spec_bytes()).bytes())
        + property_bytes("IsPlayer".spec_bytes(), "BoolProperty".spec_bytes(), TagExtraView::Bool(true), Seq::empty())
        + none_bytes()
}

/// The synthetic player's character blob.
pub open spec fn player_raw_data_bytes() -> Seq<u8> {
    property_bytes(
        "SaveParameter".spec_bytes(),
        "StructProperty".spec_bytes(),
        struct_extra_view("PalIndividualCharacterSaveParameter".spec_bytes()),
        player_save_parameter_bytes(),
    ) + none_bytes() + seq![0u8, 0u8, 0u8, 0u8] + GUILD_ID@ + seq![0u8, 0u8, 0u8, 0u8]
}

/// The synthetic `CharacterSaveParameterMap` entry: its key, then its value.
pub open spec fn character_map_value_bytes() -> Seq<u8> {
    u32_bytes(0) + u32_bytes(1) + guid_property_bytes("PlayerUId".spec_bytes(), PLAYER_UID@) + guid_property_bytes(
        "InstanceId".spec_bytes(),
        PLAYER_INSTANCE_ID@,
    ) + none_bytes() + property_bytes(
        "RawData".spec_bytes(),
        "ArrayProperty".spec_bytes(),
        byte_array_extra_view(),
        byte_array_bytes(player_raw_data_bytes()),
    ) + none_bytes()
}

/// `s` is the synthetic slot: index 0, five `Wood`, a zero dynamic id, nothing after.
pub open spec fn synthetic_slot(s: item_container::ItemContainerSlot) -> bool {
    &&& s.slot_index == 0
    &&& s.count == 5
    &&& s.item.static_id@ == ascii_view("Wood".spec_bytes())
    &&& s.item.dynamic_id.created_world_id@ == Seq::new(16, |i: int| 0u8)
    &&& s.item.dynamic_id.local_id_in_created_world@ == Seq::new(16, |i: int| 0u8)
    &&& s.trailing_bytes@.len() == 0
}

/// `b` is the encoding of the synthetic slot.
pub open spec fn synthetic_slot_blob(b: Seq<u8>) -> bool {
    exists|s: item_container::ItemContainerSlot| synthetic_slot(s) && b == item_container::item_slot_bytes(s)
}

/// The synthetic `ItemContainerSaveData` entry around the slot blob `slot_blob`: its
/// key, a one-element `Slots` array, and `SlotNum` 42.
pub open spec fn item_container_entry_bytes(slot_blob: Seq<u8>) -> Seq<u8> {
    let slot_body = property_bytes(
        "RawData".spec_bytes(),
        "ArrayProperty".spec_bytes(),
        byte_array_extra_view(),
        byte_array_bytes(slot_blob),
    ) + none_bytes();
    let slots_value = u32_bytes(1) + property_bytes(
        "Slots".spec_bytes(),
        "StructProperty".spec_bytes(),
        struct_extra_view("PalItemSlotSaveData".spec_bytes()),
        slot_body,
    );
    u32_bytes(0) + u32_bytes(1) + guid_property_bytes("ID".spec_bytes(), CONTAINER_ID@) + none_bytes() + property_bytes(
        "Slots".spec_bytes(),
        "ArrayProperty".spec_bytes(),
        TagExtraView::Array { inner_type: ascii_view("StructProperty".spec_bytes()) },
        slots_value,
    ) + property_bytes("SlotNum".spec_bytes(), "IntProperty".spec_bytes(), TagExtraView::NoExtra, i32_bytes(42))
        + none_bytes()
}

/// The header of the synthetic saves: save game version 3, package versions 522 and
/// 1009, engine 5.1.1 build 0, empty branch, custom version format 3 with no entries.
pub open spec fn synthetic_header_view() -> HeaderView {
    HeaderView {
        magic: GVAS_MAGIC,
        save_game_version: 3,
        package_version_ue4: 522,
        package_version_ue5: Some(1009),
        engine_version_major: 5,
        engine_version_minor: 1,
        engine_version_patch: 1,
        engine_version_build: 0,
        engine_version_branch: FStringView::Empty,
        custom_version: Some((3, Seq::empty())),
    }
}

/// The synthetic player save's GVAS: header, save class, and a `SaveData` holding the
/// player's uid and an `InventoryInfo` whose `CommonContainerId` is `CONTAINER_ID`.
pub open spec fn player_gvas_bytes() -> Seq<u8> {
    let container_id_value = guid_property_bytes("ID".spec_bytes(), CONTAINER_ID@) + none_bytes();
    let inventory_info = property_bytes(
        "CommonContainerId".spec_bytes(),
        "StructProperty".spec_bytes(),
        struct_extra_view("PalContainerId".spec_bytes()),
        container_id_value,
    ) + none_bytes();
    let save_data = guid_property_bytes("PlayerUId".spec_bytes(), PLAYER_UID@) + property_bytes(
        "InventoryInfo".spec_bytes(),
        "StructProperty".spec_bytes(),
        struct_extra_view("PalPlayerInventoryInfo".spec_bytes()),
        inventory_info,
    ) + none_bytes();
    synthetic_header_view().bytes() + ascii_view("/Script/Pal.PalWorldPlayerSaveGame".spec_bytes()).bytes()
        + property_bytes(
        "SaveData".spec_bytes(),
        "StructProperty".spec_bytes(),
        struct_extra_view("PalWorldPlayerSaveData".spec_bytes()),
        save_data,
    ) + none_bytes()
}

/// The synthetic level's GVAS around the guild blob `guild` and the slot blob `slot`:
/// header, save class, and a `worldSaveData` holding the group, character and item
/// container maps, one entry each.
pub open spec fn level_gvas_bytes(guild: Seq<u8>, slot: Seq<u8>) -> Seq<u8> {
    let group_map = u32_bytes(0) + u32_bytes(1) + GUILD_ID@ + group_entry_bytes(guild);
    let world = property_bytes("GroupSaveDataMap".spec_bytes(), "MapProperty".spec_bytes(), map_extra_view(), group_map)
        + property_bytes(
        "CharacterSaveParameterMap".spec_bytes(),
        "MapProperty".spec_bytes(),
        map_extra_view(),
        character_map_value_bytes(),
    ) + property_bytes(
        "ItemContainerSaveData".spec_bytes(),
        "MapProperty".spec_bytes(),
        map_extra_view(),
        item_container_entry_bytes(slot),
    ) + none_bytes();
    synthetic_header_view().bytes() + ascii_view("/Script/Pal.PalWorldSaveGame".spec_bytes()).bytes()
        + property_bytes(
        "worldSaveData".spec_bytes(),
        "StructProperty".spec_bytes(),
        struct_extra_view("PalWorldSaveData".spec_bytes()),
        world,
    ) + none_bytes()
}

fn tag(name: &str, property_type: &str, size: usize, extra: TagExtra) -> (t: PropertyTag)
    ensures
        t@ == tag_view(name.spec_bytes(), property_type.spec_bytes(), size as u32, extra@),
{
    PropertyTag {
        name: ascii(name),
        property_type: ascii(property_type),
        size: size as u32,
        index: 0,
        extra,
        guid: None,
    }
}

fn struct_extra(struct_type: &str) -> (r: TagExtra)
    ensures
        r@ == struct_extra_view(struct_type.spec_bytes()),
{
    let guid = [0u8; 16];
    assert(guid@ =~= Seq::new(16, |i: int| 0u8));
    TagExtra::Struct { struct_type: ascii(struct_type), guid }
}

fn byte_array_extra() -> (r: TagExtra)
    ensures
        r@ == byte_array_extra_view(),
{
    TagExtra::Array { inner_type: ascii("ByteProperty") }
}

fn map_extra() -> (r: TagExtra)
    ensures
        r@ == map_extra_view(),
{
    TagExtra::MapOf { key_type: ascii("StructProperty"), value_type: ascii("StructProperty") }
}

/// A property: its tag (sized to `value`), then `value`.
fn push_property(out: &mut Vec<u8>, name: &str, property_type: &str, extra: TagExtra, value: &Vec<u8>)
    ensures
        final(out)@ == old(out)@ + property_bytes(name.spec_bytes(), property_type.spec_bytes(), extra@, value@),
{
    write_property_tag(out, &tag(name, property_type, value.len(), extra), true);
    append_bytes(out, value.as_slice());
    assert(final(out)@ =~= old(out)@ + property_bytes(name.spec_bytes(), property_type.spec_bytes(), extra@, value@));
}

fn push_guid_property(out: &mut Vec<u8>, name: &str, guid: &[u8; 16])
    ensures
        final(out)@ == old(out)@ + guid_property_bytes(name.spec_bytes(), guid@),
{
    write_property_tag(out, &tag(name, "StructProperty", 16, struct_extra("Guid")), true);
    append_bytes(out, guid);
    assert(final(out)@ =~= old(out)@ + guid_property_bytes(name.spec_bytes(), guid@));
}

fn push_none(out: &mut Vec<u8>)
    ensures
        final(out)@ == old(out)@ + none_bytes(),
{
    write_fstring(out, &none_terminator());
}

/// One guild's RawData blob, in the current (`PostUpdate` tail) shape.
fn guild_blob() -> (r: Vec<u8>)
    ensures
        synthetic_guild_blob(r@),
{
    let ones = [1u8; 16];
    let twos = [2u8; 16];
    let nines = [9u8; 16];
    let zeros = [0u8; 16];
    let four = [0u8; 4];
    assert(ones@ =~= Seq::new(16, |i: int| 1u8));
    assert(twos@ =~= Seq::new(16, |i: int| 2u8));
    assert(nines@ =~= Seq::new(16, |i: int| 9u8));
    assert(zeros@ =~= Seq::new(16, |i: int| 0u8));
    assert(four@ =~= Seq::new(4, |i: int| 0u8));
    let mut handles: Vec<group::CharacterHandle> = Vec::new();
    handles.push(group::CharacterHandle { guid: ones, instance_id: twos });
    let mut players: Vec<group::GuildPlayerWithRole> = Vec::new();
    players.push(
        group::GuildPlayerWithRole {
            player_uid: nines,
            last_online_real_time: 682105930000,
            player_name: ascii("Tester"),
            role: 1,
        },
    );
    let mut chest_roles: Vec<u8> = Vec::new();
    chest_roles.push(1);
    chest_roles.push(2);
    assert(chest_roles@ =~= seq![1u8, 2u8]);
    let d = group::GroupData {
        group_id: GUILD_ID,
        group_name: ascii("test-group"),
        individual_character_handle_ids: handles,
        data: group::GroupVariant::Guild(
            group::GuildGroup {
                org_type: 0,
                leading_bytes: four,
                base_ids: Vec::new(),
                unknown_1: 0,
                base_camp_level: 7,
                map_object_instance_ids_base_camp_points: Vec::new(),
                guild_name: ascii("Original Name"),
                last_guild_name_modifier_player_uid: zeros,
                guild_markers: Vec::new(),
                tail: group::GuildTail::PostUpdate(
                    group::GuildTailPostUpdate {
                        guild_chest_allowed_roles: chest_roles,
                        unknown_i32: 0,
                        admin_player_uid: nines,
                        players,
                        role_permissions: Vec::new(),
                        trailing_bytes: four,
                    },
                ),
            },
        ),
    };
    assert(synthetic_guild(d));
    group::encode(&d)
}

/// The `GroupSaveDataMap` entry value: a property list carrying GroupType + RawData.
fn group_entry_value() -> (r: Vec<u8>)
    ensures
        exists|blob: Seq<u8>| synthetic_guild_blob(blob) && r@ == group_entry_bytes(blob),
{
    let mut out: Vec<u8> = Vec::new();
    let mut group_type_value: Vec<u8> = Vec::new();
    write_fstring(&mut group_type_value, &ascii(group::GUILD));
    push_property(
        &mut out,
        "GroupType",
        "EnumProperty",
        TagExtra::Enum { enum_type: ascii("EPalGroupType") },
        &group_type_value,
    );
    let blob = guild_blob();
    push_property(&mut out, "RawData", "ArrayProperty", byte_array_extra(), &byte_array_value(blob.as_slice()));
    push_none(&mut out);
    out
}

/// A `SaveParameter` property list for a player: the `IsPlayer` flag plus a couple
/// of stats.
fn player_save_parameter() -> (r: Vec<u8>)
    ensures
        r@ == player_save_parameter_bytes(),
{
    let mut out: Vec<u8> = Vec::new();
    let mut level: Vec<u8> = Vec::new();
    level.push(34);
    push_property(&mut out, "Level", "ByteProperty", TagExtra::Byte { enum_type: ascii("None") }, &level);
    let mut nick: Vec<u8> = Vec::new();
    write_fstring(&mut nick, &ascii("Tester"));
    push_property(&mut out, "NickName", "StrProperty", TagExtra::NoExtra, &nick);
    push_property(&mut out, "IsPlayer", "BoolProperty", TagExtra::Bool(true), &Vec::new());
    push_none(&mut out);
    out
}

/// The character RawData blob: a nested property list holding `SaveParameter`, then
/// 4 unknown bytes, a group id, and 4 trailing bytes.
fn player_raw_data() -> (r: Vec<u8>)
    ensures
        r@ == player_raw_data_bytes(),
{
    let save_parameter = player_save_parameter();
    let mut blob: Vec<u8> = Vec::new();
    push_property(
        &mut blob,
        "SaveParameter",
        "StructProperty",
        struct_extra("PalIndividualCharacterSaveParameter"),
        &save_parameter,
    );
    push_none(&mut blob);
    append_bytes(&mut blob, &[0u8, 0, 0, 0]);
    append_bytes(&mut blob, &GUILD_ID);
    append_bytes(&mut blob, &[0u8, 0, 0, 0]);
    blob
}

/// One `CharacterSaveParameterMap` entry; the key carries the PlayerUId.
fn character_map_value() -> (r: Vec<u8>)
    ensures
        r@ == character_map_value_bytes(),
{
    let mut v: Vec<u8> = Vec::new();
    write_u32_le(&mut v, 0);
    write_u32_le(&mut v, 1);
    push_guid_property(&mut v, "PlayerUId", &PLAYER_UID);
    push_guid_property(&mut v, "InstanceId", &PLAYER_INSTANCE_ID);
    push_none(&mut v);
    let blob = player_raw_data();
    push_property(&mut v, "RawData", "ArrayProperty", byte_array_extra(), &byte_array_value(blob.as_slice()));
    push_none(&mut v);
    v
}

/// One `ItemContainerSaveData` entry holding a single occupied slot.
fn item_container_map_value() -> (r: Vec<u8>)
    ensures
        exists|b: Seq<u8>| synthetic_slot_blob(b) && r@ == item_container_entry_bytes(b),
{
    let mut v: Vec<u8> = Vec::new();
    write_u32_le(&mut v, 0);
    write_u32_le(&mut v, 1);
    push_guid_property(&mut v, "ID", &CONTAINER_ID);
    push_none(&mut v);

    let zeros = [0u8; 16];
    assert(zeros@ =~= Seq::new(16, |i: int| 0u8));
    let slot = item_container::ItemContainerSlot {
        slot_index: 0,
        count: 5,
        item: item_container::ItemId {
            static_id: ascii("Wood"),
            dynamic_id: item_container::DynamicId { created_world_id: zeros, local_id_in_created_world: zeros },
        },
        trailing_bytes: Vec::new(),
    };
    assert(synthetic_slot(slot));
    let slot_blob = item_container::encode_slot(&slot);
    let mut slot_body: Vec<u8> = Vec::new();
    push_property(
        &mut slot_body,
        "RawData",
        "ArrayProperty",
        byte_array_extra(),
        &byte_array_value(slot_blob.as_slice()),
    );
    push_none(&mut slot_body);

    // Slots: ArrayProperty<StructProperty>; the element tag is written once, before
    // the bodies.
    let mut slots_value: Vec<u8> = Vec::new();
    write_u32_le(&mut slots_value, 1);
    push_property(&mut slots_value, "Slots", "StructProperty", struct_extra("PalItemSlotSaveData"), &slot_body);

    push_property(
        &mut v,
        "Slots",
        "ArrayProperty",
        TagExtra::Array { inner_type: ascii("StructProperty") },
        &slots_value,
    );
    let mut slot_num: Vec<u8> = Vec::new();
    write_i32_le(&mut slot_num, 42);
    push_property(&mut v, "SlotNum", "IntProperty", TagExtra::NoExtra, &slot_num);
    push_none(&mut v);
    assert(v@ =~= item_container_entry_bytes(slot_blob@));
    v
}

fn synthetic_header() -> (h: Header)
    ensures
        h@ == synthetic_header_view(),
{
    Header {
        magic: GVAS_MAGIC,
        save_game_version: 3,
        package_version_ue4: 522,
        package_version_ue5: Some(1009),
        engine_version_major: 5,
        engine_version_minor: 1,
        engine_version_patch: 1,
        engine_version_build: 0,
        engine_version_branch: FString::Empty,
        custom_version: Some((3, Vec::new())),
    }
}

fn zlib_template() -> (c: Container)
    ensures
        c.algorithm == Algorithm::Zlib,
        c.passes == Passes::One,
{
    Container { algorithm: Algorithm::Zlib, passes: Passes::One, was_cnk_wrapped: false, gvas: Vec::new() }
}

/// A `Players/<uid>.sav`: the save class that identifies it, plus the `SaveData`
/// holding the player's uid and the container id that makes an inventory resolvable.
/// Compressed as PlZ with one pass.
pub fn synthetic_player_sav() -> (out: Vec<u8>)
    ensures
        out@ == encoded(player_gvas_bytes(), Passes::One),
{
    let mut container_id_value: Vec<u8> = Vec::new();
    push_guid_property(&mut container_id_value, "ID", &CONTAINER_ID);
    push_none(&mut container_id_value);

    let mut inventory_info: Vec<u8> = Vec::new();
    push_property(
        &mut inventory_info,
        "CommonContainerId",
        "StructProperty",
        struct_extra("PalContainerId"),
        &container_id_value,
    );
    push_none(&mut inventory_info);

    let mut save_data: Vec<u8> = Vec::new();
    push_guid_property(&mut save_data, "PlayerUId", &PLAYER_UID);
    push_property(
        &mut save_data,
        "InventoryInfo",
        "StructProperty",
        struct_extra("PalPlayerInventoryInfo"),
        &inventory_info,
    );
    push_none(&mut save_data);

    let mut gvas: Vec<u8> = Vec::new();
    synthetic_header().write(&mut gvas);
    write_fstring(&mut gvas, &ascii("/Script/Pal.PalWorldPlayerSaveGame"));
    push_property(&mut gvas, "SaveData", "StructProperty", struct_extra("PalWorldPlayerSaveData"), &save_data);
    push_none(&mut gvas);
    assert(gvas@ =~= player_gvas_bytes());
    container::encode(gvas.as_slice(), &zlib_template())
}

/// A minimal but structurally real Level.sav: header, `worldSaveData`, one
/// `GroupSaveDataMap` entry, one `CharacterSaveParameterMap` entry and one
/// `ItemContainerSaveData` entry. Compressed as PlZ with one pass.
pub fn synthetic_sav() -> (out: Vec<u8>)
    ensures
        exists|guild: Seq<u8>, slot: Seq<u8>|
            synthetic_guild_blob(guild) && synthetic_slot_blob(slot) && out@ == encoded(level_gvas_bytes(guild, slot), Passes::One),
{
    let group_value = group_entry_value();
    let ghost guild = choose|blob: Seq<u8>| synthetic_guild_blob(blob) && group_value@ == group_entry_bytes(blob);
    let mut map_value: Vec<u8> = Vec::new();
    write_u32_le(&mut map_value, 0);
    write_u32_le(&mut map_value, 1);
    append_bytes(&mut map_value, &GUILD_ID);
    append_bytes(&mut map_value, group_value.as_slice());

    let items = item_container_map_value();
    let ghost slot = choose|b: Seq<u8>| synthetic_slot_blob(b) && items@ == item_container_entry_bytes(b);
    let mut world_value: Vec<u8> = Vec::new();
    push_property(&mut world_value, "GroupSaveDataMap", "MapProperty", map_extra(), &map_value);
    push_property(&mut world_value, "CharacterSaveParameterMap", "MapProperty", map_extra(), &character_map_value());
    push_property(&mut world_value, "ItemContainerSaveData", "MapProperty", map_extra(), &items);
    push_none(&mut world_value);

    let mut gvas: Vec<u8> = Vec::new();
    synthetic_header().write(&mut gvas);
    write_fstring(&mut gvas, &ascii("/Script/Pal.PalWorldSaveGame"));
    push_property(&mut gvas, "worldSaveData", "StructProperty", struct_extra("PalWorldSaveData"), &world_value);
    push_none(&mut gvas);
    assert(gvas@ =~= level_gvas_bytes(guild, slot));
    container::encode(gvas.as_slice(), &zlib_template())
}

} // verus!
