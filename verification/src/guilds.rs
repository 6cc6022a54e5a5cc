//! Task-level guild operations, composed from the gvas / rawdata / edit layers below.
//! Everything here takes and returns *decompressed GVAS* bytes; container compression
//! is the caller's business (see `crate::container`).

use vstd::prelude::*;
use vstd::string::*;
use crate::edit::{self, EditError, Splice, are_size_fixups, assembled, lemma_ordered_apply_defined, ranges_ordered, sort_splices, value_start_at};
use crate::gvas::nav::{byte_hex, find_index, parse_hex, push_byte_hex};
use crate::gvas::primitives::{FString, Guid};
use crate::gvas::value::{Value, entry_readable};
use crate::gvas::{GvasError, PropertyEntry, declares_property_guid, parses};
use crate::rawdata::error::RawDataError;
use crate::rawdata::group::{self, GroupData, GroupVariant, GuildGroup, GuildTail, IndependentGuildGroup, group_decodes, group_end};
use crate::world::{self, MapEntry, WorldError, decoded_as, engine_of, materialize_at, no_world, no_world_map, world_map_entries};
use crate::gvas::nav::{first_named, none_named, same_entry};
use crate::gvas::primitives::FStringView;

use crate::gvas::error::{gvas_message, push_quoted, quoted};
use crate::rawdata::error::raw_data_message;
use crate::edit::error::edit_message;
use crate::text::push_str;

verus! {

pub const GROUP_MAP: &'static str = "GroupSaveDataMap";

pub const GROUP_TYPE_PATH: &'static str = "worldSaveData.GroupSaveDataMap.Value.GroupType";

pub const RAW_DATA_PATH: &'static str = "worldSaveData.GroupSaveDataMap.Value.RawData";

#[derive(Debug)]
pub enum GuildError {
    Gvas(GvasError),
    RawData(RawDataError),
    Edit(EditError),
    /// This save has no `worldSaveData.GroupSaveDataMap` — e.g. it's a
    /// `Players/*.sav` or `LevelMeta.sav`, not a `Level.sav`.
    NoGroupMap,
    GuildNotFound { id: String },
    /// The requested group exists but isn't a named guild (an `Organization` has no
    /// `guild_name` field at all).
    NotANamedGuild { id: String },
    MalformedGuildId { id: String },
}

/// The human-readable description of each error.
pub open spec fn guild_message(e: GuildError) -> Seq<char> {
    match e {
        GuildError::Gvas(g) => gvas_message(g),
        GuildError::RawData(r) => raw_data_message(r),
        GuildError::Edit(x) => edit_message(x),
        GuildError::NoGroupMap => "this save has no worldSaveData.GroupSaveDataMap"@,
        GuildError::GuildNotFound { id } => "no guild with id "@ + id@,
        GuildError::NotANamedGuild { id } => "group "@ + id@ + " is not a named guild"@,
        GuildError::MalformedGuildId { id } => "malformed guild id "@ + quoted(id@) + ": want 32 hex chars"@,
    }
}

impl GuildError {
    /// A one-line, human-readable description.
    pub fn message(&self) -> (r: String)
        ensures
            r@ == guild_message(*self),
    {
        let mut s = String::new();
        match self {
            GuildError::Gvas(g) => {
                return g.message();
            },
            GuildError::RawData(r) => {
                return r.message();
            },
            GuildError::Edit(x) => {
                return x.message();
            },
            GuildError::NoGroupMap => push_str(&mut s, "this save has no worldSaveData.GroupSaveDataMap"),
            GuildError::GuildNotFound { id } => {
                push_str(&mut s, "no guild with id ");
                push_str(&mut s, id.as_str());
            },
            GuildError::NotANamedGuild { id } => {
                push_str(&mut s, "group ");
                push_str(&mut s, id.as_str());
                push_str(&mut s, " is not a named guild");
            },
            GuildError::MalformedGuildId { id } => {
                push_str(&mut s, "malformed guild id ");
                push_quoted(&mut s, id.as_str());
                push_str(&mut s, ": want 32 hex chars");
            },
        }
        assert(s@ =~= guild_message(*self));
        s
    }
}

impl GuildError {
    /// Stable, machine-readable discriminant for the wasm boundary.
    pub fn code(&self) -> (r: &'static str)
        ensures
            match *self {
                GuildError::Gvas(_) => r@ == "gvas_parse_failed"@,
                GuildError::RawData(_) => r@ == "rawdata_decode_failed"@,
                GuildError::Edit(_) => r@ == "edit_failed"@,
                GuildError::NoGroupMap => r@ == "no_group_map"@,
                GuildError::GuildNotFound { .. } => r@ == "guild_not_found"@,
                GuildError::NotANamedGuild { .. } => r@ == "not_a_named_guild"@,
                GuildError::MalformedGuildId { .. } => r@ == "malformed_guild_id"@,
            },
    {
        match self {
            GuildError::Gvas(_) => "gvas_parse_failed",
            GuildError::RawData(_) => "rawdata_decode_failed",
            GuildError::Edit(_) => "edit_failed",
            GuildError::NoGroupMap => "no_group_map",
            GuildError::GuildNotFound { .. } => "guild_not_found",
            GuildError::NotANamedGuild { .. } => "not_a_named_guild",
            GuildError::MalformedGuildId { .. } => "malformed_guild_id",
        }
    }
}

// ---------------------------------------------------------------------------
// Guids as 32 lowercase hex characters
// ---------------------------------------------------------------------------

/// Each byte as two lowercase hex digits, in order, with no separators.
pub open spec fn guid_hex(g: Seq<u8>) -> Seq<char>
    decreases g.len(),
{
    if g.len() == 0 {
        Seq::empty()
    } else {
        guid_hex(g.drop_last()) + byte_hex(g.last())
    }
}

/// The guid 32 hex characters (as bytes) spell, two per byte; `None` for any other
/// length or a pair that is not a hex number.
pub open spec fn guid_from_hex(hex: Seq<u8>) -> Option<Seq<u8>> {
    if hex.len() == 32 && forall|k: int| 0 <= k < 16 ==> (#[trigger] parse_hex(hex.subrange(2 * k, 2 * k + 2))) is Some {
        Some(Seq::new(16, |k: int| parse_hex(hex.subrange(2 * k, 2 * k + 2))->0 as u8))
    } else {
        None
    }
}

/// A `Guid` rendered as 32 lowercase hex chars — a stable, reversible handle.
pub fn guid_to_hex(guid: &Guid) -> (s: String)
    ensures
        s@ == guid_hex(guid@),
{
    let mut s = String::new();
    let mut i: usize = 0;
    while i < 16
        invariant
            i <= 16,
            guid@.len() == 16,
            s@ == guid_hex(guid@.subrange(0, i as int)),
        decreases 16 - i,
    {
        push_byte_hex(&mut s, guid[i]);
        proof {
            assert(guid@.subrange(0, i + 1).drop_last() =~= guid@.subrange(0, i as int));
        }
        i = i + 1;
    }
    assert(guid@.subrange(0, 16) =~= guid@);
    s
}

pub fn hex_to_guid(hex: &str) -> (r: Option<Guid>)
    ensures
        match r {
            Some(g) => guid_from_hex(hex.spec_bytes()) == Some(g@),
            None => guid_from_hex(hex.spec_bytes()) is None,
        },
{
    let bytes = hex.as_bytes();
    if bytes.len() != 32 {
        return None;
    }
    let mut out: Guid = [0u8; 16];
    let mut i: usize = 0;
    while i < 16
        invariant
            i <= 16,
            bytes@.len() == 32,
            bytes@ == hex.spec_bytes(),
            out@.len() == 16,
            forall|k: int| 0 <= k < i ==> (#[trigger] parse_hex(bytes@.subrange(2 * k, 2 * k + 2))) is Some,
            forall|k: int| 0 <= k < i ==> out@[k] == parse_hex(bytes@.subrange(2 * k, 2 * k + 2))->0 as u8,
        decreases 16 - i,
    {
        let chunk = vstd::slice::slice_subrange(bytes, 2 * i, 2 * i + 2);
        let v = match crate::gvas::nav::parse_hex_bytes(chunk) {
            Some(v) => v,
            None => {
                return None;
            },
        };
        out[i] = v as u8;
        i = i + 1;
    }
    let ghost expected = Seq::new(16, |k: int| parse_hex(bytes@.subrange(2 * k, 2 * k + 2))->0 as u8);
    assert(out@ =~= expected);
    Some(out)
}

/// Law: a guid's hex rendering reads back as the same guid.
pub proof fn guid_hex_round_trip(g: Guid, s: &str)
    requires
        s@ == guid_hex(g@),
    ensures
        guid_from_hex(s.spec_bytes()) == Some(g@),
{
    lemma_guid_hex_chars(g@);
    lemma_guid_hex_len(g@);
    assert(is_ascii(s));
    is_ascii_spec_bytes(s);
    let b = s.spec_bytes();
    assert(b.len() == 32);
    assert forall|k: int| 0 <= k < 16 implies #[trigger] parse_hex(b.subrange(2 * k, 2 * k + 2)) == Some(
        g@[k] as int,
    ) by {
        lemma_guid_hex_at(g@, k);
        let x = g@[k];
        let hi: u8 = x / 16;
        let lo: u8 = x % 16;
        let chunk = b.subrange(2 * k, 2 * k + 2);
        assert(chunk[0] == s@[2 * k] as u8);
        assert(chunk[1] == s@[2 * k + 1] as u8);
        lemma_hex_digit(hi);
        lemma_hex_digit(lo);
        assert(chunk.drop_last().drop_last() =~= Seq::<u8>::empty());
        assert(chunk.drop_last().last() == chunk[0]);
        assert(crate::gvas::nav::radix16(chunk.drop_last().drop_last()) == Some(0int));
        assert(crate::gvas::nav::radix16(chunk.drop_last()) == Some(hi as int));
        assert(crate::gvas::nav::radix16(chunk) == Some(hi * 16 + lo));
        assert(hi * 16 + lo == x) by (nonlinear_arith)
            requires
                hi == x / 16,
                lo == x % 16,
        ;
    }
    assert(guid_from_hex(b) == Some(Seq::new(16, |k: int| parse_hex(b.subrange(2 * k, 2 * k + 2))->0 as u8)));
    assert(Seq::new(16, |k: int| parse_hex(b.subrange(2 * k, 2 * k + 2))->0 as u8) =~= g@);
}

proof fn lemma_hex_digit(n: u8)
    requires
        n < 16,
    ensures
        crate::gvas::nav::hex_value(crate::gvas::nav::hex_char(n) as u8) == Some(n as int),
        (crate::gvas::nav::hex_char(n) as u8) != 43,
{
}

proof fn lemma_guid_hex_len(g: Seq<u8>)
    ensures
        guid_hex(g).len() == 2 * g.len(),
    decreases g.len(),
{
    if g.len() > 0 {
        lemma_guid_hex_len(g.drop_last());
    }
}

proof fn lemma_guid_hex_at(g: Seq<u8>, k: int)
    requires
        0 <= k < g.len(),
    ensures
        guid_hex(g).len() == 2 * g.len(),
        guid_hex(g)[2 * k] == crate::gvas::nav::hex_char(g[k] / 16),
        guid_hex(g)[2 * k + 1] == crate::gvas::nav::hex_char(g[k] % 16),
    decreases g.len(),
{
    lemma_guid_hex_len(g);
    lemma_guid_hex_len(g.drop_last());
    if k < g.len() - 1 {
        lemma_guid_hex_at(g.drop_last(), k);
        assert(g.drop_last()[k] == g[k]);
    }
}

proof fn lemma_guid_hex_chars(g: Seq<u8>)
    ensures
        vstd::utf8::is_ascii_chars(guid_hex(g)),
    decreases g.len(),
{
    lemma_guid_hex_len(g);
    assert forall|i: int| 0 <= i < guid_hex(g).len() implies '\0' <= #[trigger] guid_hex(g)[i] <= '\u{7f}' by {
        let k = i / 2;
        lemma_guid_hex_at(g, k);
        if i % 2 == 0 {
            assert(i == 2 * k);
        } else {
            assert(i == 2 * k + 1);
        }
    }
}

// ---------------------------------------------------------------------------
// View models
// ---------------------------------------------------------------------------

/// Small view model: what a guild list needs, and nothing proportional to save size.
#[derive(Debug, Clone, PartialEq, Eq)]
pub struct GuildSummary {
    pub id: String,
    pub group_type: String,
    pub name: String,
    pub member_count: usize,
    pub base_camp_level: i32,
    pub pal_count: usize,
}

#[derive(Debug, Clone, PartialEq, Eq)]
pub struct GuildMember {
    pub player_uid: String,
    pub player_name: String,
    pub last_online_real_time: i64,
    /// Per-member guild role, present only on the newer `PostUpdate` tail shape.
    pub role: Option<u8>,
}

#[derive(Debug, Clone, PartialEq, Eq)]
pub struct GuildDetail {
    pub summary: GuildSummary,
    pub admin_player_uid: Option<String>,
    pub members: Vec<GuildMember>,
}

/// The name a group is listed under: the guild name for guilds, the group name
/// otherwise.
pub open spec fn group_display_name(d: GroupData) -> Seq<char> {
    match d.data {
        GroupVariant::Guild(g) => g.guild_name@.display(),
        GroupVariant::IndependentGuild(g) => g.guild_name@.display(),
        _ => d.group_name@.display(),
    }
}

/// Members: a guild's roster size, one for a solo guild, none otherwise.
pub open spec fn group_member_count(d: GroupData) -> int {
    match d.data {
        GroupVariant::Guild(g) => match g.tail {
            GuildTail::PreUpdate(t) => t.players@.len() as int,
            GuildTail::PostUpdate(t) => t.players@.len() as int,
        },
        GroupVariant::IndependentGuild(_) => 1,
        _ => 0,
    }
}

pub open spec fn group_base_camp_level(d: GroupData) -> i32 {
    match d.data {
        GroupVariant::Guild(g) => g.base_camp_level,
        GroupVariant::IndependentGuild(g) => g.base_camp_level,
        _ => 0,
    }
}

/// `s` summarizes the group `d` of type `group_type`.
pub open spec fn summary_of(s: GuildSummary, group_type: Seq<char>, d: GroupData) -> bool {
    &&& s.id@ == guid_hex(d.group_id@)
    &&& s.group_type@ == group_type
    &&& s.name@ == group_display_name(d)
    &&& s.member_count == group_member_count(d)
    &&& s.base_camp_level == group_base_camp_level(d)
    &&& s.pal_count == d.individual_character_handle_ids@.len()
}

pub open spec fn member_of(m: GuildMember, uid: Guid, name: FString, last_online: i64, role: Option<u8>) -> bool {
    &&& m.player_uid@ == guid_hex(uid@)
    &&& m.player_name@ == name@.display()
    &&& m.last_online_real_time == last_online
    &&& m.role == role
}

/// `det` details the group `d` of type `group_type`: its summary, the admin (the
/// solo player for an independent guild) and the members in roster order.
pub open spec fn detail_of(det: GuildDetail, group_type: Seq<char>, d: GroupData) -> bool {
    &&& summary_of(det.summary, group_type, d)
    &&& match d.data {
        GroupVariant::Guild(g) => match g.tail {
            GuildTail::PreUpdate(t) => {
                &&& det.admin_player_uid matches Some(a) && a@ == guid_hex(t.admin_player_uid@)
                &&& det.members@.len() == t.players@.len()
                &&& forall|i: int|
                    0 <= i < t.players@.len() ==> member_of(
                        #[trigger] det.members@[i],
                        t.players@[i].player_uid,
                        t.players@[i].player_name,
                        t.players@[i].last_online_real_time,
                        None,
                    )
            },
            GuildTail::PostUpdate(t) => {
                &&& det.admin_player_uid matches Some(a) && a@ == guid_hex(t.admin_player_uid@)
                &&& det.members@.len() == t.players@.len()
                &&& forall|i: int|
                    0 <= i < t.players@.len() ==> member_of(
                        #[trigger] det.members@[i],
                        t.players@[i].player_uid,
                        t.players@[i].player_name,
                        t.players@[i].last_online_real_time,
                        Some(t.players@[i].role),
                    )
            },
        },
        GroupVariant::IndependentGuild(g) => {
            &&& det.admin_player_uid matches Some(a) && a@ == guid_hex(g.player_uid@)
            &&& det.members@.len() == 1
            &&& member_of(det.members@[0], g.player_uid, g.player_name, g.last_online_real_time, None)
        },
        _ => det.admin_player_uid is None && det.members@.len() == 0,
    }
}

// ---------------------------------------------------------------------------
// The walk
// ---------------------------------------------------------------------------

/// One group's location in the save: the `RawData` property to splice, plus the
/// already-decoded blob.
struct GroupSlot {
    raw_entry: PropertyEntry,
    group_type: String,
    data: GroupData,
}

struct GroupWalk {
    world_entry: PropertyEntry,
    map_entry: PropertyEntry,
    groups: Vec<GroupSlot>,
    engine_major: u16,
    has_property_guid: bool,
}

/// `d` is the complete decode, as type `group_type`, of the byte array held by
/// `entry` of `gvas`.
pub open spec fn group_blob_of(gvas: Seq<u8>, entry: PropertyEntry, engine_major: u16, group_type: Seq<char>, d: GroupData) -> bool {
    exists|v: Value| {
        &&& decoded_as(gvas, entry, RAW_DATA_PATH@, engine_major, declares_property_guid(gvas), v)
        &&& v matches Value::Bytes(raw) && group_end(raw@, group_type) == Some(raw@.len() as int) && group_decodes(
            raw@,
            group_type,
            d,
        )
    }
}

/// The group that the map entry `e` holds: its `GroupType` enum reads as the text `t`,
/// `raw` is its `RawData` property, and that byte array decodes completely as `d`.
pub open spec fn entry_group(gvas: Seq<u8>, e: MapEntry, t: Seq<char>, raw: PropertyEntry, d: GroupData) -> bool {
    let eng = engine_of(gvas);
    let g = declares_property_guid(gvas);
    &&& exists|i: int, s: FString|
        first_named(e.fields@, "GroupType"@, i) && #[trigger] decoded_as(gvas, e.fields@[i], GROUP_TYPE_PATH@, eng, g, Value::Enum(s))
            && s@.display() == t
    &&& exists|k: int| first_named(e.fields@, "RawData"@, k) && #[trigger] same_entry(raw, e.fields@[k])
    &&& group_blob_of(gvas, raw, eng, t, d)
}

/// The `GroupType` of `e` reads as an enum.
pub open spec fn has_group_type(gvas: Seq<u8>, e: MapEntry) -> bool {
    exists|i: int, s: FString|
        first_named(e.fields@, "GroupType"@, i) && #[trigger] decoded_as(
            gvas,
            e.fields@[i],
            GROUP_TYPE_PATH@,
            engine_of(gvas),
            declares_property_guid(gvas),
            Value::Enum(s),
        )
}

/// The map entry `e` holds no group: it has no `GroupType` enum, or no `RawData` byte
/// array.
pub open spec fn entry_skipped(gvas: Seq<u8>, e: MapEntry) -> bool {
    let eng = engine_of(gvas);
    let g = declares_property_guid(gvas);
    ||| none_named(e.fields@, "GroupType"@)
    ||| exists|i: int, v: Value|
        first_named(e.fields@, "GroupType"@, i) && #[trigger] decoded_as(gvas, e.fields@[i], GROUP_TYPE_PATH@, eng, g, v)
            && !(v is Enum)
    ||| has_group_type(gvas, e) && none_named(e.fields@, "RawData"@)
    ||| has_group_type(gvas, e) && exists|k: int, v: Value|
        first_named(e.fields@, "RawData"@, k) && #[trigger] decoded_as(gvas, e.fields@[k], RAW_DATA_PATH@, eng, g, v)
            && !(v is Bytes)
}

/// The map entry `e` holds a group whose `RawData` byte array does not decode completely.
pub open spec fn entry_fails(gvas: Seq<u8>, e: MapEntry) -> bool {
    let eng = engine_of(gvas);
    let g = declares_property_guid(gvas);
    exists|i: int, s: FString, k: int, b: Vec<u8>|
        #![trigger decoded_as(gvas, e.fields@[i], GROUP_TYPE_PATH@, eng, g, Value::Enum(s)), decoded_as(gvas, e.fields@[k], RAW_DATA_PATH@, eng, g, Value::Bytes(b))]
        {
            &&& first_named(e.fields@, "GroupType"@, i)
            &&& decoded_as(gvas, e.fields@[i], GROUP_TYPE_PATH@, eng, g, Value::Enum(s))
            &&& first_named(e.fields@, "RawData"@, k)
            &&& decoded_as(gvas, e.fields@[k], RAW_DATA_PATH@, eng, g, Value::Bytes(b))
            &&& group_end(b@, s@.display()) != Some(b@.len() as int)
        }
}

/// `gs` are, in order, the groups (type text, `RawData` property, decoded blob) held by
/// the entries `es`, skipping entries that hold none.
pub open spec fn groups_in(gvas: Seq<u8>, es: Seq<MapEntry>, gs: Seq<(Seq<char>, PropertyEntry, GroupData)>) -> bool
    decreases es.len(),
{
    if es.len() == 0 {
        gs.len() == 0
    } else {
        ||| gs.len() > 0 && entry_group(gvas, es.last(), gs.last().0, gs.last().1, gs.last().2) && groups_in(
            gvas,
            es.drop_last(),
            gs.drop_last(),
        )
        ||| entry_skipped(gvas, es.last()) && groups_in(gvas, es.drop_last(), gs)
    }
}

/// `gs` are, in map order, the groups of the save's `worldSaveData.GroupSaveDataMap`.
pub open spec fn save_groups(gvas: Seq<u8>, gs: Seq<(Seq<char>, PropertyEntry, GroupData)>) -> bool {
    exists|es: Seq<MapEntry>| #[trigger] world_map_entries(gvas, GROUP_MAP@, es) && groups_in(gvas, es, gs)
}

/// Some entry of the save's group map holds a group whose blob does not decode.
pub open spec fn group_blob_fails(gvas: Seq<u8>) -> bool {
    exists|es: Seq<MapEntry>, j: int|
        #![trigger world_map_entries(gvas, GROUP_MAP@, es), es[j]]
        world_map_entries(gvas, GROUP_MAP@, es) && 0 <= j < es.len() && entry_fails(gvas, es[j])
}

/// The save has no group map.
pub open spec fn no_group_map(gvas: Seq<u8>) -> bool {
    no_world(gvas) || no_world_map(gvas, GROUP_MAP@)
}

/// `k` is the first of `gs` whose hex id is `id`.
pub open spec fn first_match(gs: Seq<(Seq<char>, PropertyEntry, GroupData)>, k: int, id: Seq<char>) -> bool {
    &&& 0 <= k < gs.len()
    &&& guid_hex(gs[k].2.group_id@) == id
    &&& forall|j: int| 0 <= j < k ==> guid_hex((#[trigger] gs[j]).2.group_id@) != id
}

/// No group of `gs` has the hex id `id`.
pub open spec fn no_match(gs: Seq<(Seq<char>, PropertyEntry, GroupData)>, id: Seq<char>) -> bool {
    forall|j: int| 0 <= j < gs.len() ==> guid_hex((#[trigger] gs[j]).2.group_id@) != id
}

/// The group at `k` of `gs` is a named guild.
pub open spec fn named_at(gs: Seq<(Seq<char>, PropertyEntry, GroupData)>, k: int) -> bool {
    gs[k].2.data is Guild || gs[k].2.data is IndependentGuild
}

/// `out` is `gvas` with the group at `k` of `gs` renamed to `name`.
pub open spec fn renamed_at(
    gvas: Seq<u8>,
    out: Seq<u8>,
    id: Seq<char>,
    name: Seq<char>,
    gs: Seq<(Seq<char>, PropertyEntry, GroupData)>,
    k: int,
) -> bool {
    exists|chain: Seq<&PropertyEntry>, d2: GroupData, s: Seq<Splice>|
        #[trigger] renames_guild(gvas, out, id, name, chain, engine_of(gvas), gs[k].0, gs[k].2, d2, s)
            && *chain.last() == gs[k].1
}

/// The groups a walk found, as (type text, `RawData` property, decoded blob).
spec fn walk_groups_view(groups: Seq<GroupSlot>) -> Seq<(Seq<char>, PropertyEntry, GroupData)> {
    groups.map_values(|s: GroupSlot| (s.group_type@, s.raw_entry, s.data))
}

spec fn slot_ok(gvas: Seq<u8>, w: GroupWalk, s: GroupSlot) -> bool {
    &&& s.raw_entry.name@ == "RawData"@
    &&& entry_readable(gvas, s.raw_entry, w.has_property_guid)
    &&& group_blob_of(gvas, s.raw_entry, w.engine_major, s.group_type@, s.data)
}

spec fn walk_ok(gvas: Seq<u8>, w: GroupWalk) -> bool {
    &&& parses(gvas)
    &&& w.engine_major == engine_of(gvas)
    &&& w.has_property_guid == declares_property_guid(gvas)
    &&& w.world_entry.name@ == "worldSaveData"@
    &&& w.map_entry.name@ == GROUP_MAP@
    &&& world::world_entry_is(gvas, w.world_entry)
    &&& world::world_child_is(gvas, GROUP_MAP@, w.map_entry)
    &&& forall|i: int| 0 <= i < w.groups@.len() ==> slot_ok(gvas, w, #[trigger] w.groups@[i])
}

/// Walks `worldSaveData.GroupSaveDataMap` once, decoding every group's RawData. An
/// entry without a `GroupType` enum or a `RawData` byte array is skipped; a blob
/// that does not decode fails the walk.
fn walk_groups(gvas: &[u8]) -> (r: Result<GroupWalk, GuildError>)
    ensures
        match r {
            Ok(w) => walk_ok(gvas@, w) && save_groups(gvas@, walk_groups_view(w.groups@)),
            Err(GuildError::Gvas(e)) => !parses(gvas@) && e == crate::gvas::parse_failure(gvas@),
            Err(GuildError::NoGroupMap) => parses(gvas@) && no_group_map(gvas@),
            Err(GuildError::RawData(_)) => parses(gvas@) && group_blob_fails(gvas@),
            Err(_) => false,
        },
{
    let map = match world::open_map(gvas, GROUP_MAP) {
        Ok(m) => m,
        Err(WorldError::Gvas(e)) => {
            return Err(GuildError::Gvas(e));
        },
        Err(_) => {
            return Err(GuildError::NoGroupMap);
        },
    };
    let engine_major = map.cursor.engine_major();
    let g = map.cursor.has_property_guid();
    let ghost buf = gvas@;
    let ghost es = map.entries@;
    let mut groups: Vec<GroupSlot> = Vec::new();
    let mut i: usize = 0;
    while i < map.entries.len()
        invariant
            i <= map.entries@.len(),
            es == map.entries@,
            map.wf(),
            parses(buf),
            map.world_entry.name@ == "worldSaveData"@,
            map.map_entry.name@ == GROUP_MAP@,
            engine_major == map.cursor.engine_major_view(),
            engine_major == engine_of(buf),
            map.cursor.source_view() == buf,
            buf == gvas@,
            g == map.cursor.guid_view(),
            g == declares_property_guid(buf),
            world_map_entries(buf, GROUP_MAP@, es),
            groups_in(buf, es.subrange(0, i as int), walk_groups_view(groups@)),
            forall|j: int|
                0 <= j < groups@.len() ==> {
                    &&& (#[trigger] groups@[j]).raw_entry.name@ == "RawData"@
                    &&& entry_readable(buf, groups@[j].raw_entry, g)
                    &&& group_blob_of(buf, groups@[j].raw_entry, engine_major, groups@[j].group_type@, groups@[j].data)
                },
        decreases map.entries@.len() - i,
    {
        let entry = &map.entries[i];
        let fields = &entry.fields;
        proof {
            assert(crate::gvas::nav::all_readable(buf, fields@, g));
            assert(es.subrange(0, i + 1).drop_last() =~= es.subrange(0, i as int));
            assert(es.subrange(0, i + 1).last() == es[i as int]);
        }
        let ghost before = walk_groups_view(groups@);
        let gt_i = match find_index(fields.as_slice(), "GroupType") {
            Some(k) => k,
            None => {
                assert(entry_skipped(buf, es[i as int]));
                i = i + 1;
                continue;
            },
        };
        proof {
            assert(entry_readable(buf, fields@[gt_i as int], g));
        }
        let gt_value = materialize_at(gvas, &fields[gt_i], engine_major, g, GROUP_TYPE_PATH);
        let ghost gtv = gt_value;
        let group_type = match gt_value {
            Value::Enum(s) => s.display_lossy(),
            _ => {
                assert(entry_skipped(buf, es[i as int]));
                i = i + 1;
                continue;
            },
        };
        proof {
            assert(has_group_type(buf, es[i as int]));
        }
        let raw_i = match find_index(fields.as_slice(), "RawData") {
            Some(k) => k,
            None => {
                assert(entry_skipped(buf, es[i as int]));
                i = i + 1;
                continue;
            },
        };
        let raw_entry = fields[raw_i].duplicate();
        proof {
            assert(entry_readable(buf, fields@[raw_i as int], g));
        }
        let raw_value = materialize_at(gvas, &fields[raw_i], engine_major, g, RAW_DATA_PATH);
        let ghost rv = raw_value;
        let raw_bytes = match raw_value {
            Value::Bytes(b) => b,
            _ => {
                assert(entry_skipped(buf, es[i as int]));
                i = i + 1;
                continue;
            },
        };
        let data = match group::decode(raw_bytes.as_slice(), group_type.as_str()) {
            Ok(d) => d,
            Err(e) => {
                proof {
                    assert(entry_fails(buf, es[i as int]));
                    assert(group_blob_fails(buf));
                }
                return Err(GuildError::RawData(e));
            },
        };
        proof {
            assert(decoded_as(buf, raw_entry, RAW_DATA_PATH@, engine_major, g, rv)) by {
                reveal(decoded_as);
            }
            assert(group_blob_of(buf, raw_entry, engine_major, group_type@, data));
            assert(same_entry(raw_entry, es[i as int].fields@[raw_i as int]));
            assert(entry_group(buf, es[i as int], group_type@, raw_entry, data));
        }
        groups.push(GroupSlot { raw_entry, group_type, data });
        proof {
            assert(walk_groups_view(groups@).drop_last() =~= before);
        }
        i = i + 1;
    }
    proof {
        assert(es.subrange(0, i as int) =~= es);
    }
    Ok(GroupWalk { world_entry: map.world_entry, map_entry: map.map_entry, groups, engine_major, has_property_guid: g })
}

fn summarize(slot: &GroupSlot) -> (s: GuildSummary)
    ensures
        summary_of(s, slot.group_type@, slot.data),
{
    let d = &slot.data;
    let id = guid_to_hex(&d.group_id);
    let pal_count = d.individual_character_handle_ids.len();
    let (name, member_count, base_camp_level) = match &d.data {
        GroupVariant::Guild(g) => {
            let members = match &g.tail {
                GuildTail::PreUpdate(t) => t.players.len(),
                GuildTail::PostUpdate(t) => t.players.len(),
            };
            (g.guild_name.display_lossy(), members, g.base_camp_level)
        },
        GroupVariant::IndependentGuild(g) => (g.guild_name.display_lossy(), 1, g.base_camp_level),
        _ => (d.group_name.display_lossy(), 0, 0),
    };
    GuildSummary { id, group_type: slot.group_type.clone(), name, member_count, base_camp_level, pal_count }
}

/// `s` summarizes some group whose blob is a `RawData` byte array of `gvas`.
pub open spec fn summarizes_group(gvas: Seq<u8>, s: GuildSummary) -> bool {
    exists|e: PropertyEntry, engine: u16, t: Seq<char>, d: GroupData|
        #![trigger group_blob_of(gvas, e, engine, t, d), summary_of(s, t, d)]
        e.name@ == "RawData"@ && group_blob_of(gvas, e, engine, t, d) && summary_of(s, t, d)
}

/// Every group in the save, as small view models, in map order. Size is proportional
/// to the number of groups, never to the size of the save.
pub fn list(gvas: &[u8]) -> (r: Result<Vec<GuildSummary>, GuildError>)
    ensures
        match r {
            Ok(v) => {
                &&& parses(gvas@)
                &&& forall|i: int| 0 <= i < v@.len() ==> summarizes_group(gvas@, #[trigger] v@[i])
                &&& exists|gs: Seq<(Seq<char>, PropertyEntry, GroupData)>|
                    #[trigger] save_groups(gvas@, gs) && v@.len() == gs.len() && forall|i: int|
                        0 <= i < gs.len() ==> summary_of(#[trigger] v@[i], gs[i].0, gs[i].2)
            },
            Err(GuildError::Gvas(e)) => !parses(gvas@) && e == crate::gvas::parse_failure(gvas@),
            Err(GuildError::NoGroupMap) => parses(gvas@) && no_group_map(gvas@),
            Err(GuildError::RawData(_)) => parses(gvas@) && group_blob_fails(gvas@),
            Err(_) => false,
        },
{
    let walk = walk_groups(gvas)?;
    let ghost gs = walk_groups_view(walk.groups@);
    let mut out: Vec<GuildSummary> = Vec::new();
    let mut i: usize = 0;
    while i < walk.groups.len()
        invariant
            i <= walk.groups@.len(),
            walk_ok(gvas@, walk),
            out@.len() == i,
            gs == walk_groups_view(walk.groups@),
            forall|j: int| 0 <= j < i ==> summarizes_group(gvas@, #[trigger] out@[j]),
            forall|j: int| 0 <= j < i ==> summary_of(#[trigger] out@[j], gs[j].0, gs[j].2),
        decreases walk.groups@.len() - i,
    {
        let s = summarize(&walk.groups[i]);
        proof {
            let slot = walk.groups@[i as int];
            assert(slot_ok(gvas@, walk, slot));
        }
        out.push(s);
        proof {
            let slot = walk.groups@[i as int];
            assert(out@[i as int] == s);
            assert(summary_of(out@[i as int], slot.group_type@, slot.data));
            assert(group_blob_of(gvas@, slot.raw_entry, walk.engine_major, slot.group_type@, slot.data));
            assert(summarizes_group(gvas@, out@[i as int]));
            assert(gs[i as int] == (slot.group_type@, slot.raw_entry, slot.data));
        }
        i = i + 1;
    }
    proof {
        assert(save_groups(gvas@, gs));
    }
    Ok(out)
}

/// The index of the group whose hex id is `id`.
fn find_group(walk: &GroupWalk, id: &str) -> (r: Option<usize>)
    ensures
        match r {
            Some(k) => k < walk.groups@.len() && guid_hex(walk.groups@[k as int].data.group_id@) == id@ && forall|j: int|
                0 <= j < k ==> guid_hex((#[trigger] walk.groups@[j]).data.group_id@) != id@,
            None => forall|k: int| 0 <= k < walk.groups@.len() ==> guid_hex((#[trigger] walk.groups@[k]).data.group_id@) != id@,
        },
{
    let target = String::from_str(id);
    let mut i: usize = 0;
    while i < walk.groups.len()
        invariant
            i <= walk.groups@.len(),
            target@ == id@,
            forall|k: int| 0 <= k < i ==> guid_hex((#[trigger] walk.groups@[k]).data.group_id@) != id@,
        decreases walk.groups@.len() - i,
    {
        if guid_to_hex(&walk.groups[i].data.group_id) == target {
            return Some(i);
        }
        i = i + 1;
    }
    None
}

fn member(uid: &Guid, name: &FString, last_online: i64, role: Option<u8>) -> (m: GuildMember)
    ensures
        member_of(m, *uid, *name, last_online, role),
{
    GuildMember {
        player_uid: guid_to_hex(uid),
        player_name: name.display_lossy(),
        last_online_real_time: last_online,
        role,
    }
}

fn detail_of_slot(slot: &GroupSlot) -> (det: GuildDetail)
    ensures
        detail_of(det, slot.group_type@, slot.data),
{
    let summary = summarize(slot);
    match &slot.data.data {
        GroupVariant::Guild(g) => match &g.tail {
            GuildTail::PreUpdate(t) => {
                let mut members: Vec<GuildMember> = Vec::new();
                let mut i: usize = 0;
                while i < t.players.len()
                    invariant
                        i <= t.players@.len(),
                        members@.len() == i,
                        forall|j: int|
                            0 <= j < i ==> member_of(
                                #[trigger] members@[j],
                                t.players@[j].player_uid,
                                t.players@[j].player_name,
                                t.players@[j].last_online_real_time,
                                None,
                            ),
                    decreases t.players@.len() - i,
                {
                    let p = &t.players[i];
                    members.push(member(&p.player_uid, &p.player_name, p.last_online_real_time, None));
                    i = i + 1;
                }
                GuildDetail { summary, admin_player_uid: Some(guid_to_hex(&t.admin_player_uid)), members }
            },
            GuildTail::PostUpdate(t) => {
                let mut members: Vec<GuildMember> = Vec::new();
                let mut i: usize = 0;
                while i < t.players.len()
                    invariant
                        i <= t.players@.len(),
                        members@.len() == i,
                        forall|j: int|
                            0 <= j < i ==> member_of(
                                #[trigger] members@[j],
                                t.players@[j].player_uid,
                                t.players@[j].player_name,
                                t.players@[j].last_online_real_time,
                                Some(t.players@[j].role),
                            ),
                    decreases t.players@.len() - i,
                {
                    let p = &t.players[i];
                    members.push(member(&p.player_uid, &p.player_name, p.last_online_real_time, Some(p.role)));
                    i = i + 1;
                }
                GuildDetail { summary, admin_player_uid: Some(guid_to_hex(&t.admin_player_uid)), members }
            },
        },
        GroupVariant::IndependentGuild(g) => {
            let mut members: Vec<GuildMember> = Vec::new();
            members.push(member(&g.player_uid, &g.player_name, g.last_online_real_time, None));
            GuildDetail { summary, admin_player_uid: Some(guid_to_hex(&g.player_uid)), members }
        },
        _ => GuildDetail { summary, admin_player_uid: None, members: Vec::new() },
    }
}

/// One guild, with its member roster materialized on demand.
pub fn detail(gvas: &[u8], id: &str) -> (r: Result<GuildDetail, GuildError>)
    ensures
        match r {
            Ok(det) => parses(gvas@) && (exists|gs: Seq<(Seq<char>, PropertyEntry, GroupData)>, k: int|
                #![trigger save_groups(gvas@, gs), first_match(gs, k, id@)]
                save_groups(gvas@, gs) && first_match(gs, k, id@) && detail_of(det, gs[k].0, gs[k].2))
                && exists|e: PropertyEntry, engine: u16, t: Seq<char>, d: GroupData| {
                &&& e.name@ == "RawData"@
                &&& group_blob_of(gvas@, e, engine, t, d)
                &&& guid_hex(d.group_id@) == id@
                &&& detail_of(det, t, d)
            },
            Err(GuildError::GuildNotFound { id: i }) => parses(gvas@) && i@ == id@ && exists|
                gs: Seq<(Seq<char>, PropertyEntry, GroupData)>,
            | #[trigger] save_groups(gvas@, gs) && no_match(gs, id@),
            Err(GuildError::Gvas(e)) => !parses(gvas@) && e == crate::gvas::parse_failure(gvas@),
            Err(GuildError::NoGroupMap) => parses(gvas@) && no_group_map(gvas@),
            Err(GuildError::RawData(_)) => parses(gvas@) && group_blob_fails(gvas@),
            Err(_) => false,
        },
{
    let walk = walk_groups(gvas)?;
    let ghost gs = walk_groups_view(walk.groups@);
    let k = match find_group(&walk, id) {
        Some(k) => k,
        None => {
            assert(no_match(gs, id@));
            return Err(GuildError::GuildNotFound { id: String::from_str(id) });
        },
    };
    let det = detail_of_slot(&walk.groups[k]);
    proof {
        assert(slot_ok(gvas@, walk, walk.groups@[k as int]));
        assert(first_match(gs, k as int, id@));
    }
    Ok(det)
}

/// `d2` is the named guild `d` with its guild name set to the stored form of `name`,
/// and nothing else changed.
pub open spec fn with_guild_name(d: GroupData, d2: GroupData, name: Seq<char>) -> bool {
    &&& d2.group_id == d.group_id
    &&& d2.group_name == d.group_name
    &&& d2.individual_character_handle_ids == d.individual_character_handle_ids
    &&& match (d.data, d2.data) {
        (GroupVariant::Guild(a), GroupVariant::Guild(b)) => b.guild_name@ == edit::text_fstring(name) && b == (
        GuildGroup { guild_name: b.guild_name, ..a }),
        (GroupVariant::IndependentGuild(a), GroupVariant::IndependentGuild(b)) => b.guild_name@
            == edit::text_fstring(name) && b == (IndependentGuildGroup { guild_name: b.guild_name, ..a }),
        _ => false,
    }
}

/// The splice set `s` rewrites the value of `chain`'s last property (from the end of
/// its tag to the end of the property) to the byte array of `d2`'s encoding, and
/// moves the `size` field of every property in `chain` by the change in length.
pub open spec fn rename_splices(gvas: Seq<u8>, chain: Seq<&PropertyEntry>, d2: GroupData, s: Seq<Splice>) -> bool {
    let e = *chain.last();
    let vs = value_start_at(gvas, e.span.start as int, declares_property_guid(gvas));
    let nv = edit::byte_array_bytes(group::group_bytes(d2));
    let delta = nv.len() - (e.span.end - vs);
    &&& chain.len() > 0
    &&& s.len() >= 1
    &&& s[0].range == ((vs as usize)..e.span.end)
    &&& s[0].bytes@ == nv
    &&& delta == 0 ==> s.len() == 1
    &&& delta != 0 ==> are_size_fixups(s.skip(1), gvas, chain, delta as i64)
}

/// `out` is `gvas` with the splice set `s` of [`rename_splices`] applied.
pub open spec fn rename_edit(gvas: Seq<u8>, out: Seq<u8>, chain: Seq<&PropertyEntry>, d2: GroupData, s: Seq<Splice>) -> bool {
    &&& rename_splices(gvas, chain, d2, s)
    &&& out == assembled(sort_splices(s), gvas)
}

/// `chain` leads from the save's first `worldSaveData` through its first
/// `GroupSaveDataMap` to the `RawData` property `raw`.
pub open spec fn group_chain(gvas: Seq<u8>, chain: Seq<&PropertyEntry>, raw: PropertyEntry) -> bool {
    &&& chain.len() == 3
    &&& world::world_entry_is(gvas, *chain[0])
    &&& world::world_child_is(gvas, GROUP_MAP@, *chain[1])
    &&& *chain[2] == raw
}

/// Why rewriting the group at the end of `chain` to `d2` fails with `e`: the new value
/// is too long to frame, the splice engine refuses the chain (nesting, an unreadable
/// tag, a `size` field moved out of range), the splices clash, or the edited buffer
/// does not parse, `e` being the parser's error.
pub open spec fn rename_refused(gvas: Seq<u8>, chain: Seq<&PropertyEntry>, d2: GroupData, e: EditError) -> bool {
    let nv = edit::byte_array_bytes(group::group_bytes(d2));
    ||| nv.len() > i64::MAX && e == (EditError::SizeOutOfRange { offset: 0, old_size: 0, delta: 0 })
    ||| nv.len() <= i64::MAX && edit::replace_error(gvas, chain, nv, declares_property_guid(gvas), e)
    ||| exists|s: Seq<Splice>|
        #[trigger] rename_splices(gvas, chain, d2, s) && edit::apply_refused(sort_splices(s), gvas.len() as int, e)
    ||| exists|s: Seq<Splice>|
        #[trigger] rename_splices(gvas, chain, d2, s) && edit::no_overlap(sort_splices(s)) && edit::fits_source(
            sort_splices(s),
            gvas.len() as int,
        ) && !parses(assembled(sort_splices(s), gvas)) && e == EditError::Gvas(
            crate::gvas::parse_failure(assembled(sort_splices(s), gvas)),
        )
}

/// The group at `k` of `gs` is a named guild, and renaming it to `name` fails with `e`.
pub open spec fn rename_blocked(gvas: Seq<u8>, name: Seq<char>, gs: Seq<(Seq<char>, PropertyEntry, GroupData)>, k: int, e: EditError) -> bool {
    &&& named_at(gs, k)
    &&& exists|chain: Seq<&PropertyEntry>, d2: GroupData|
        #![trigger group_chain(gvas, chain, gs[k].1), with_guild_name(gs[k].2, d2, name)]
        group_chain(gvas, chain, gs[k].1) && with_guild_name(gs[k].2, d2, name) && rename_refused(gvas, chain, d2, e)
}

/// The guild with hex id `id` is held in `gvas` by the `RawData` property that ends
/// `chain`, as `d`; `d2` is that guild renamed to `name`, and `out` is `gvas` with that
/// property's value rewritten to `d2`.
pub open spec fn renames_guild(
    gvas: Seq<u8>,
    out: Seq<u8>,
    id: Seq<char>,
    name: Seq<char>,
    chain: Seq<&PropertyEntry>,
    engine: u16,
    t: Seq<char>,
    d: GroupData,
    d2: GroupData,
    s: Seq<Splice>,
) -> bool {
    &&& chain.len() > 0
    &&& chain.last().name@ == "RawData"@
    &&& group_blob_of(gvas, *chain.last(), engine, t, d)
    &&& guid_hex(d.group_id@) == id
    &&& with_guild_name(d, d2, name)
    &&& rename_edit(gvas, out, chain, d2, s)
}

/// ASCII names use the 1-byte-per-char form; anything else uses UTF-16LE. Both get
/// the NUL terminator the format expects, counted in the length field.
pub fn encode_name(name: &str) -> (r: FString)
    ensures
        r@ == edit::text_fstring(name@),
{
    edit::encode_text(name)
}

/// Renames the group at `k` of a walk of `gvas`, the first group with hex id `id`:
/// rewrites its `RawData`, applies the splices and checks that the result re-parses.
#[verifier::rlimit(100)]
#[verifier::spinoff_prover]
fn rename_slot(gvas: &[u8], found: GroupWalk, k: usize, id: &str, new_name: &str) -> (r: Result<Vec<u8>, GuildError>)
    requires
        gvas@.len() + 8 <= usize::MAX,
        gvas@.len() <= i64::MAX,
        walk_ok(gvas@, found),
        first_match(walk_groups_view(found.groups@), k as int, id@),
    ensures
        match r {
            Ok(out) => parses(out@) && renamed_at(gvas@, out@, id@, new_name@, walk_groups_view(found.groups@), k as int),
            Err(GuildError::NotANamedGuild { id: i }) => i@ == id@ && !named_at(walk_groups_view(found.groups@), k as int),
            Err(GuildError::Edit(e)) => rename_blocked(gvas@, new_name@, walk_groups_view(found.groups@), k as int, e),
            Err(_) => false,
        },
{
    let ghost gs = walk_groups_view(found.groups@);
    let mut walk = found;
    proof {
        assert(slot_ok(gvas@, walk, walk.groups@[k as int]));
        assert(first_match(gs, k as int, id@));
        assert(gs[k as int] == (walk.groups@[k as int].group_type@, walk.groups@[k as int].raw_entry, walk.groups@[k as int].data));
    }
    let ghost old_walk = walk;
    let slot = walk.groups.remove(k);
    let g = walk.has_property_guid;
    let GroupSlot { raw_entry, group_type, data } = slot;
    let mut data = data;
    let ghost old_data = data;
    let new_name_fstring = encode_name(new_name);
    match &mut data.data {
        GroupVariant::Guild(gg) => {
            gg.guild_name = new_name_fstring;
        },
        GroupVariant::IndependentGuild(gg) => {
            gg.guild_name = new_name_fstring;
        },
        _ => {
            assert(!(gs[k as int].2.data is Guild || gs[k as int].2.data is IndependentGuild));
            return Err(GuildError::NotANamedGuild { id: String::from_str(id) });
        },
    }
    proof {
        assert(gs[k as int].2.data is Guild || gs[k as int].2.data is IndependentGuild);
        assert(with_guild_name(old_data, data, new_name@));
        assert(raw_entry == gs[k as int].1);
        assert(old_data == gs[k as int].2);
    }
    let new_blob = group::encode(&data);
    let new_value = edit::byte_array_value(new_blob.as_slice());
    let ghost nv = new_value@;
    let chain: [&PropertyEntry; 3] = [&walk.world_entry, &walk.map_entry, &raw_entry];
    proof {
        let c = chain@;
        assert(c.len() == 3);
        assert(*c[0] == walk.world_entry && *c[1] == walk.map_entry && *c[2] == raw_entry);
        assert(group_chain(gvas@, c, gs[k as int].1));
        assert(nv == edit::byte_array_bytes(group::group_bytes(data)));
    }
    if new_value.len() as u64 > 0x7fff_ffff_ffff_ffffu64 {
        proof {
            assert(rename_refused(gvas@, chain@, data, EditError::SizeOutOfRange { offset: 0, old_size: 0, delta: 0 }));
            assert(rename_blocked(gvas@, new_name@, gs, k as int, EditError::SizeOutOfRange { offset: 0, old_size: 0, delta: 0 }));
        }
        return Err(GuildError::Edit(EditError::SizeOutOfRange { offset: 0, old_size: 0, delta: 0 }));
    }
    let splices = match edit::replace_property_value(gvas, chain.as_slice(), new_value, g) {
        Ok(s) => s,
        Err(e) => {
            proof {
                assert(rename_refused(gvas@, chain@, data, e));
                assert(rename_blocked(gvas@, new_name@, gs, k as int, e));
            }
            return Err(GuildError::Edit(e));
        },
    };
    proof {
        let s = splices.splices_view();
        assert(rename_splices(gvas@, chain@, data, s));
        assert(ranges_ordered(s)) by {
            assert forall|j: int| 0 <= j < s.len() implies (#[trigger] s[j]).range.start <= s[j].range.end by {
                if j > 0 {
                    assert(s.skip(1)[j - 1] == s[j]);
                }
            }
        }
        lemma_ordered_apply_defined(s, gvas@.len() as int);
    }
    let ghost sv = splices.splices_view();
    let edited = match splices.apply(gvas) {
        Ok(b) => b,
        Err(e) => {
            proof {
                assert(edit::apply_refused(sort_splices(sv), gvas@.len() as int, e));
                assert(rename_refused(gvas@, chain@, data, e));
                assert(rename_blocked(gvas@, new_name@, gs, k as int, e));
            }
            return Err(GuildError::Edit(e));
        },
    };
    match edit::verify_reparses(edited.as_slice()) {
        Ok(()) => {},
        Err(e) => {
            proof {
                assert(edited@ == assembled(sort_splices(sv), gvas@));
                assert(rename_refused(gvas@, chain@, data, e));
                assert(rename_blocked(gvas@, new_name@, gs, k as int, e));
            }
            return Err(GuildError::Edit(e));
        },
    }
    proof {
        let c = chain@;
        assert(*c.last() == raw_entry);
        assert(with_guild_name(old_data, data, new_name@));
        assert(rename_edit(gvas@, edited@, c, data, splices.splices_view()));
        assert(renames_guild(gvas@, edited@, id@, new_name@, c, old_walk.engine_major, group_type@, old_data, data, splices.splices_view()));
        assert(*c.last() == gs[k as int].1);
        assert(renames_guild(gvas@, edited@, id@, new_name@, c, engine_of(gvas@), gs[k as int].0, gs[k as int].2, data, splices.splices_view()));
        assert(renamed_at(gvas@, edited@, id@, new_name@, gs, k as int));
    }
    Ok(edited)
}

/// Renames one guild, returning a fresh GVAS buffer. Only the guild's `RawData`
/// value and the `size` fields of its enclosing properties change; the result is
/// re-parsed before it is returned, and a buffer that fails that is an error, never
/// a return value.
#[verifier::rlimit(100)]
#[verifier::spinoff_prover]
pub fn set_name(gvas: &[u8], id: &str, new_name: &str) -> (r: Result<Vec<u8>, GuildError>)
    requires
        gvas@.len() + 8 <= usize::MAX,
        gvas@.len() <= i64::MAX,
    ensures
        match r {
            Ok(out) => {
                &&& guid_from_hex(id.spec_bytes()) is Some
                &&& parses(gvas@)
                &&& parses(out@)
                &&& exists|
                    chain: Seq<&PropertyEntry>,
                    engine: u16,
                    t: Seq<char>,
                    d: GroupData,
                    d2: GroupData,
                    s: Seq<Splice>,
                | #[trigger] renames_guild(gvas@, out@, id@, new_name@, chain, engine, t, d, d2, s)
                &&& exists|gs: Seq<(Seq<char>, PropertyEntry, GroupData)>, k: int|
                    #![trigger save_groups(gvas@, gs), first_match(gs, k, id@)]
                    save_groups(gvas@, gs) && first_match(gs, k, id@) && renamed_at(gvas@, out@, id@, new_name@, gs, k)
            },
            Err(GuildError::MalformedGuildId { id: i }) => i@ == id@ && guid_from_hex(id.spec_bytes()) is None,
            Err(GuildError::GuildNotFound { id: i }) => i@ == id@ && parses(gvas@) && exists|
                gs: Seq<(Seq<char>, PropertyEntry, GroupData)>,
            | #[trigger] save_groups(gvas@, gs) && no_match(gs, id@),
            Err(GuildError::NotANamedGuild { id: i }) => i@ == id@ && parses(gvas@) && exists|
                gs: Seq<(Seq<char>, PropertyEntry, GroupData)>,
                k: int,
            |
                #![trigger save_groups(gvas@, gs), first_match(gs, k, id@)]
                save_groups(gvas@, gs) && first_match(gs, k, id@) && !(gs[k].2.data is Guild || gs[k].2.data is IndependentGuild),
            Err(GuildError::Gvas(e)) => !parses(gvas@) && e == crate::gvas::parse_failure(gvas@),
            Err(GuildError::NoGroupMap) => parses(gvas@) && no_group_map(gvas@),
            Err(GuildError::RawData(_)) => parses(gvas@) && group_blob_fails(gvas@),
            Err(GuildError::Edit(e)) => parses(gvas@) && guid_from_hex(id.spec_bytes()) is Some && exists|
                gs: Seq<(Seq<char>, PropertyEntry, GroupData)>,
                k: int,
            |
                #![trigger save_groups(gvas@, gs), first_match(gs, k, id@)]
                save_groups(gvas@, gs) && first_match(gs, k, id@) && rename_blocked(gvas@, new_name@, gs, k, e),
        },
        guid_from_hex(id.spec_bytes()) is None ==> (r matches Err(GuildError::MalformedGuildId { .. })),
{
    if hex_to_guid(id).is_none() {
        return Err(GuildError::MalformedGuildId { id: String::from_str(id) });
    }
    let mut walk = walk_groups(gvas)?;
    let ghost gs = walk_groups_view(walk.groups@);
    let k = match find_group(&walk, id) {
        Some(k) => k,
        None => {
            assert(no_match(gs, id@));
            return Err(GuildError::GuildNotFound { id: String::from_str(id) });
        },
    };
    proof {
        assert(first_match(gs, k as int, id@));
    }
    rename_slot(gvas, walk, k, id, new_name)
}

} // verus!
