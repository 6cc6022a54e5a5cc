//! `.worldSaveData.GroupSaveDataMap` value's "RawData" blob: guilds and
//! organizations. `group_type` (the sibling `GroupType` enum's text) selects which
//! variant follows the common header (group id, group name, character handles);
//! anything else is kept as opaque bytes. The blob must be consumed exactly.

use vstd::prelude::*;
use vstd::string::*;
use super::character::read_array4;
use super::error::RawDataError;
use super::item_container::read_n_bytes;
use crate::gvas::error::GvasError;
use crate::gvas::primitives::{
    FString, FStringView, Guid, append_bytes, copy_range, fits, fstring_end, fstring_view_at, i32_at, i32_bytes,
    i64_at, i64_bytes, lemma_fstring_view, lemma_le_round_trips, lemma_window_is_encoding, read_fstring, read_guid,
    read_i32_le, read_i64_le, read_u32_le, read_u64_le, read_u8, u32_at, u32_bytes, u64_at, u64_bytes,
    write_fstring, write_guid, write_i32_le, write_i64_le, write_u32_le, write_u64_le, write_u8,
};

verus! {

#[derive(Debug, Clone, Copy, PartialEq, Eq)]
pub struct CharacterHandle {
    pub guid: Guid,
    pub instance_id: Guid,
}

#[derive(Debug, Clone, PartialEq, Eq)]
pub struct GuildPlayer {
    pub player_uid: Guid,
    pub last_online_real_time: i64,
    pub player_name: FString,
}

#[derive(Debug, Clone, PartialEq, Eq)]
pub struct GuildPlayerWithRole {
    pub player_uid: Guid,
    pub last_online_real_time: i64,
    pub player_name: FString,
    pub role: u8,
}

#[derive(Debug, Clone, Copy, PartialEq, Eq)]
pub struct GuildMarker {
    pub marker_id: Guid,
    /// Three f64 coordinates, as IEEE-754 bit patterns.
    pub icon_location: (u64, u64, u64),
    pub icon_type: i32,
    pub owner_player_uid: Guid,
}

#[derive(Debug, Clone, PartialEq, Eq)]
pub struct GuildRolePermission {
    pub role: u8,
    pub permissions: Vec<u8>,
}

#[derive(Debug, Clone, PartialEq, Eq)]
pub struct GuildTailPreUpdate {
    pub admin_player_uid: Guid,
    pub players: Vec<GuildPlayer>,
    pub trailing_bytes: [u8; 4],
}

#[derive(Debug, Clone, PartialEq, Eq)]
pub struct GuildTailPostUpdate {
    pub guild_chest_allowed_roles: Vec<u8>,
    pub unknown_i32: i32,
    pub admin_player_uid: Guid,
    pub players: Vec<GuildPlayerWithRole>,
    pub role_permissions: Vec<GuildRolePermission>,
    pub trailing_bytes: [u8; 4],
}

#[derive(Debug, Clone, PartialEq, Eq)]
pub enum GuildTail {
    PostUpdate(GuildTailPostUpdate),
    PreUpdate(GuildTailPreUpdate),
}

#[derive(Debug, Clone, PartialEq, Eq)]
pub struct GuildGroup {
    pub org_type: u8,
    pub leading_bytes: [u8; 4],
    pub base_ids: Vec<Guid>,
    pub unknown_1: i32,
    pub base_camp_level: i32,
    pub map_object_instance_ids_base_camp_points: Vec<Guid>,
    pub guild_name: FString,
    pub last_guild_name_modifier_player_uid: Guid,
    pub guild_markers: Vec<GuildMarker>,
    pub tail: GuildTail,
}

#[derive(Debug, Clone, PartialEq, Eq)]
pub struct IndependentGuildGroup {
    pub org_type: u8,
    pub base_camp_level: i32,
    pub map_object_instance_ids_base_camp_points: Vec<Guid>,
    pub guild_name: FString,
    pub player_uid: Guid,
    pub guild_name_2: FString,
    pub last_online_real_time: i64,
    pub player_name: FString,
}

#[derive(Debug, Clone, PartialEq, Eq)]
pub struct OrganizationGroup {
    pub org_type: u8,
    /// Twelve bytes kept opaque.
    pub trailing_bytes: [u8; 12],
}

#[derive(Debug, Clone, PartialEq, Eq)]
pub enum GroupVariant {
    Guild(GuildGroup),
    IndependentGuild(IndependentGuildGroup),
    Organization(OrganizationGroup),
    Unknown { remaining_data: Vec<u8> },
}

#[derive(Debug, Clone, PartialEq, Eq)]
pub struct GroupData {
    pub group_id: Guid,
    pub group_name: FString,
    pub individual_character_handle_ids: Vec<CharacterHandle>,
    pub data: GroupVariant,
}

pub const GUILD: &'static str = "EPalGroupType::Guild";

pub const INDEPENDENT_GUILD: &'static str = "EPalGroupType::IndependentGuild";

pub const ORGANIZATION: &'static str = "EPalGroupType::Organization";

// ---------------------------------------------------------------------------
// Byte-level layout
// ---------------------------------------------------------------------------

/// An FString at `p` that parses, its view, and its encoding match.
pub open spec fn fstring_at(buf: Seq<u8>, p: int, f: FString) -> bool {
    fstring_end(buf, p) is Some && f@ == fstring_view_at(buf, p)
}

/// `n` bytes at `p` after a u32 count: where the list ends.
pub open spec fn byte_list_end(buf: Seq<u8>, p: int) -> Option<int> {
    if fits(buf, p, 4) && fits(buf, p + 4, u32_at(buf, p) as int) {
        Some(p + 4 + u32_at(buf, p))
    } else {
        None
    }
}

pub open spec fn guid_array_end(buf: Seq<u8>, p: int) -> Option<int> {
    if fits(buf, p, 4) && fits(buf, p + 4, 16 * u32_at(buf, p)) {
        Some(p + 4 + 16 * u32_at(buf, p))
    } else {
        None
    }
}

pub open spec fn guid_array_decodes(buf: Seq<u8>, p: int, v: Seq<Guid>) -> bool {
    &&& v.len() == u32_at(buf, p)
    &&& forall|i: int| 0 <= i < v.len() ==> (#[trigger] v[i])@ == buf.subrange(p + 4 + 16 * i, p + 20 + 16 * i)
}

pub open spec fn guids_bytes(v: Seq<Guid>) -> Seq<u8>
    decreases v.len(),
{
    if v.len() == 0 {
        Seq::empty()
    } else {
        guids_bytes(v.drop_last()) + v.last()@
    }
}

pub open spec fn player_end(buf: Seq<u8>, p: int) -> Option<int> {
    if fits(buf, p, 24) { fstring_end(buf, p + 24) } else { None }
}

pub open spec fn player_decodes(buf: Seq<u8>, p: int, v: GuildPlayer) -> bool {
    &&& v.player_uid@ == buf.subrange(p, p + 16)
    &&& v.last_online_real_time == i64_at(buf, p + 16)
    &&& fstring_at(buf, p + 24, v.player_name)
}

pub open spec fn player_bytes(v: GuildPlayer) -> Seq<u8> {
    v.player_uid@ + i64_bytes(v.last_online_real_time) + v.player_name@.bytes()
}

pub open spec fn players_end(buf: Seq<u8>, p: int, n: nat) -> Option<int>
    decreases n,
{
    if n == 0 {
        Some(p)
    } else {
        match players_end(buf, p, (n - 1) as nat) {
            Some(q) => player_end(buf, q),
            None => None,
        }
    }
}

pub open spec fn players_bytes(v: Seq<GuildPlayer>) -> Seq<u8>
    decreases v.len(),
{
    if v.len() == 0 {
        Seq::empty()
    } else {
        players_bytes(v.drop_last()) + player_bytes(v.last())
    }
}

pub open spec fn role_player_end(buf: Seq<u8>, p: int) -> Option<int> {
    match player_end(buf, p) {
        Some(e) => if fits(buf, e, 1) { Some(e + 1) } else { None },
        None => None,
    }
}

pub open spec fn role_player_decodes(buf: Seq<u8>, p: int, v: GuildPlayerWithRole) -> bool {
    &&& v.player_uid@ == buf.subrange(p, p + 16)
    &&& v.last_online_real_time == i64_at(buf, p + 16)
    &&& fstring_at(buf, p + 24, v.player_name)
    &&& v.role == buf[player_end(buf, p)->0]
}

pub open spec fn role_player_bytes(v: GuildPlayerWithRole) -> Seq<u8> {
    v.player_uid@ + i64_bytes(v.last_online_real_time) + v.player_name@.bytes() + seq![v.role]
}

pub open spec fn role_players_end(buf: Seq<u8>, p: int, n: nat) -> Option<int>
    decreases n,
{
    if n == 0 {
        Some(p)
    } else {
        match role_players_end(buf, p, (n - 1) as nat) {
            Some(q) => role_player_end(buf, q),
            None => None,
        }
    }
}

pub open spec fn role_players_bytes(v: Seq<GuildPlayerWithRole>) -> Seq<u8>
    decreases v.len(),
{
    if v.len() == 0 {
        Seq::empty()
    } else {
        role_players_bytes(v.drop_last()) + role_player_bytes(v.last())
    }
}

pub open spec fn permission_end(buf: Seq<u8>, p: int) -> Option<int> {
    if fits(buf, p, 1) { byte_list_end(buf, p + 1) } else { None }
}

pub open spec fn permission_decodes(buf: Seq<u8>, p: int, v: GuildRolePermission) -> bool {
    &&& v.role == buf[p]
    &&& v.permissions@ == buf.subrange(p + 5, permission_end(buf, p)->0)
}

pub open spec fn permission_bytes(v: GuildRolePermission) -> Seq<u8> {
    seq![v.role] + u32_bytes(v.permissions@.len() as u32) + v.permissions@
}

pub open spec fn permissions_end(buf: Seq<u8>, p: int, n: nat) -> Option<int>
    decreases n,
{
    if n == 0 {
        Some(p)
    } else {
        match permissions_end(buf, p, (n - 1) as nat) {
            Some(q) => permission_end(buf, q),
            None => None,
        }
    }
}

pub open spec fn permissions_bytes(v: Seq<GuildRolePermission>) -> Seq<u8>
    decreases v.len(),
{
    if v.len() == 0 {
        Seq::empty()
    } else {
        permissions_bytes(v.drop_last()) + permission_bytes(v.last())
    }
}

pub open spec fn marker_decodes(buf: Seq<u8>, p: int, v: GuildMarker) -> bool {
    &&& v.marker_id@ == buf.subrange(p, p + 16)
    &&& v.icon_location == (u64_at(buf, p + 16), u64_at(buf, p + 24), u64_at(buf, p + 32))
    &&& v.icon_type == i32_at(buf, p + 40)
    &&& v.owner_player_uid@ == buf.subrange(p + 44, p + 60)
}

pub open spec fn marker_bytes(v: GuildMarker) -> Seq<u8> {
    v.marker_id@ + u64_bytes(v.icon_location.0) + u64_bytes(v.icon_location.1) + u64_bytes(v.icon_location.2)
        + i32_bytes(v.icon_type) + v.owner_player_uid@
}

pub open spec fn markers_bytes(v: Seq<GuildMarker>) -> Seq<u8>
    decreases v.len(),
{
    if v.len() == 0 {
        Seq::empty()
    } else {
        markers_bytes(v.drop_last()) + marker_bytes(v.last())
    }
}

/// Where the older tail shape starting at `p` ends.
pub open spec fn pre_update_end(buf: Seq<u8>, p: int) -> Option<int> {
    if !fits(buf, p, 20) {
        None
    } else {
        match players_end(buf, p + 20, u32_at(buf, p + 16) as nat) {
            Some(e) => if fits(buf, e, 4) { Some(e + 4) } else { None },
            None => None,
        }
    }
}

pub open spec fn pre_update_decodes(buf: Seq<u8>, p: int, v: GuildTailPreUpdate) -> bool {
    let n = u32_at(buf, p + 16) as nat;
    let e = players_end(buf, p + 20, n)->0;
    &&& v.admin_player_uid@ == buf.subrange(p, p + 16)
    &&& v.players@.len() == n
    &&& forall|i: int| 0 <= i < n ==> player_decodes(buf, players_end(buf, p + 20, i as nat)->0, #[trigger] v.players@[i])
    &&& v.trailing_bytes@ == buf.subrange(e, e + 4)
}

pub open spec fn pre_update_bytes(v: GuildTailPreUpdate) -> Seq<u8> {
    v.admin_player_uid@ + u32_bytes(v.players@.len() as u32) + players_bytes(v.players@) + v.trailing_bytes@
}

/// Offsets inside the newer tail shape starting at `p`: after the chest roles, after
/// the role players, after the role permissions.
pub open spec fn post_update_parts(buf: Seq<u8>, p: int) -> Option<(int, int, int)> {
    match byte_list_end(buf, p) {
        None => None,
        Some(q) => if !fits(buf, q, 24) {
            None
        } else {
            match role_players_end(buf, q + 24, u32_at(buf, q + 20) as nat) {
                None => None,
                Some(r) => if !fits(buf, r, 4) {
                    None
                } else {
                    match permissions_end(buf, r + 4, u32_at(buf, r) as nat) {
                        Some(s) => Some((q, r, s)),
                        None => None,
                    }
                },
            }
        },
    }
}

pub open spec fn post_update_end(buf: Seq<u8>, p: int) -> Option<int> {
    match post_update_parts(buf, p) {
        Some((q, r, s)) => if fits(buf, s, 4) { Some(s + 4) } else { None },
        None => None,
    }
}

pub open spec fn post_update_decodes(buf: Seq<u8>, p: int, v: GuildTailPostUpdate) -> bool {
    post_update_parts(buf, p) matches Some((q, r, s)) && {
        let np = u32_at(buf, q + 20) as nat;
        let nr = u32_at(buf, r) as nat;
        &&& v.guild_chest_allowed_roles@ == buf.subrange(p + 4, q)
        &&& v.unknown_i32 == i32_at(buf, q)
        &&& v.admin_player_uid@ == buf.subrange(q + 4, q + 20)
        &&& v.players@.len() == np
        &&& forall|i: int|
            0 <= i < np ==> role_player_decodes(buf, role_players_end(buf, q + 24, i as nat)->0, #[trigger] v.players@[i])
        &&& v.role_permissions@.len() == nr
        &&& forall|i: int|
            0 <= i < nr ==> permission_decodes(buf, permissions_end(buf, r + 4, i as nat)->0, #[trigger] v.role_permissions@[i])
        &&& v.trailing_bytes@ == buf.subrange(s, s + 4)
    }
}

pub open spec fn post_update_bytes(v: GuildTailPostUpdate) -> Seq<u8> {
    u32_bytes(v.guild_chest_allowed_roles@.len() as u32) + v.guild_chest_allowed_roles@ + i32_bytes(v.unknown_i32)
        + v.admin_player_uid@ + u32_bytes(v.players@.len() as u32) + role_players_bytes(v.players@) + u32_bytes(
        v.role_permissions@.len() as u32,
    ) + permissions_bytes(v.role_permissions@) + v.trailing_bytes@
}

/// The newer shape is taken only when it reads cleanly and consumes every remaining
/// byte; otherwise the older shape is read from the same place.
pub open spec fn tail_end(buf: Seq<u8>, p: int) -> Option<int> {
    if post_update_end(buf, p) == Some(buf.len() as int) {
        Some(buf.len() as int)
    } else {
        pre_update_end(buf, p)
    }
}

pub open spec fn tail_decodes(buf: Seq<u8>, p: int, v: GuildTail) -> bool {
    if post_update_end(buf, p) == Some(buf.len() as int) {
        v matches GuildTail::PostUpdate(t) && post_update_decodes(buf, p, t)
    } else {
        v matches GuildTail::PreUpdate(t) && pre_update_decodes(buf, p, t)
    }
}

pub open spec fn tail_bytes(v: GuildTail) -> Seq<u8> {
    match v {
        GuildTail::PostUpdate(t) => post_update_bytes(t),
        GuildTail::PreUpdate(t) => pre_update_bytes(t),
    }
}

/// Offsets inside a guild variant starting at `p`: after the base ids, after the
/// base-camp points, after the name, after the markers.
pub open spec fn guild_parts(buf: Seq<u8>, p: int) -> Option<(int, int, int, int)> {
    if !fits(buf, p, 5) {
        None
    } else {
        match guid_array_end(buf, p + 5) {
            None => None,
            Some(a) => if !fits(buf, a, 8) {
                None
            } else {
                match guid_array_end(buf, a + 8) {
                    None => None,
                    Some(b) => match fstring_end(buf, b) {
                        None => None,
                        Some(c) => if fits(buf, c, 20) && fits(buf, c + 20, 60 * u32_at(buf, c + 16)) {
                            Some((a, b, c, c + 20 + 60 * u32_at(buf, c + 16)))
                        } else {
                            None
                        },
                    },
                }
            },
        }
    }
}

pub open spec fn guild_end(buf: Seq<u8>, p: int) -> Option<int> {
    match guild_parts(buf, p) {
        Some((a, b, c, m)) => tail_end(buf, m),
        None => None,
    }
}

pub open spec fn guild_decodes(buf: Seq<u8>, p: int, v: GuildGroup) -> bool {
    guild_parts(buf, p) matches Some((a, b, c, m)) && {
        let nm = u32_at(buf, c + 16) as nat;
        &&& v.org_type == buf[p]
        &&& v.leading_bytes@ == buf.subrange(p + 1, p + 5)
        &&& guid_array_decodes(buf, p + 5, v.base_ids@)
        &&& v.unknown_1 == i32_at(buf, a)
        &&& v.base_camp_level == i32_at(buf, a + 4)
        &&& guid_array_decodes(buf, a + 8, v.map_object_instance_ids_base_camp_points@)
        &&& fstring_at(buf, b, v.guild_name)
        &&& v.last_guild_name_modifier_player_uid@ == buf.subrange(c, c + 16)
        &&& v.guild_markers@.len() == nm
        &&& forall|i: int| 0 <= i < nm ==> marker_decodes(buf, c + 20 + 60 * i, #[trigger] v.guild_markers@[i])
        &&& tail_decodes(buf, m, v.tail)
    }
}

pub open spec fn guild_bytes(v: GuildGroup) -> Seq<u8> {
    seq![v.org_type] + v.leading_bytes@ + u32_bytes(v.base_ids@.len() as u32) + guids_bytes(v.base_ids@) + i32_bytes(
        v.unknown_1,
    ) + i32_bytes(v.base_camp_level) + u32_bytes(v.map_object_instance_ids_base_camp_points@.len() as u32)
        + guids_bytes(v.map_object_instance_ids_base_camp_points@) + v.guild_name@.bytes()
        + v.last_guild_name_modifier_player_uid@ + u32_bytes(v.guild_markers@.len() as u32) + markers_bytes(
        v.guild_markers@,
    ) + tail_bytes(v.tail)
}

/// Offsets inside an independent-guild variant at `p`: after the points, after the
/// first name, after the second name.
pub open spec fn independent_parts(buf: Seq<u8>, p: int) -> Option<(int, int, int)> {
    if !fits(buf, p, 5) {
        None
    } else {
        match guid_array_end(buf, p + 5) {
            None => None,
            Some(a) => match fstring_end(buf, a) {
                None => None,
                Some(b) => if !fits(buf, b, 16) {
                    None
                } else {
                    match fstring_end(buf, b + 16) {
                        Some(c) => if fits(buf, c, 8) { Some((a, b, c)) } else { None },
                        None => None,
                    }
                },
            },
        }
    }
}

pub open spec fn independent_end(buf: Seq<u8>, p: int) -> Option<int> {
    match independent_parts(buf, p) {
        Some((a, b, c)) => fstring_end(buf, c + 8),
        None => None,
    }
}

pub open spec fn independent_decodes(buf: Seq<u8>, p: int, v: IndependentGuildGroup) -> bool {
    independent_parts(buf, p) matches Some((a, b, c)) && {
        &&& v.org_type == buf[p]
        &&& v.base_camp_level == i32_at(buf, p + 1)
        &&& guid_array_decodes(buf, p + 5, v.map_object_instance_ids_base_camp_points@)
        &&& fstring_at(buf, a, v.guild_name)
        &&& v.player_uid@ == buf.subrange(b, b + 16)
        &&& fstring_at(buf, b + 16, v.guild_name_2)
        &&& v.last_online_real_time == i64_at(buf, c)
        &&& fstring_at(buf, c + 8, v.player_name)
    }
}

pub open spec fn independent_bytes(v: IndependentGuildGroup) -> Seq<u8> {
    seq![v.org_type] + i32_bytes(v.base_camp_level) + u32_bytes(v.map_object_instance_ids_base_camp_points@.len() as u32)
        + guids_bytes(v.map_object_instance_ids_base_camp_points@) + v.guild_name@.bytes() + v.player_uid@
        + v.guild_name_2@.bytes() + i64_bytes(v.last_online_real_time) + v.player_name@.bytes()
}

pub open spec fn organization_decodes(buf: Seq<u8>, p: int, v: OrganizationGroup) -> bool {
    v.org_type == buf[p] && v.trailing_bytes@ == buf.subrange(p + 1, p + 13)
}

pub open spec fn organization_bytes(v: OrganizationGroup) -> Seq<u8> {
    seq![v.org_type] + v.trailing_bytes@
}

/// Where the common header (id, name, character handles) ends.
pub open spec fn header_end_at(bytes: Seq<u8>) -> Option<int> {
    if !fits(bytes, 0, 16) {
        None
    } else {
        match fstring_end(bytes, 16) {
            Some(n) => if fits(bytes, n, 4) && fits(bytes, n + 4, 32 * u32_at(bytes, n)) {
                Some(n + 4 + 32 * u32_at(bytes, n))
            } else {
                None
            },
            None => None,
        }
    }
}

/// Where decoding a group blob of type `group_type` stops.
pub open spec fn group_end(bytes: Seq<u8>, group_type: Seq<char>) -> Option<int> {
    match header_end_at(bytes) {
        None => None,
        Some(h) => if group_type == GUILD@ {
            guild_end(bytes, h)
        } else if group_type == INDEPENDENT_GUILD@ {
            independent_end(bytes, h)
        } else if group_type == ORGANIZATION@ {
            if fits(bytes, h, 13) { Some(h + 13) } else { None }
        } else {
            Some(bytes.len() as int)
        },
    }
}

/// `d` is what a decode of `bytes` as `group_type` yields.
pub open spec fn group_decodes(bytes: Seq<u8>, group_type: Seq<char>, d: GroupData) -> bool {
    header_end_at(bytes) matches Some(h) && {
        let n = fstring_end(bytes, 16)->0;
        &&& d.group_id@ == bytes.subrange(0, 16)
        &&& fstring_at(bytes, 16, d.group_name)
        &&& d.individual_character_handle_ids@.len() == u32_at(bytes, n)
        &&& forall|i: int|
            0 <= i < d.individual_character_handle_ids@.len() ==> {
                &&& (#[trigger] d.individual_character_handle_ids@[i]).guid@ == bytes.subrange(
                    n + 4 + 32 * i,
                    n + 20 + 32 * i,
                )
                &&& d.individual_character_handle_ids@[i].instance_id@ == bytes.subrange(n + 20 + 32 * i, n + 36 + 32 * i)
            }
        &&& if group_type == GUILD@ {
            d.data matches GroupVariant::Guild(g) && guild_decodes(bytes, h, g)
        } else if group_type == INDEPENDENT_GUILD@ {
            d.data matches GroupVariant::IndependentGuild(g) && independent_decodes(bytes, h, g)
        } else if group_type == ORGANIZATION@ {
            d.data matches GroupVariant::Organization(g) && organization_decodes(bytes, h, g)
        } else {
            d.data matches GroupVariant::Unknown { remaining_data } && remaining_data@ == bytes.subrange(
                h,
                bytes.len() as int,
            )
        }
    }
}

pub open spec fn handles_bytes(v: Seq<CharacterHandle>) -> Seq<u8>
    decreases v.len(),
{
    if v.len() == 0 {
        Seq::empty()
    } else {
        handles_bytes(v.drop_last()) + v.last().guid@ + v.last().instance_id@
    }
}

pub open spec fn variant_bytes(v: GroupVariant) -> Seq<u8> {
    match v {
        GroupVariant::Guild(g) => guild_bytes(g),
        GroupVariant::IndependentGuild(g) => independent_bytes(g),
        GroupVariant::Organization(g) => organization_bytes(g),
        GroupVariant::Unknown { remaining_data } => remaining_data@,
    }
}

/// A group's encoding.
pub open spec fn group_bytes(d: GroupData) -> Seq<u8> {
    d.group_id@ + d.group_name@.bytes() + u32_bytes(d.individual_character_handle_ids@.len() as u32) + handles_bytes(
        d.individual_character_handle_ids@,
    ) + variant_bytes(d.data)
}


// ---------------------------------------------------------------------------
// Readers and writers of the pieces
// ---------------------------------------------------------------------------

proof fn lemma_players_none(buf: Seq<u8>, p: int, m: nat, n: nat)
    requires
        m <= n,
        players_end(buf, p, m) is None,
    ensures
        players_end(buf, p, n) is None,
    decreases n - m,
{
    if m < n {
        lemma_players_none(buf, p, m + 1, n);
    }
}

proof fn lemma_role_players_none(buf: Seq<u8>, p: int, m: nat, n: nat)
    requires
        m <= n,
        role_players_end(buf, p, m) is None,
    ensures
        role_players_end(buf, p, n) is None,
    decreases n - m,
{
    if m < n {
        lemma_role_players_none(buf, p, m + 1, n);
    }
}

proof fn lemma_permissions_none(buf: Seq<u8>, p: int, m: nat, n: nat)
    requires
        m <= n,
        permissions_end(buf, p, m) is None,
    ensures
        permissions_end(buf, p, n) is None,
    decreases n - m,
{
    if m < n {
        lemma_permissions_none(buf, p, m + 1, n);
    }
}

/// A u32 count, then that many bytes.
fn read_byte_list(buf: &[u8], pos: &mut usize) -> (r: Result<Vec<u8>, GvasError>)
    ensures
        r is Ok <==> byte_list_end(buf@, *old(pos) as int) is Some,
        r matches Ok(v) ==> {
            &&& *final(pos) == byte_list_end(buf@, *old(pos) as int)->0
            &&& v@ == buf@.subrange(*old(pos) + 4, *final(pos) as int)
        },
{
    let n = read_u32_le(buf, pos)?;
    read_n_bytes(buf, pos, n)
}

fn write_byte_list(out: &mut Vec<u8>, items: &Vec<u8>)
    ensures
        final(out)@ == old(out)@ + u32_bytes(items@.len() as u32) + items@,
{
    write_u32_le(out, items.len() as u32);
    append_bytes(out, items.as_slice());
}

fn read_guid_array(buf: &[u8], pos: &mut usize) -> (r: Result<Vec<Guid>, GvasError>)
    ensures
        r is Ok <==> guid_array_end(buf@, *old(pos) as int) is Some,
        r matches Ok(v) ==> {
            &&& *final(pos) == guid_array_end(buf@, *old(pos) as int)->0
            &&& guid_array_decodes(buf@, *old(pos) as int, v@)
        },
{
    let ghost p = *pos as int;
    let count = read_u32_le(buf, pos)?;
    let mut out: Vec<Guid> = Vec::new();
    let mut i: u32 = 0;
    while i < count
        invariant
            i <= count,
            p == *old(pos),
            count == u32_at(buf@, p),
            fits(buf@, p, 4),
            *pos == p + 4 + 16 * i,
            p + 4 + 16 * i <= buf@.len(),
            out@.len() == i,
            forall|j: int| 0 <= j < i ==> (#[trigger] out@[j])@ == buf@.subrange(p + 4 + 16 * j, p + 20 + 16 * j),
        decreases count - i,
    {
        let g = match read_guid(buf, pos) {
            Ok(g) => g,
            Err(e) => {
                return Err(e);
            },
        };
        out.push(g);
        i = i + 1;
    }
    Ok(out)
}

fn write_guid_array(out: &mut Vec<u8>, items: &Vec<Guid>)
    ensures
        final(out)@ == old(out)@ + u32_bytes(items@.len() as u32) + guids_bytes(items@),
{
    write_u32_le(out, items.len() as u32);
    let ghost mid = out@;
    let mut i: usize = 0;
    while i < items.len()
        invariant
            i <= items@.len(),
            out@ == mid + guids_bytes(items@.subrange(0, i as int)),
        decreases items@.len() - i,
    {
        write_guid(out, &items[i]);
        proof {
            assert(items@.subrange(0, i + 1).drop_last() =~= items@.subrange(0, i as int));
        }
        i = i + 1;
    }
    assert(items@.subrange(0, i as int) =~= items@);
}

fn read_player(buf: &[u8], pos: &mut usize) -> (r: Result<GuildPlayer, GvasError>)
    ensures
        r is Ok <==> player_end(buf@, *old(pos) as int) is Some,
        r matches Ok(v) ==> *final(pos) == player_end(buf@, *old(pos) as int)->0 && player_decodes(
            buf@,
            *old(pos) as int,
            v,
        ),
{
    let player_uid = read_guid(buf, pos)?;
    let last_online_real_time = read_i64_le(buf, pos)?;
    let player_name = read_fstring(buf, pos)?;
    Ok(GuildPlayer { player_uid, last_online_real_time, player_name })
}

fn write_player(out: &mut Vec<u8>, p: &GuildPlayer)
    ensures
        final(out)@ == old(out)@ + player_bytes(*p),
{
    write_guid(out, &p.player_uid);
    write_i64_le(out, p.last_online_real_time);
    write_fstring(out, &p.player_name);
    assert(final(out)@ =~= old(out)@ + player_bytes(*p));
}

fn read_player_with_role(buf: &[u8], pos: &mut usize) -> (r: Result<GuildPlayerWithRole, GvasError>)
    ensures
        r is Ok <==> role_player_end(buf@, *old(pos) as int) is Some,
        r matches Ok(v) ==> *final(pos) == role_player_end(buf@, *old(pos) as int)->0 && role_player_decodes(
            buf@,
            *old(pos) as int,
            v,
        ),
{
    let player = read_player(buf, pos)?;
    let role = read_u8(buf, pos)?;
    Ok(GuildPlayerWithRole {
        player_uid: player.player_uid,
        last_online_real_time: player.last_online_real_time,
        player_name: player.player_name,
        role,
    })
}

fn write_player_with_role(out: &mut Vec<u8>, p: &GuildPlayerWithRole)
    ensures
        final(out)@ == old(out)@ + role_player_bytes(*p),
{
    write_guid(out, &p.player_uid);
    write_i64_le(out, p.last_online_real_time);
    write_fstring(out, &p.player_name);
    write_u8(out, p.role);
    assert(final(out)@ =~= old(out)@ + role_player_bytes(*p));
}

fn read_players(buf: &[u8], pos: &mut usize, n: u32) -> (r: Result<Vec<GuildPlayer>, GvasError>)
    ensures
        r is Ok <==> players_end(buf@, *old(pos) as int, n as nat) is Some,
        r matches Ok(v) ==> {
            &&& *final(pos) == players_end(buf@, *old(pos) as int, n as nat)->0
            &&& v@.len() == n
            &&& forall|i: int|
                0 <= i < n ==> player_decodes(buf@, players_end(buf@, *old(pos) as int, i as nat)->0, #[trigger] v@[i])
        },
{
    let ghost p = *pos as int;
    let mut out: Vec<GuildPlayer> = Vec::new();
    let mut i: u32 = 0;
    while i < n
        invariant
            i <= n,
            p == *old(pos),
            players_end(buf@, p, i as nat) == Some(*pos as int),
            out@.len() == i,
            forall|j: int| 0 <= j < i ==> player_decodes(buf@, players_end(buf@, p, j as nat)->0, #[trigger] out@[j]),
        decreases n - i,
    {
        let v = match read_player(buf, pos) {
            Ok(v) => v,
            Err(e) => {
                proof {
                    lemma_players_none(buf@, p, (i + 1) as nat, n as nat);
                }
                return Err(e);
            },
        };
        out.push(v);
        i = i + 1;
    }
    Ok(out)
}

fn write_players(out: &mut Vec<u8>, items: &Vec<GuildPlayer>)
    ensures
        final(out)@ == old(out)@ + players_bytes(items@),
{
    let ghost mid = out@;
    let mut i: usize = 0;
    while i < items.len()
        invariant
            i <= items@.len(),
            out@ == mid + players_bytes(items@.subrange(0, i as int)),
        decreases items@.len() - i,
    {
        write_player(out, &items[i]);
        proof {
            assert(items@.subrange(0, i + 1).drop_last() =~= items@.subrange(0, i as int));
        }
        i = i + 1;
    }
    assert(items@.subrange(0, i as int) =~= items@);
}

fn read_role_players(buf: &[u8], pos: &mut usize, n: u32) -> (r: Result<Vec<GuildPlayerWithRole>, GvasError>)
    ensures
        r is Ok <==> role_players_end(buf@, *old(pos) as int, n as nat) is Some,
        r matches Ok(v) ==> {
            &&& *final(pos) == role_players_end(buf@, *old(pos) as int, n as nat)->0
            &&& v@.len() == n
            &&& forall|i: int|
                0 <= i < n ==> role_player_decodes(
                    buf@,
                    role_players_end(buf@, *old(pos) as int, i as nat)->0,
                    #[trigger] v@[i],
                )
        },
{
    let ghost p = *pos as int;
    let mut out: Vec<GuildPlayerWithRole> = Vec::new();
    let mut i: u32 = 0;
    while i < n
        invariant
            i <= n,
            p == *old(pos),
            role_players_end(buf@, p, i as nat) == Some(*pos as int),
            out@.len() == i,
            forall|j: int|
                0 <= j < i ==> role_player_decodes(buf@, role_players_end(buf@, p, j as nat)->0, #[trigger] out@[j]),
        decreases n - i,
    {
        let v = match read_player_with_role(buf, pos) {
            Ok(v) => v,
            Err(e) => {
                proof {
                    lemma_role_players_none(buf@, p, (i + 1) as nat, n as nat);
                }
                return Err(e);
            },
        };
        out.push(v);
        i = i + 1;
    }
    Ok(out)
}

fn write_role_players(out: &mut Vec<u8>, items: &Vec<GuildPlayerWithRole>)
    ensures
        final(out)@ == old(out)@ + role_players_bytes(items@),
{
    let ghost mid = out@;
    let mut i: usize = 0;
    while i < items.len()
        invariant
            i <= items@.len(),
            out@ == mid + role_players_bytes(items@.subrange(0, i as int)),
        decreases items@.len() - i,
    {
        write_player_with_role(out, &items[i]);
        proof {
            assert(items@.subrange(0, i + 1).drop_last() =~= items@.subrange(0, i as int));
        }
        i = i + 1;
    }
    assert(items@.subrange(0, i as int) =~= items@);
}

fn read_permission(buf: &[u8], pos: &mut usize) -> (r: Result<GuildRolePermission, GvasError>)
    ensures
        r is Ok <==> permission_end(buf@, *old(pos) as int) is Some,
        r matches Ok(v) ==> *final(pos) == permission_end(buf@, *old(pos) as int)->0 && permission_decodes(
            buf@,
            *old(pos) as int,
            v,
        ),
{
    let role = read_u8(buf, pos)?;
    let permissions = read_byte_list(buf, pos)?;
    Ok(GuildRolePermission { role, permissions })
}

fn write_permission(out: &mut Vec<u8>, p: &GuildRolePermission)
    ensures
        final(out)@ == old(out)@ + permission_bytes(*p),
{
    write_u8(out, p.role);
    write_byte_list(out, &p.permissions);
    assert(final(out)@ =~= old(out)@ + permission_bytes(*p));
}

fn read_permissions(buf: &[u8], pos: &mut usize, n: u32) -> (r: Result<Vec<GuildRolePermission>, GvasError>)
    ensures
        r is Ok <==> permissions_end(buf@, *old(pos) as int, n as nat) is Some,
        r matches Ok(v) ==> {
            &&& *final(pos) == permissions_end(buf@, *old(pos) as int, n as nat)->0
            &&& v@.len() == n
            &&& forall|i: int|
                0 <= i < n ==> permission_decodes(
                    buf@,
                    permissions_end(buf@, *old(pos) as int, i as nat)->0,
                    #[trigger] v@[i],
                )
        },
{
    let ghost p = *pos as int;
    let mut out: Vec<GuildRolePermission> = Vec::new();
    let mut i: u32 = 0;
    while i < n
        invariant
            i <= n,
            p == *old(pos),
            permissions_end(buf@, p, i as nat) == Some(*pos as int),
            out@.len() == i,
            forall|j: int|
                0 <= j < i ==> permission_decodes(buf@, permissions_end(buf@, p, j as nat)->0, #[trigger] out@[j]),
        decreases n - i,
    {
        let v = match read_permission(buf, pos) {
            Ok(v) => v,
            Err(e) => {
                proof {
                    lemma_permissions_none(buf@, p, (i + 1) as nat, n as nat);
                }
                return Err(e);
            },
        };
        out.push(v);
        i = i + 1;
    }
    Ok(out)
}

fn write_permissions(out: &mut Vec<u8>, items: &Vec<GuildRolePermission>)
    ensures
        final(out)@ == old(out)@ + permissions_bytes(items@),
{
    let ghost mid = out@;
    let mut i: usize = 0;
    while i < items.len()
        invariant
            i <= items@.len(),
            out@ == mid + permissions_bytes(items@.subrange(0, i as int)),
        decreases items@.len() - i,
    {
        write_permission(out, &items[i]);
        proof {
            assert(items@.subrange(0, i + 1).drop_last() =~= items@.subrange(0, i as int));
        }
        i = i + 1;
    }
    assert(items@.subrange(0, i as int) =~= items@);
}

fn read_marker(buf: &[u8], pos: &mut usize) -> (r: Result<GuildMarker, GvasError>)
    ensures
        r is Ok <==> fits(buf@, *old(pos) as int, 60),
        r matches Ok(v) ==> *final(pos) == *old(pos) + 60 && marker_decodes(buf@, *old(pos) as int, v),
{
    let marker_id = read_guid(buf, pos)?;
    let x = read_u64_le(buf, pos)?;
    let y = read_u64_le(buf, pos)?;
    let z = read_u64_le(buf, pos)?;
    let icon_type = read_i32_le(buf, pos)?;
    let owner_player_uid = read_guid(buf, pos)?;
    Ok(GuildMarker { marker_id, icon_location: (x, y, z), icon_type, owner_player_uid })
}

fn write_marker(out: &mut Vec<u8>, m: &GuildMarker)
    ensures
        final(out)@ == old(out)@ + marker_bytes(*m),
{
    write_guid(out, &m.marker_id);
    write_u64_le(out, m.icon_location.0);
    write_u64_le(out, m.icon_location.1);
    write_u64_le(out, m.icon_location.2);
    write_i32_le(out, m.icon_type);
    write_guid(out, &m.owner_player_uid);
    assert(final(out)@ =~= old(out)@ + marker_bytes(*m));
}

fn read_markers(buf: &[u8], pos: &mut usize, n: u32) -> (r: Result<Vec<GuildMarker>, GvasError>)
    requires
        *old(pos) <= buf@.len(),
    ensures
        r is Ok <==> fits(buf@, *old(pos) as int, 60 * n),
        r matches Ok(v) ==> {
            &&& *final(pos) == *old(pos) + 60 * n
            &&& v@.len() == n
            &&& forall|i: int| 0 <= i < n ==> marker_decodes(buf@, *old(pos) + 60 * i, #[trigger] v@[i])
        },
{
    let ghost p = *pos as int;
    let mut out: Vec<GuildMarker> = Vec::new();
    let mut i: u32 = 0;
    while i < n
        invariant
            i <= n,
            p == *old(pos),
            *pos == p + 60 * i,
            p + 60 * i <= buf@.len(),
            out@.len() == i,
            forall|j: int| 0 <= j < i ==> marker_decodes(buf@, p + 60 * j, #[trigger] out@[j]),
        decreases n - i,
    {
        let v = match read_marker(buf, pos) {
            Ok(v) => v,
            Err(e) => {
                return Err(e);
            },
        };
        out.push(v);
        i = i + 1;
    }
    Ok(out)
}

fn write_markers(out: &mut Vec<u8>, items: &Vec<GuildMarker>)
    ensures
        final(out)@ == old(out)@ + markers_bytes(items@),
{
    let ghost mid = out@;
    let mut i: usize = 0;
    while i < items.len()
        invariant
            i <= items@.len(),
            out@ == mid + markers_bytes(items@.subrange(0, i as int)),
        decreases items@.len() - i,
    {
        write_marker(out, &items[i]);
        proof {
            assert(items@.subrange(0, i + 1).drop_last() =~= items@.subrange(0, i as int));
        }
        i = i + 1;
    }
    assert(items@.subrange(0, i as int) =~= items@);
}


/// Reads twelve bytes.
fn read_array12(buf: &[u8], pos: &mut usize) -> (r: Result<[u8; 12], GvasError>)
    ensures
        fits(buf@, *old(pos) as int, 12) <==> r is Ok,
        r matches Ok(a) ==> a@ == buf@.subrange(*old(pos) as int, *old(pos) + 12) && *final(pos) == *old(pos) + 12,
{
    let ghost p = *pos as int;
    let a = read_array4(buf, pos)?;
    let b = read_array4(buf, pos)?;
    let c = read_array4(buf, pos)?;
    let out = [a[0], a[1], a[2], a[3], b[0], b[1], b[2], b[3], c[0], c[1], c[2], c[3]];
    assert(out@ =~= buf@.subrange(p, p + 12));
    Ok(out)
}

fn read_pre_update(buf: &[u8], pos: &mut usize) -> (r: Result<GuildTailPreUpdate, GvasError>)
    ensures
        r is Ok <==> pre_update_end(buf@, *old(pos) as int) is Some,
        r matches Ok(v) ==> *final(pos) == pre_update_end(buf@, *old(pos) as int)->0 && pre_update_decodes(
            buf@,
            *old(pos) as int,
            v,
        ),
{
    let admin_player_uid = read_guid(buf, pos)?;
    let count = read_u32_le(buf, pos)?;
    let players = read_players(buf, pos, count)?;
    let trailing_bytes = read_array4(buf, pos)?;
    Ok(GuildTailPreUpdate { admin_player_uid, players, trailing_bytes })
}

fn write_pre_update(out: &mut Vec<u8>, t: &GuildTailPreUpdate)
    ensures
        final(out)@ == old(out)@ + pre_update_bytes(*t),
{
    write_guid(out, &t.admin_player_uid);
    write_u32_le(out, t.players.len() as u32);
    write_players(out, &t.players);
    append_bytes(out, &t.trailing_bytes);
    assert(final(out)@ =~= old(out)@ + pre_update_bytes(*t));
}

fn read_post_update(buf: &[u8], pos: &mut usize) -> (r: Result<GuildTailPostUpdate, GvasError>)
    ensures
        r is Ok <==> post_update_end(buf@, *old(pos) as int) is Some,
        r matches Ok(v) ==> *final(pos) == post_update_end(buf@, *old(pos) as int)->0 && post_update_decodes(
            buf@,
            *old(pos) as int,
            v,
        ),
{
    let guild_chest_allowed_roles = read_byte_list(buf, pos)?;
    let unknown_i32 = read_i32_le(buf, pos)?;
    let admin_player_uid = read_guid(buf, pos)?;
    let player_count = read_u32_le(buf, pos)?;
    let players = read_role_players(buf, pos, player_count)?;
    let permission_count = read_u32_le(buf, pos)?;
    let role_permissions = read_permissions(buf, pos, permission_count)?;
    let trailing_bytes = read_array4(buf, pos)?;
    Ok(GuildTailPostUpdate {
        guild_chest_allowed_roles,
        unknown_i32,
        admin_player_uid,
        players,
        role_permissions,
        trailing_bytes,
    })
}

fn write_post_update(out: &mut Vec<u8>, t: &GuildTailPostUpdate)
    ensures
        final(out)@ == old(out)@ + post_update_bytes(*t),
{
    write_byte_list(out, &t.guild_chest_allowed_roles);
    write_i32_le(out, t.unknown_i32);
    write_guid(out, &t.admin_player_uid);
    write_u32_le(out, t.players.len() as u32);
    write_role_players(out, &t.players);
    write_u32_le(out, t.role_permissions.len() as u32);
    write_permissions(out, &t.role_permissions);
    append_bytes(out, &t.trailing_bytes);
    assert(final(out)@ =~= old(out)@ + post_update_bytes(*t));
}

/// Tries the newer shape first and keeps it only if it reads cleanly and reaches the
/// end of the blob; otherwise reads the older shape from the same place.
fn read_tail(buf: &[u8], pos: &mut usize) -> (r: Result<GuildTail, GvasError>)
    ensures
        r is Ok <==> tail_end(buf@, *old(pos) as int) is Some,
        r matches Ok(v) ==> *final(pos) == tail_end(buf@, *old(pos) as int)->0 && tail_decodes(
            buf@,
            *old(pos) as int,
            v,
        ),
{
    let start = *pos;
    let mut probe = start;
    match read_post_update(buf, &mut probe) {
        Ok(t) => {
            if probe == buf.len() {
                *pos = probe;
                return Ok(GuildTail::PostUpdate(t));
            }
        },
        Err(_) => {},
    }
    *pos = start;
    let t = read_pre_update(buf, pos)?;
    Ok(GuildTail::PreUpdate(t))
}

fn write_tail(out: &mut Vec<u8>, t: &GuildTail)
    ensures
        final(out)@ == old(out)@ + tail_bytes(*t),
{
    match t {
        GuildTail::PostUpdate(t) => write_post_update(out, t),
        GuildTail::PreUpdate(t) => write_pre_update(out, t),
    }
}

fn read_guild(buf: &[u8], pos: &mut usize) -> (r: Result<GuildGroup, GvasError>)
    ensures
        r is Ok <==> guild_end(buf@, *old(pos) as int) is Some,
        r matches Ok(v) ==> *final(pos) == guild_end(buf@, *old(pos) as int)->0 && guild_decodes(
            buf@,
            *old(pos) as int,
            v,
        ),
{
    let org_type = read_u8(buf, pos)?;
    let leading_bytes = read_array4(buf, pos)?;
    let base_ids = read_guid_array(buf, pos)?;
    let unknown_1 = read_i32_le(buf, pos)?;
    let base_camp_level = read_i32_le(buf, pos)?;
    let map_object_instance_ids_base_camp_points = read_guid_array(buf, pos)?;
    let guild_name = read_fstring(buf, pos)?;
    let last_guild_name_modifier_player_uid = read_guid(buf, pos)?;
    let marker_count = read_u32_le(buf, pos)?;
    let guild_markers = read_markers(buf, pos, marker_count)?;
    let tail = read_tail(buf, pos)?;
    Ok(GuildGroup {
        org_type,
        leading_bytes,
        base_ids,
        unknown_1,
        base_camp_level,
        map_object_instance_ids_base_camp_points,
        guild_name,
        last_guild_name_modifier_player_uid,
        guild_markers,
        tail,
    })
}

fn write_guild(out: &mut Vec<u8>, g: &GuildGroup)
    ensures
        final(out)@ == old(out)@ + guild_bytes(*g),
{
    write_u8(out, g.org_type);
    append_bytes(out, &g.leading_bytes);
    write_guid_array(out, &g.base_ids);
    write_i32_le(out, g.unknown_1);
    write_i32_le(out, g.base_camp_level);
    write_guid_array(out, &g.map_object_instance_ids_base_camp_points);
    write_fstring(out, &g.guild_name);
    write_guid(out, &g.last_guild_name_modifier_player_uid);
    write_u32_le(out, g.guild_markers.len() as u32);
    write_markers(out, &g.guild_markers);
    write_tail(out, &g.tail);
    assert(final(out)@ =~= old(out)@ + guild_bytes(*g));
}

fn read_independent(buf: &[u8], pos: &mut usize) -> (r: Result<IndependentGuildGroup, GvasError>)
    ensures
        r is Ok <==> independent_end(buf@, *old(pos) as int) is Some,
        r matches Ok(v) ==> *final(pos) == independent_end(buf@, *old(pos) as int)->0 && independent_decodes(
            buf@,
            *old(pos) as int,
            v,
        ),
{
    let org_type = read_u8(buf, pos)?;
    let base_camp_level = read_i32_le(buf, pos)?;
    let map_object_instance_ids_base_camp_points = read_guid_array(buf, pos)?;
    let guild_name = read_fstring(buf, pos)?;
    let player_uid = read_guid(buf, pos)?;
    let guild_name_2 = read_fstring(buf, pos)?;
    let last_online_real_time = read_i64_le(buf, pos)?;
    let player_name = read_fstring(buf, pos)?;
    Ok(IndependentGuildGroup {
        org_type,
        base_camp_level,
        map_object_instance_ids_base_camp_points,
        guild_name,
        player_uid,
        guild_name_2,
        last_online_real_time,
        player_name,
    })
}

fn write_independent(out: &mut Vec<u8>, g: &IndependentGuildGroup)
    ensures
        final(out)@ == old(out)@ + independent_bytes(*g),
{
    write_u8(out, g.org_type);
    write_i32_le(out, g.base_camp_level);
    write_guid_array(out, &g.map_object_instance_ids_base_camp_points);
    write_fstring(out, &g.guild_name);
    write_guid(out, &g.player_uid);
    write_fstring(out, &g.guild_name_2);
    write_i64_le(out, g.last_online_real_time);
    write_fstring(out, &g.player_name);
    assert(final(out)@ =~= old(out)@ + independent_bytes(*g));
}

fn read_organization(buf: &[u8], pos: &mut usize) -> (r: Result<OrganizationGroup, GvasError>)
    ensures
        r is Ok <==> fits(buf@, *old(pos) as int, 13),
        r matches Ok(v) ==> *final(pos) == *old(pos) + 13 && organization_decodes(buf@, *old(pos) as int, v),
{
    let org_type = read_u8(buf, pos)?;
    let trailing_bytes = read_array12(buf, pos)?;
    Ok(OrganizationGroup { org_type, trailing_bytes })
}

fn write_organization(out: &mut Vec<u8>, g: &OrganizationGroup)
    ensures
        final(out)@ == old(out)@ + organization_bytes(*g),
{
    write_u8(out, g.org_type);
    append_bytes(out, &g.trailing_bytes);
    assert(final(out)@ =~= old(out)@ + organization_bytes(*g));
}

// ---------------------------------------------------------------------------
// The blob
// ---------------------------------------------------------------------------

fn read_handles(buf: &[u8], pos: &mut usize, count: u32) -> (r: Result<Vec<CharacterHandle>, GvasError>)
    requires
        *old(pos) <= buf@.len(),
    ensures
        r is Ok <==> fits(buf@, *old(pos) as int, 32 * count),
        r matches Ok(v) ==> {
            &&& *final(pos) == *old(pos) + 32 * count
            &&& v@.len() == count
            &&& forall|i: int|
                0 <= i < count ==> {
                    &&& (#[trigger] v@[i]).guid@ == buf@.subrange(*old(pos) + 32 * i, *old(pos) + 16 + 32 * i)
                    &&& v@[i].instance_id@ == buf@.subrange(*old(pos) + 16 + 32 * i, *old(pos) + 32 + 32 * i)
                }
        },
{
    let ghost p = *pos as int;
    let mut out: Vec<CharacterHandle> = Vec::new();
    let mut i: u32 = 0;
    while i < count
        invariant
            i <= count,
            p == *old(pos),
            *pos == p + 32 * i,
            p + 32 * i <= buf@.len(),
            out@.len() == i,
            forall|j: int|
                0 <= j < i ==> {
                    &&& (#[trigger] out@[j]).guid@ == buf@.subrange(p + 32 * j, p + 16 + 32 * j)
                    &&& out@[j].instance_id@ == buf@.subrange(p + 16 + 32 * j, p + 32 + 32 * j)
                },
        decreases count - i,
    {
        let guid = read_guid(buf, pos)?;
        let instance_id = read_guid(buf, pos)?;
        out.push(CharacterHandle { guid, instance_id });
        i = i + 1;
    }
    Ok(out)
}

fn write_handles(out: &mut Vec<u8>, items: &Vec<CharacterHandle>)
    ensures
        final(out)@ == old(out)@ + handles_bytes(items@),
{
    let ghost mid = out@;
    let mut i: usize = 0;
    while i < items.len()
        invariant
            i <= items@.len(),
            out@ == mid + handles_bytes(items@.subrange(0, i as int)),
        decreases items@.len() - i,
    {
        write_guid(out, &items[i].guid);
        write_guid(out, &items[i].instance_id);
        proof {
            assert(items@.subrange(0, i + 1).drop_last() =~= items@.subrange(0, i as int));
        }
        i = i + 1;
    }
    assert(items@.subrange(0, i as int) =~= items@);
}

/// Decodes a group blob. `group_type` is the sibling `GroupType` enum's text: it picks
/// the variant that follows the common header; an unknown type keeps the rest as
/// opaque bytes. The blob must be consumed exactly.
pub fn decode(bytes: &[u8], group_type: &str) -> (r: Result<GroupData, RawDataError>)
    ensures
        r is Ok <==> group_end(bytes@, group_type@) == Some(bytes@.len() as int),
        match r {
            Ok(d) => group_decodes(bytes@, group_type@, d),
            Err(RawDataError::NotExhausted { consumed, total }) => group_end(bytes@, group_type@) == Some(
                consumed as int,
            ) && total == bytes@.len() && consumed != total,
            Err(RawDataError::Gvas(_)) => group_end(bytes@, group_type@) is None,
        },
{
    let mut pos: usize = 0;
    let group_id = match read_guid(bytes, &mut pos) {
        Ok(g) => g,
        Err(e) => {
            return Err(RawDataError::Gvas(e));
        },
    };
    let group_name = match read_fstring(bytes, &mut pos) {
        Ok(s) => s,
        Err(e) => {
            return Err(RawDataError::Gvas(e));
        },
    };
    let handle_count = match read_u32_le(bytes, &mut pos) {
        Ok(n) => n,
        Err(e) => {
            return Err(RawDataError::Gvas(e));
        },
    };
    let individual_character_handle_ids = match read_handles(bytes, &mut pos, handle_count) {
        Ok(v) => v,
        Err(e) => {
            return Err(RawDataError::Gvas(e));
        },
    };
    let kind = String::from_str(group_type);
    let data = if kind == String::from_str(GUILD) {
        match read_guild(bytes, &mut pos) {
            Ok(g) => GroupVariant::Guild(g),
            Err(e) => {
                return Err(RawDataError::Gvas(e));
            },
        }
    } else if kind == String::from_str(INDEPENDENT_GUILD) {
        match read_independent(bytes, &mut pos) {
            Ok(g) => GroupVariant::IndependentGuild(g),
            Err(e) => {
                return Err(RawDataError::Gvas(e));
            },
        }
    } else if kind == String::from_str(ORGANIZATION) {
        match read_organization(bytes, &mut pos) {
            Ok(g) => GroupVariant::Organization(g),
            Err(e) => {
                return Err(RawDataError::Gvas(e));
            },
        }
    } else {
        let remaining_data = copy_range(bytes, pos, bytes.len());
        pos = bytes.len();
        GroupVariant::Unknown { remaining_data }
    };
    if pos != bytes.len() {
        return Err(RawDataError::NotExhausted { consumed: pos, total: bytes.len() });
    }
    Ok(GroupData { group_id, group_name, individual_character_handle_ids, data })
}

/// The blob's bytes: the header, then the variant's fields in order.
pub fn encode(data: &GroupData) -> (out: Vec<u8>)
    ensures
        out@ == group_bytes(*data),
{
    let mut out: Vec<u8> = Vec::new();
    write_guid(&mut out, &data.group_id);
    write_fstring(&mut out, &data.group_name);
    write_u32_le(&mut out, data.individual_character_handle_ids.len() as u32);
    write_handles(&mut out, &data.individual_character_handle_ids);
    match &data.data {
        GroupVariant::Guild(g) => write_guild(&mut out, g),
        GroupVariant::IndependentGuild(g) => write_independent(&mut out, g),
        GroupVariant::Organization(g) => write_organization(&mut out, g),
        GroupVariant::Unknown { remaining_data } => append_bytes(&mut out, remaining_data.as_slice()),
    }
    assert(out@ =~= group_bytes(*data));
    out
}

// ---------------------------------------------------------------------------
// What was read is what is written back
// ---------------------------------------------------------------------------

proof fn lemma_guids_prefix(buf: Seq<u8>, p: int, v: Seq<Guid>, k: nat)
    requires
        k <= v.len(),
        p >= 0,
        fits(buf, p, (16 * v.len()) as int),
        forall|i: int| 0 <= i < v.len() ==> (#[trigger] v[i])@ == buf.subrange(p + 16 * i, p + 16 + 16 * i),
    ensures
        guids_bytes(v.subrange(0, k as int)) == buf.subrange(p, p + 16 * k),
    decreases k,
{
    if k == 0 {
        assert(buf.subrange(p, p) =~= Seq::<u8>::empty());
        assert(v.subrange(0, 0) =~= Seq::<Guid>::empty());
    } else {
        lemma_guids_prefix(buf, p, v, (k - 1) as nat);
        assert(v.subrange(0, k as int).drop_last() =~= v.subrange(0, k - 1));
        assert(buf.subrange(p, p + 16 * k) =~= buf.subrange(p, p + 16 * (k - 1)) + v[k - 1]@);
    }
}

proof fn lemma_guid_array_of_read(buf: Seq<u8>, p: int, v: Seq<Guid>)
    requires
        guid_array_end(buf, p) is Some,
        guid_array_decodes(buf, p, v),
    ensures
        u32_bytes(v.len() as u32) + guids_bytes(v) == buf.subrange(p, guid_array_end(buf, p)->0),
        p + 4 <= guid_array_end(buf, p)->0 <= buf.len(),
{
    lemma_window_is_encoding(buf, p);
    lemma_guids_prefix(buf, p + 4, v, v.len());
    assert(v.subrange(0, v.len() as int) =~= v);
    let e = guid_array_end(buf, p)->0;
    assert(buf.subrange(p, e) =~= buf.subrange(p, p + 4) + buf.subrange(p + 4, e));
}

proof fn lemma_player_of_read(buf: Seq<u8>, p: int, v: GuildPlayer)
    requires
        player_end(buf, p) is Some,
        player_decodes(buf, p, v),
    ensures
        player_bytes(v) == buf.subrange(p, player_end(buf, p)->0),
        p + 24 <= player_end(buf, p)->0 <= buf.len(),
{
    lemma_window_is_encoding(buf, p + 16);
    lemma_fstring_view(buf, p + 24);
    let e = player_end(buf, p)->0;
    assert(buf.subrange(p, e) =~= buf.subrange(p, p + 16) + buf.subrange(p + 16, p + 24) + buf.subrange(p + 24, e));
}

proof fn lemma_players_of_read(buf: Seq<u8>, p: int, v: Seq<GuildPlayer>)
    requires
        0 <= p <= buf.len(),
        players_end(buf, p, v.len()) is Some,
        forall|i: int| 0 <= i < v.len() ==> player_decodes(buf, players_end(buf, p, i as nat)->0, #[trigger] v[i]),
    ensures
        players_bytes(v) == buf.subrange(p, players_end(buf, p, v.len())->0),
        p <= players_end(buf, p, v.len())->0 <= buf.len(),
    decreases v.len(),
{
    if v.len() == 0 {
        assert(buf.subrange(p, p) =~= Seq::<u8>::empty());
    } else {
        let init = v.drop_last();
        assert forall|i: int| 0 <= i < init.len() implies player_decodes(
            buf,
            players_end(buf, p, i as nat)->0,
            #[trigger] init[i],
        ) by {
            assert(init[i] == v[i]);
        }
        lemma_players_of_read(buf, p, init);
        let q = players_end(buf, p, init.len())->0;
        lemma_player_of_read(buf, q, v.last());
        let e = players_end(buf, p, v.len())->0;
        assert(buf.subrange(p, e) =~= buf.subrange(p, q) + buf.subrange(q, e));
    }
}

proof fn lemma_role_player_of_read(buf: Seq<u8>, p: int, v: GuildPlayerWithRole)
    requires
        role_player_end(buf, p) is Some,
        role_player_decodes(buf, p, v),
    ensures
        role_player_bytes(v) == buf.subrange(p, role_player_end(buf, p)->0),
        p + 24 <= role_player_end(buf, p)->0 <= buf.len(),
{
    lemma_window_is_encoding(buf, p + 16);
    lemma_fstring_view(buf, p + 24);
    let f = player_end(buf, p)->0;
    let e = role_player_end(buf, p)->0;
    assert(buf.subrange(p, e) =~= buf.subrange(p, p + 16) + buf.subrange(p + 16, p + 24) + buf.subrange(p + 24, f)
        + seq![buf[f]]);
}

proof fn lemma_role_players_of_read(buf: Seq<u8>, p: int, v: Seq<GuildPlayerWithRole>)
    requires
        0 <= p <= buf.len(),
        role_players_end(buf, p, v.len()) is Some,
        forall|i: int|
            0 <= i < v.len() ==> role_player_decodes(buf, role_players_end(buf, p, i as nat)->0, #[trigger] v[i]),
    ensures
        role_players_bytes(v) == buf.subrange(p, role_players_end(buf, p, v.len())->0),
        p <= role_players_end(buf, p, v.len())->0 <= buf.len(),
    decreases v.len(),
{
    if v.len() == 0 {
        assert(buf.subrange(p, p) =~= Seq::<u8>::empty());
    } else {
        let init = v.drop_last();
        assert forall|i: int| 0 <= i < init.len() implies role_player_decodes(
            buf,
            role_players_end(buf, p, i as nat)->0,
            #[trigger] init[i],
        ) by {
            assert(init[i] == v[i]);
        }
        lemma_role_players_of_read(buf, p, init);
        let q = role_players_end(buf, p, init.len())->0;
        lemma_role_player_of_read(buf, q, v.last());
        let e = role_players_end(buf, p, v.len())->0;
        assert(buf.subrange(p, e) =~= buf.subrange(p, q) + buf.subrange(q, e));
    }
}

proof fn lemma_permission_of_read(buf: Seq<u8>, p: int, v: GuildRolePermission)
    requires
        permission_end(buf, p) is Some,
        permission_decodes(buf, p, v),
    ensures
        permission_bytes(v) == buf.subrange(p, permission_end(buf, p)->0),
        p + 5 <= permission_end(buf, p)->0 <= buf.len(),
{
    lemma_window_is_encoding(buf, p + 1);
    let e = permission_end(buf, p)->0;
    assert(buf.subrange(p, e) =~= seq![buf[p]] + buf.subrange(p + 1, p + 5) + buf.subrange(p + 5, e));
}

proof fn lemma_permissions_of_read(buf: Seq<u8>, p: int, v: Seq<GuildRolePermission>)
    requires
        0 <= p <= buf.len(),
        permissions_end(buf, p, v.len()) is Some,
        forall|i: int|
            0 <= i < v.len() ==> permission_decodes(buf, permissions_end(buf, p, i as nat)->0, #[trigger] v[i]),
    ensures
        permissions_bytes(v) == buf.subrange(p, permissions_end(buf, p, v.len())->0),
        p <= permissions_end(buf, p, v.len())->0 <= buf.len(),
    decreases v.len(),
{
    if v.len() == 0 {
        assert(buf.subrange(p, p) =~= Seq::<u8>::empty());
    } else {
        let init = v.drop_last();
        assert forall|i: int| 0 <= i < init.len() implies permission_decodes(
            buf,
            permissions_end(buf, p, i as nat)->0,
            #[trigger] init[i],
        ) by {
            assert(init[i] == v[i]);
        }
        lemma_permissions_of_read(buf, p, init);
        let q = permissions_end(buf, p, init.len())->0;
        lemma_permission_of_read(buf, q, v.last());
        let e = permissions_end(buf, p, v.len())->0;
        assert(buf.subrange(p, e) =~= buf.subrange(p, q) + buf.subrange(q, e));
    }
}

proof fn lemma_markers_prefix(buf: Seq<u8>, p: int, v: Seq<GuildMarker>, k: nat)
    requires
        k <= v.len(),
        p >= 0,
        fits(buf, p, (60 * v.len()) as int),
        forall|i: int| 0 <= i < v.len() ==> marker_decodes(buf, p + 60 * i, #[trigger] v[i]),
    ensures
        markers_bytes(v.subrange(0, k as int)) == buf.subrange(p, p + 60 * k),
    decreases k,
{
    if k == 0 {
        assert(buf.subrange(p, p) =~= Seq::<u8>::empty());
        assert(v.subrange(0, 0) =~= Seq::<GuildMarker>::empty());
    } else {
        lemma_markers_prefix(buf, p, v, (k - 1) as nat);
        assert(v.subrange(0, k as int).drop_last() =~= v.subrange(0, k - 1));
        let q = p + 60 * (k - 1);
        assert(marker_decodes(buf, q, v[k - 1]));
        lemma_window_is_encoding(buf, q + 16);
        lemma_window_is_encoding(buf, q + 24);
        lemma_window_is_encoding(buf, q + 32);
        lemma_window_is_encoding(buf, q + 40);
        assert(buf.subrange(q, q + 60) =~= buf.subrange(q, q + 16) + buf.subrange(q + 16, q + 24) + buf.subrange(
            q + 24,
            q + 32,
        ) + buf.subrange(q + 32, q + 40) + buf.subrange(q + 40, q + 44) + buf.subrange(q + 44, q + 60));
        assert(buf.subrange(p, p + 60 * k) =~= buf.subrange(p, q) + buf.subrange(q, q + 60));
    }
}

proof fn lemma_pre_update_of_read(buf: Seq<u8>, p: int, v: GuildTailPreUpdate)
    requires
        pre_update_end(buf, p) is Some,
        pre_update_decodes(buf, p, v),
    ensures
        pre_update_bytes(v) == buf.subrange(p, pre_update_end(buf, p)->0),
        p <= pre_update_end(buf, p)->0 <= buf.len(),
{
    lemma_window_is_encoding(buf, p + 16);
    lemma_players_of_read(buf, p + 20, v.players@);
    let q = players_end(buf, p + 20, v.players@.len())->0;
    let e = pre_update_end(buf, p)->0;
    assert(buf.subrange(p, e) =~= buf.subrange(p, p + 16) + buf.subrange(p + 16, p + 20) + buf.subrange(p + 20, q)
        + buf.subrange(q, e));
}

#[verifier::rlimit(40)]
proof fn lemma_post_update_of_read(buf: Seq<u8>, p: int, v: GuildTailPostUpdate)
    requires
        post_update_end(buf, p) is Some,
        post_update_decodes(buf, p, v),
    ensures
        post_update_bytes(v) == buf.subrange(p, post_update_end(buf, p)->0),
        p <= post_update_end(buf, p)->0 <= buf.len(),
{
    let (q, r, s) = post_update_parts(buf, p)->0;
    lemma_window_is_encoding(buf, p);
    lemma_window_is_encoding(buf, q);
    lemma_window_is_encoding(buf, q + 20);
    lemma_window_is_encoding(buf, r);
    lemma_role_players_of_read(buf, q + 24, v.players@);
    lemma_permissions_of_read(buf, r + 4, v.role_permissions@);
    let e = post_update_end(buf, p)->0;
    assert(buf.subrange(p, e) =~= buf.subrange(p, p + 4) + buf.subrange(p + 4, q) + buf.subrange(q, q + 4)
        + buf.subrange(q + 4, q + 20) + buf.subrange(q + 20, q + 24) + buf.subrange(q + 24, r) + buf.subrange(
        r,
        r + 4,
    ) + buf.subrange(r + 4, s) + buf.subrange(s, e));
}

proof fn lemma_tail_of_read(buf: Seq<u8>, p: int, v: GuildTail)
    requires
        tail_end(buf, p) is Some,
        tail_decodes(buf, p, v),
    ensures
        tail_bytes(v) == buf.subrange(p, tail_end(buf, p)->0),
        p <= tail_end(buf, p)->0 <= buf.len(),
{
    match v {
        GuildTail::PostUpdate(t) => lemma_post_update_of_read(buf, p, t),
        GuildTail::PreUpdate(t) => lemma_pre_update_of_read(buf, p, t),
    }
}

#[verifier::rlimit(60)]
proof fn lemma_guild_of_read(buf: Seq<u8>, p: int, v: GuildGroup)
    requires
        guild_end(buf, p) is Some,
        guild_decodes(buf, p, v),
    ensures
        guild_bytes(v) == buf.subrange(p, guild_end(buf, p)->0),
{
    let (a, b, c, m) = guild_parts(buf, p)->0;
    lemma_guid_array_of_read(buf, p + 5, v.base_ids@);
    lemma_window_is_encoding(buf, a);
    lemma_window_is_encoding(buf, a + 4);
    lemma_guid_array_of_read(buf, a + 8, v.map_object_instance_ids_base_camp_points@);
    lemma_fstring_view(buf, b);
    lemma_window_is_encoding(buf, c + 16);
    lemma_markers_prefix(buf, c + 20, v.guild_markers@, v.guild_markers@.len());
    assert(v.guild_markers@.subrange(0, v.guild_markers@.len() as int) =~= v.guild_markers@);
    lemma_tail_of_read(buf, m, v.tail);
    let e = guild_end(buf, p)->0;
    assert(buf.subrange(p, e) =~= seq![buf[p]] + buf.subrange(p + 1, p + 5) + buf.subrange(p + 5, a) + buf.subrange(
        a,
        a + 4,
    ) + buf.subrange(a + 4, a + 8) + buf.subrange(a + 8, b) + buf.subrange(b, c) + buf.subrange(c, c + 16)
        + buf.subrange(c + 16, c + 20) + buf.subrange(c + 20, m) + buf.subrange(m, e));
}

#[verifier::rlimit(40)]
proof fn lemma_independent_of_read(buf: Seq<u8>, p: int, v: IndependentGuildGroup)
    requires
        independent_end(buf, p) is Some,
        independent_decodes(buf, p, v),
    ensures
        independent_bytes(v) == buf.subrange(p, independent_end(buf, p)->0),
{
    let (a, b, c) = independent_parts(buf, p)->0;
    lemma_window_is_encoding(buf, p + 1);
    lemma_guid_array_of_read(buf, p + 5, v.map_object_instance_ids_base_camp_points@);
    lemma_fstring_view(buf, a);
    lemma_fstring_view(buf, b + 16);
    lemma_window_is_encoding(buf, c);
    lemma_fstring_view(buf, c + 8);
    let e = independent_end(buf, p)->0;
    assert(buf.subrange(p, e) =~= seq![buf[p]] + buf.subrange(p + 1, p + 5) + buf.subrange(p + 5, a) + buf.subrange(
        a,
        b,
    ) + buf.subrange(b, b + 16) + buf.subrange(b + 16, c) + buf.subrange(c, c + 8) + buf.subrange(c + 8, e));
}

proof fn lemma_handles_prefix(buf: Seq<u8>, p: int, v: Seq<CharacterHandle>, k: nat)
    requires
        k <= v.len(),
        p >= 0,
        fits(buf, p, (32 * v.len()) as int),
        forall|i: int|
            0 <= i < v.len() ==> {
                &&& (#[trigger] v[i]).guid@ == buf.subrange(p + 32 * i, p + 16 + 32 * i)
                &&& v[i].instance_id@ == buf.subrange(p + 16 + 32 * i, p + 32 + 32 * i)
            },
    ensures
        handles_bytes(v.subrange(0, k as int)) == buf.subrange(p, p + 32 * k),
    decreases k,
{
    if k == 0 {
        assert(buf.subrange(p, p) =~= Seq::<u8>::empty());
        assert(v.subrange(0, 0) =~= Seq::<CharacterHandle>::empty());
    } else {
        lemma_handles_prefix(buf, p, v, (k - 1) as nat);
        assert(v.subrange(0, k as int).drop_last() =~= v.subrange(0, k - 1));
        let q = p + 32 * (k - 1);
        assert(v[k - 1].guid@ == buf.subrange(q, q + 16));
        assert(buf.subrange(p, p + 32 * k) =~= buf.subrange(p, q) + buf.subrange(q, q + 16) + buf.subrange(
            q + 16,
            q + 32,
        ));
    }
}

/// Law: encoding what a complete decode of a group blob gave reproduces the blob
/// exactly, whatever the group type.
#[verifier::rlimit(40)]
pub proof fn group_round_trip(bytes: Seq<u8>, group_type: Seq<char>, d: GroupData)
    requires
        group_end(bytes, group_type) == Some(bytes.len() as int),
        group_decodes(bytes, group_type, d),
    ensures
        group_bytes(d) == bytes,
{
    let h = header_end_at(bytes)->0;
    let n = fstring_end(bytes, 16)->0;
    lemma_fstring_view(bytes, 16);
    lemma_window_is_encoding(bytes, n);
    let hs = d.individual_character_handle_ids@;
    lemma_handles_prefix(bytes, n + 4, hs, hs.len());
    assert(hs.subrange(0, hs.len() as int) =~= hs);
    let len = bytes.len() as int;
    if group_type == GUILD@ {
        lemma_guild_of_read(bytes, h, d.data->Guild_0);
    } else if group_type == INDEPENDENT_GUILD@ {
        lemma_independent_of_read(bytes, h, d.data->IndependentGuild_0);
    } else if group_type == ORGANIZATION@ {
        let g = d.data->Organization_0;
        assert(bytes.subrange(h, len) =~= seq![bytes[h]] + bytes.subrange(h + 1, h + 13));
    }
    assert(bytes.subrange(h, len) == variant_bytes(d.data));
    assert(bytes =~= bytes.subrange(0, 16) + bytes.subrange(16, n) + bytes.subrange(n, n + 4) + bytes.subrange(n + 4, h)
        + bytes.subrange(h, len));
}

} // verus!
