//! Surveying a player migration between two worlds: which rows of the source world
//! a player owns (their character, their Pals, their containers, the dynamic items in
//! those containers) and which identities the destination already holds. Reads three
//! files and writes none; conflicts are reported, never resolved.
//!
//! Container ids come from the player's own `Players/<uid>.sav`, never from the
//! container side. A container map keyed twice by one id resolves to its last entry,
//! and ids and dynamic items are visited in the order a map keyed by them would be:
//! container ids by kind name, dynamic ids ascending.

use vstd::prelude::*;
use vstd::string::*;
use crate::gvas::GvasError;
use crate::gvas::nav::{Cursor, all_readable, guid_from_hex_groups, guid_to_hex, hex_digit_str, hex_to_guid, props_readable};
use crate::gvas::primitives::{Guid, guid_eq, guid_is_zero};
use crate::gvas::value::{StructValue, Value};
use crate::gvas::{PropertyEntry, parses};
use crate::characters::{self, Character, CharacterError};
use crate::inventory::{self, InventoryError};
use crate::rawdata::error::RawDataError;
use crate::rawdata::item_container::DynamicId;
use crate::rawdata::{dynamic_item, item_container};
use crate::world::{self, WorldError};

use crate::gvas::error::gvas_message;
use crate::rawdata::error::raw_data_message;
use crate::world::world_message;
use crate::inventory::inventory_message;
use crate::text::push_str;

verus! {

pub const CHARACTER_MAP: &'static str = "CharacterSaveParameterMap";

#[derive(Debug)]
pub enum MigrateError {
    World(WorldError),
    Gvas(GvasError),
    RawData(RawDataError),
    Inventory(InventoryError),
    /// The uid isn't a 32-hex-character string.
    MalformedUid,
    /// No player with that uid in the source world.
    PlayerNotFound { uid: String },
}

/// The human-readable description of each error.
pub open spec fn migrate_message(e: MigrateError) -> Seq<char> {
    match e {
        MigrateError::World(w) => world_message(w),
        MigrateError::Gvas(g) => gvas_message(g),
        MigrateError::RawData(r) => raw_data_message(r),
        MigrateError::Inventory(i) => inventory_message(i),
        MigrateError::MalformedUid => "uid must be 32 hex characters"@,
        MigrateError::PlayerNotFound { uid } => "no player "@ + uid@ + " in the source world"@,
    }
}

impl MigrateError {
    /// A one-line, human-readable description.
    pub fn message(&self) -> (r: String)
        ensures
            r@ == migrate_message(*self),
    {
        let mut s = String::new();
        match self {
            MigrateError::World(w) => {
                return w.message();
            },
            MigrateError::Gvas(g) => {
                return g.message();
            },
            MigrateError::RawData(r) => {
                return r.message();
            },
            MigrateError::Inventory(i) => {
                return i.message();
            },
            MigrateError::MalformedUid => push_str(&mut s, "uid must be 32 hex characters"),
            MigrateError::PlayerNotFound { uid } => {
                push_str(&mut s, "no player ");
                push_str(&mut s, uid.as_str());
                push_str(&mut s, " in the source world");
            },
        }
        assert(s@ =~= migrate_message(*self));
        s
    }
}

impl MigrateError {
    pub fn code(&self) -> (r: &'static str)
        ensures
            match *self {
                MigrateError::World(e) => r@ == world::world_error_code(e),
                MigrateError::Gvas(_) => r@ == "gvas_parse_failed"@,
                MigrateError::RawData(_) => r@ == "rawdata_decode_failed"@,
                MigrateError::Inventory(e) => r@ == crate::inventory::inventory_error_code(e),
                MigrateError::MalformedUid => r@ == "malformed_uid"@,
                MigrateError::PlayerNotFound { .. } => r@ == "player_not_found"@,
            },
    {
        match self {
            MigrateError::World(e) => e.code(),
            MigrateError::Gvas(_) => "gvas_parse_failed",
            MigrateError::RawData(_) => "rawdata_decode_failed",
            MigrateError::Inventory(e) => e.code(),
            MigrateError::MalformedUid => "malformed_uid",
            MigrateError::PlayerNotFound { .. } => "player_not_found",
        }
    }
}

/// An identity that already exists in the destination. None is automatically fatal,
/// but none may be decided silently, so they are reported rather than resolved.
#[derive(Debug, Clone, PartialEq, Eq)]
pub enum Conflict {
    /// The destination already has this player.
    PlayerExists { uid: String },
    /// A Pal with this instance id is already in the destination.
    PalInstanceExists { instance_id: String },
    /// A container with this id already exists there.
    ContainerExists { id: String },
    /// A dynamic item row with this id already exists there.
    DynamicItemExists { id: String },
    /// The player's character blob names a guild the destination has no entry for —
    /// a dangling reference, not an identity clash.
    GuildMissing { group_id: String },
}

impl Conflict {
    /// Stable identifier for the wasm boundary and the UI.
    pub fn code(&self) -> (r: &'static str)
        ensures
            match *self {
                Conflict::PlayerExists { .. } => r@ == "player_exists"@,
                Conflict::PalInstanceExists { .. } => r@ == "pal_instance_exists"@,
                Conflict::ContainerExists { .. } => r@ == "container_exists"@,
                Conflict::DynamicItemExists { .. } => r@ == "dynamic_item_exists"@,
                Conflict::GuildMissing { .. } => r@ == "guild_missing"@,
            },
    {
        match self {
            Conflict::PlayerExists { .. } => "player_exists",
            Conflict::PalInstanceExists { .. } => "pal_instance_exists",
            Conflict::ContainerExists { .. } => "container_exists",
            Conflict::DynamicItemExists { .. } => "dynamic_item_exists",
            Conflict::GuildMissing { .. } => "guild_missing",
        }
    }
}

/// What a migration would move, and what stands in its way. Counts and ids only.
#[derive(Debug, Clone, PartialEq, Eq)]
pub struct MigrationPlan {
    pub player_uid: String,
    /// Index into the source `CharacterSaveParameterMap`'s wire layout.
    pub player_entry_index: usize,
    pub pal_entry_indices: Vec<usize>,
    pub item_container_indices: Vec<usize>,
    pub pal_container_indices: Vec<usize>,
    pub dynamic_item_indices: Vec<usize>,
    /// The guild the player belongs to in the source world, if any.
    pub source_group_id: Option<String>,
    pub conflicts: Vec<Conflict>,
}

/// Conflicts that leave the destination with two of something unique: all but
/// `GuildMissing`, in order.
pub open spec fn blocking(cs: Seq<Conflict>) -> Seq<Conflict>
    decreases cs.len(),
{
    if cs.len() == 0 {
        Seq::empty()
    } else if cs.last() is GuildMissing {
        blocking(cs.drop_last())
    } else {
        blocking(cs.drop_last()).push(cs.last())
    }
}

/// Law: the blocking conflicts are exactly the conflicts that are not
/// `GuildMissing`, in their order: every `PlayerExists`, `PalInstanceExists`,
/// `ContainerExists` and `DynamicItemExists` is kept.
pub proof fn blocking_is_all_but_guild_missing(cs: Seq<Conflict>)
    ensures
        blocking(cs) == cs.filter(|c: Conflict| !(c is GuildMissing)),
    decreases cs.len(),
{
    reveal(Seq::filter);
    if cs.len() > 0 {
        blocking_is_all_but_guild_missing(cs.drop_last());
    }
}

impl MigrationPlan {
    /// Total rows that would be written: the player's own row plus every listed one.
    pub fn row_count(&self) -> (n: usize)
        requires
            1 + self.pal_entry_indices@.len() + self.item_container_indices@.len() + self.pal_container_indices@.len()
                + self.dynamic_item_indices@.len() <= usize::MAX,
        ensures
            n == 1 + self.pal_entry_indices@.len() + self.item_container_indices@.len()
                + self.pal_container_indices@.len() + self.dynamic_item_indices@.len(),
    {
        1 + self.pal_entry_indices.len() + self.item_container_indices.len() + self.pal_container_indices.len()
            + self.dynamic_item_indices.len()
    }

    /// Conflicts that would leave the destination with two of something unique.
    /// `GuildMissing` is excluded — it's a dangling reference, not a duplicate.
    pub fn blocking_conflicts(&self) -> (r: Vec<&Conflict>)
        ensures
            r@.len() == blocking(self.conflicts@).len(),
            forall|i: int| 0 <= i < r@.len() ==> *(#[trigger] r@[i]) == blocking(self.conflicts@)[i],
    {
        let mut out: Vec<&Conflict> = Vec::new();
        let mut i: usize = 0;
        while i < self.conflicts.len()
            invariant
                i <= self.conflicts@.len(),
                out@.len() == blocking(self.conflicts@.subrange(0, i as int)).len(),
                forall|k: int|
                    0 <= k < out@.len() ==> *(#[trigger] out@[k]) == blocking(self.conflicts@.subrange(0, i as int))[k],
            decreases self.conflicts@.len() - i,
        {
            proof {
                assert(self.conflicts@.subrange(0, i + 1).drop_last() =~= self.conflicts@.subrange(0, i as int));
            }
            let c = &self.conflicts[i];
            match c {
                Conflict::GuildMissing { .. } => {},
                _ => out.push(c),
            }
            i = i + 1;
        }
        assert(self.conflicts@.subrange(0, i as int) =~= self.conflicts@);
        out
    }
}

// ---------------------------------------------------------------------------
// Reading identities out of a world
// ---------------------------------------------------------------------------

/// A guid-valued field, when the list has one.
fn guid_field(cursor: &Cursor, props: &[PropertyEntry], name: &str) -> (r: Option<Guid>)
    requires
        all_readable(cursor.source_view(), props@, cursor.guid_view()),
    ensures
        crate::gvas::nav::guid_field_read(*cursor, props@, name@, r),
{
    match cursor.get_opt(props, name) {
        Some(v) => v.as_guid(),
        None => None,
    }
}

/// A guid as hex, or `None` for the all-zero guid (how the format says "none").
fn nonzero_hex(g: &Guid) -> (r: Option<String>)
    ensures
        r is None <==> (forall|j: int| 0 <= j < 16 ==> g@[j] == 0),
        r matches Some(s) ==> s@ == crate::gvas::nav::guid_hex_groups(g@),
{
    if guid_is_zero(g) {
        None
    } else {
        Some(guid_to_hex(g))
    }
}

/// A hex id with a digit other than `0` (the format writes "none" as all zeros).
pub open spec fn not_all_zero(t: Seq<char>) -> bool {
    exists|i: int| 0 <= i < t.len() && t[i] != '0'
}

fn has_nonzero_digit(t: &String) -> (r: bool)
    ensures
        r == not_all_zero(t@),
{
    let n = t.as_str().unicode_len();
    let mut i: usize = 0;
    while i < n
        invariant
            n == t@.len(),
            i <= n,
            forall|j: int| 0 <= j < i ==> t@[j] == '0',
        decreases n - i,
    {
        if t.as_str().get_char(i) != '0' {
            return true;
        }
        i = i + 1;
    }
    false
}

/// The text of an optional string.
pub open spec fn opt_text(o: Option<String>) -> Option<Seq<char>> {
    match o {
        Some(s) => Some(s@),
        None => None,
    }
}

/// The character's owner uid, where it names one (all zeros names none).
spec fn owner_uid(c: Character) -> Option<Seq<char>> {
    match c.owner {
        Some(o) => if not_all_zero(o@) {
            Some(o@)
        } else {
            None
        },
        None => None,
    }
}

/// The guild a character belongs to, in hex; none for the all-zero guid.
spec fn group_text(g: Guid) -> Option<Seq<char>> {
    if forall|j: int| 0 <= j < 16 ==> g@[j] == 0 {
        None
    } else {
        Some(crate::gvas::nav::guid_hex_groups(g@))
    }
}

/// `c` is a player whose uid is `uid`.
spec fn player_with(c: Character, uid: Seq<char>) -> bool {
    c.is_player && opt_text(c.player_uid) == Some(uid)
}

/// `c` is a Pal (not a player) owned by `uid`.
spec fn pal_of(c: Character, uid: Seq<char>) -> bool {
    !c.is_player && owner_uid(c) == Some(uid)
}

/// The map positions `at` of the characters of `cs` that are Pals of `uid`, in order.
spec fn pal_positions(cs: Seq<Character>, at: Seq<usize>, uid: Seq<char>) -> Seq<usize>
    decreases cs.len(),
{
    if cs.len() == 0 || at.len() == 0 {
        Seq::empty()
    } else {
        let prev = pal_positions(cs.drop_last(), at.drop_last(), uid);
        if pal_of(cs.last(), uid) {
            prev.push(at.last())
        } else {
            prev
        }
    }
}

/// No player of the save's character map has the uid `uid`.
pub closed spec fn player_absent(gvas: Seq<u8>, uid: Seq<char>) -> bool {
    exists|cs: Seq<Character>, at: Seq<usize>|
        #[trigger] characters::save_characters_at(gvas, cs, at) && forall|j: int|
            0 <= j < cs.len() ==> !player_with(#[trigger] cs[j], uid)
}

/// Some player of the save's character map has the uid `uid`.
pub closed spec fn player_present(gvas: Seq<u8>, uid: Seq<char>) -> bool {
    exists|cs: Seq<Character>, at: Seq<usize>, j: int|
        #![trigger characters::save_characters_at(gvas, cs, at), cs[j]]
        characters::save_characters_at(gvas, cs, at) && 0 <= j < cs.len() && player_with(cs[j], uid)
}

/// The first player of the save with the uid `uid` sits at position `index` of the
/// character map, and its blob names the guild `group` (none for the all-zero guid).
pub closed spec fn player_at(gvas: Seq<u8>, uid: Seq<char>, index: usize, group: Option<Seq<char>>) -> bool {
    exists|cs: Seq<Character>, at: Seq<usize>, k: int|
        #![trigger characters::save_characters_at(gvas, cs, at), cs[k]]
        {
            &&& characters::save_characters_at(gvas, cs, at)
            &&& at.len() == cs.len()
            &&& 0 <= k < cs.len()
            &&& player_with(cs[k], uid)
            &&& forall|j: int| 0 <= j < k ==> !player_with(#[trigger] cs[j], uid)
            &&& at[k] == index
            &&& group == group_text(cs[k].group_id)
        }
}

/// `idx` are, in map order, the positions in the character map of every Pal owned by
/// `uid`.
pub closed spec fn pals_at(gvas: Seq<u8>, uid: Seq<char>, idx: Seq<usize>) -> bool {
    exists|cs: Seq<Character>, at: Seq<usize>|
        #[trigger] characters::save_characters_at(gvas, cs, at) && at.len() == cs.len() && idx == pal_positions(
            cs,
            at,
            uid,
        )
}

/// The conflicts open with the destination's copy of the player.
pub open spec fn reports_player(cs: Seq<Conflict>) -> bool {
    cs.len() > 0 && cs[0] is PlayerExists
}

/// A conflict as its kind (in the order the variants are declared) and the id it
/// names.
pub open spec fn conflict_view(c: Conflict) -> (u8, Seq<char>) {
    match c {
        Conflict::PlayerExists { uid } => (0u8, uid@),
        Conflict::PalInstanceExists { instance_id } => (1u8, instance_id@),
        Conflict::ContainerExists { id } => (2u8, id@),
        Conflict::DynamicItemExists { id } => (3u8, id@),
        Conflict::GuildMissing { group_id } => (4u8, group_id@),
    }
}

pub open spec fn conflict_views(cs: Seq<Conflict>) -> Seq<(u8, Seq<char>)> {
    cs.map_values(|c: Conflict| conflict_view(c))
}

/// The instance ids of the Pals of `uid` among `cs`, in order.
spec fn pal_instances(cs: Seq<Character>, uid: Seq<char>) -> Seq<Seq<char>>
    decreases cs.len(),
{
    if cs.len() == 0 {
        Seq::empty()
    } else {
        let prev = pal_instances(cs.drop_last(), uid);
        if pal_of(cs.last(), uid) {
            prev.push(cs.last().instance_id@)
        } else {
            prev
        }
    }
}

/// The text of each string of `v`.
spec fn texts(v: Seq<String>) -> Seq<Seq<char>> {
    v.map_values(|t: String| t@)
}

/// The instance ids of `cs`, in order.
spec fn instance_ids(cs: Seq<Character>) -> Seq<Seq<char>> {
    cs.map_values(|c: Character| c.instance_id@)
}

/// One `PalInstanceExists` for each of `ids` that `taken` holds, in order.
spec fn pal_clashes(ids: Seq<Seq<char>>, taken: Seq<Seq<char>>) -> Seq<(u8, Seq<char>)>
    decreases ids.len(),
{
    if ids.len() == 0 {
        Seq::empty()
    } else {
        let prev = pal_clashes(ids.drop_last(), taken);
        if taken.contains(ids.last()) {
            prev.push((1u8, ids.last()))
        } else {
            prev
        }
    }
}

/// One `ContainerExists` for each of `gs` that either container map `xi` or `pi`
/// already keys, in order.
spec fn container_clashes(gs: Seq<Guid>, xi: Seq<(Guid, usize)>, pi: Seq<(Guid, usize)>) -> Seq<(u8, Seq<char>)>
    decreases gs.len(),
{
    if gs.len() == 0 {
        Seq::empty()
    } else {
        let prev = container_clashes(gs.drop_last(), xi, pi);
        if last_position(xi, gs.last()@) is Some || last_position(pi, gs.last()@) is Some {
            prev.push((2u8, crate::gvas::nav::guid_hex_groups(gs.last()@)))
        } else {
            prev
        }
    }
}

/// The player's own clash: one `PlayerExists` when a player of `tcs` has the uid.
spec fn player_clash(tcs: Seq<Character>, uid: Seq<char>) -> Seq<(u8, Seq<char>)> {
    if exists|j: int| 0 <= j < tcs.len() && player_with(#[trigger] tcs[j], uid) {
        seq![(0u8, uid)]
    } else {
        Seq::empty()
    }
}

/// One `DynamicItemExists` for each of `ids` whose key `rows` already holds, in order,
/// named by the id's local part.
spec fn dyn_clashes(ids: Seq<DynamicId>, rows: Seq<(DynamicId, usize)>) -> Seq<(u8, Seq<char>)>
    decreases ids.len(),
{
    if ids.len() == 0 {
        Seq::empty()
    } else {
        let prev = dyn_clashes(ids.drop_last(), rows);
        if last_dyn_position(rows, dyn_key(ids.last())) is Some {
            prev.push((3u8, crate::gvas::nav::guid_hex_groups(ids.last().local_id_in_created_world@)))
        } else {
            prev
        }
    }
}

/// A `GuildMissing` for `group` when it is a guild that `ids` lacks.
spec fn guild_clash(group: Option<Seq<char>>, ids: Seq<Seq<char>>) -> Seq<(u8, Seq<char>)> {
    match group {
        Some(g) => if ids.contains(g) {
            Seq::empty()
        } else {
            seq![(4u8, g)]
        },
        None => Seq::empty(),
    }
}

/// `v`, the plan's conflicts by kind and id, are in order: the player's clash; each
/// of their Pals whose instance id the destination's character map holds; each of
/// their containers (item containers by kind name, then Pal containers) that a
/// destination container map keys; each dynamic item in their item containers (the
/// ones at `containers` in the source), ascending by id, that the destination's
/// dynamic item array holds; and their guild `group` when the destination has no
/// group with its id.
pub closed spec fn conflicts_are(
    source_level: Seq<u8>,
    source_player: Seq<u8>,
    target_level: Seq<u8>,
    uid: Seq<char>,
    group: Option<Seq<char>>,
    containers: Seq<usize>,
    v: Seq<(u8, Seq<char>)>,
) -> bool {
    exists|
        scs: Seq<Character>,
        sat: Seq<usize>,
        tcs: Seq<Character>,
        tat: Seq<usize>,
        ids: Seq<(&'static str, Guid)>,
        pids: Seq<(&'static str, Guid)>,
        txi: Seq<(Guid, usize)>,
        tpi: Seq<(Guid, usize)>,
        used: Seq<DynamicId>,
        trows: Seq<(DynamicId, usize)>,
        gids: Seq<Seq<char>>,
    |
        #![trigger characters::save_characters_at(source_level, scs, sat), characters::save_characters_at(target_level, tcs, tat), inventory::listed_ids(source_player, true, inventory::kinds_by_name(), ids), inventory::listed_ids(source_player, false, inventory::pal_containers_by_name(), pids), map_ids(target_level, inventory::ITEM_CONTAINER_MAP@, txi), map_ids(target_level, inventory::PAL_CONTAINER_MAP@, tpi), used_keys(source_level, inventory::ITEM_CONTAINER_MAP@, containers, keys_of(used)), dynamic_rows(target_level, trows), group_keys(target_level, gids)]
        {
            &&& characters::save_characters_at(source_level, scs, sat)
            &&& characters::save_characters_at(target_level, tcs, tat)
            &&& inventory::listed_ids(source_player, true, inventory::kinds_by_name(), ids)
            &&& inventory::listed_ids(source_player, false, inventory::pal_containers_by_name(), pids)
            &&& map_ids(target_level, inventory::ITEM_CONTAINER_MAP@, txi)
            &&& map_ids(target_level, inventory::PAL_CONTAINER_MAP@, tpi)
            &&& used_keys(source_level, inventory::ITEM_CONTAINER_MAP@, containers, keys_of(used))
            &&& strictly_sorted(used)
            &&& dynamic_rows(target_level, trows)
            &&& group_keys(target_level, gids)
            &&& v == player_clash(tcs, uid) + pal_clashes(pal_instances(scs, uid), instance_ids(tcs))
                + container_clashes(guids_of(ids), txi, tpi) + container_clashes(guids_of(pids), txi, tpi)
                + dyn_clashes(used, trows) + guild_clash(group, gids)
        }
}

/// `idx` are, ascending by id, the positions in the save's dynamic item array of the
/// dynamic items held in the item containers at the positions `containers` of its
/// item container map, each id once; ids the array does not hold are skipped.
pub closed spec fn dynamic_at(level: Seq<u8>, containers: Seq<usize>, idx: Seq<usize>) -> bool {
    exists|ids: Seq<DynamicId>, rows: Seq<(DynamicId, usize)>|
        #![trigger used_keys(level, inventory::ITEM_CONTAINER_MAP@, containers, keys_of(ids)), dynamic_rows(level, rows)]
        {
            &&& used_keys(level, inventory::ITEM_CONTAINER_MAP@, containers, keys_of(ids))
            &&& strictly_sorted(ids)
            &&& dynamic_rows(level, rows)
            &&& idx == dyn_positions(ids, rows)
        }
}

/// The conflicts open with the player's `PlayerExists` exactly when `has` holds.
spec fn opens_right(cs: Seq<Conflict>, has: bool, uid: Seq<char>) -> bool {
    if has {
        cs.len() > 0 && (cs[0] matches Conflict::PlayerExists { uid: u } && u@ == uid)
    } else {
        !reports_player(cs)
    }
}

/// `e` is what opening the world map `name` of `gvas` refuses with: the save does not
/// parse, has no `worldSaveData`, or has no such map.
pub open spec fn map_error(gvas: Seq<u8>, e: WorldError, name: Seq<char>) -> bool {
    match e {
        WorldError::Gvas(g) => !parses(gvas) && g == crate::gvas::parse_failure(gvas),
        WorldError::NotALevelSave => parses(gvas) && world::no_world(gvas),
        WorldError::MapNotFound { name: n } => parses(gvas) && n@ == name && world::no_world_map(gvas, name),
    }
}

/// `e` is what opening the world array `name` of `gvas` refuses with.
pub open spec fn array_error(gvas: Seq<u8>, e: WorldError, name: Seq<char>) -> bool {
    match e {
        WorldError::Gvas(g) => !parses(gvas) && g == crate::gvas::parse_failure(gvas),
        WorldError::NotALevelSave => parses(gvas) && world::no_world(gvas),
        WorldError::MapNotFound { name: n } => parses(gvas) && n@ == name && world::no_world_array(gvas, name),
    }
}

/// `e` is what reading a level save's parts a migration needs refuses with.
pub open spec fn level_error(gvas: Seq<u8>, e: WorldError, with_groups: bool) -> bool {
    ||| map_error(gvas, e, characters::CHARACTER_MAP@)
    ||| map_error(gvas, e, inventory::ITEM_CONTAINER_MAP@)
    ||| map_error(gvas, e, inventory::PAL_CONTAINER_MAP@)
    ||| array_error(gvas, e, inventory::DYNAMIC_ITEM_ARRAY@)
    ||| with_groups && map_error(gvas, e, "GroupSaveDataMap"@)
}

/// `e` is what reading the container ids of the player save `gvas` refuses with.
pub open spec fn player_save_error(gvas: Seq<u8>, e: InventoryError) -> bool {
    match e {
        InventoryError::Gvas(g) => !parses(gvas) && g == crate::gvas::parse_failure(gvas),
        InventoryError::NotAPlayerSave => parses(gvas) && (inventory::no_save_data(gvas) || inventory::no_inventory_info(
            gvas,
        )),
        _ => false,
    }
}

/// Every character of the world's character map with its position in the map.
fn load_characters(gvas: &[u8]) -> (r: Result<(Vec<Character>, Vec<usize>), MigrateError>)
    ensures
        match r {
            Ok((cs, at)) => parses(gvas@) && characters::save_characters_at(gvas@, cs@, at@) && at@.len()
                == cs@.len(),
            Err(MigrateError::World(e)) => map_error(gvas@, e, characters::CHARACTER_MAP@),
            Err(MigrateError::RawData(_)) => parses(gvas@) && characters::character_blob_fails(gvas@),
            Err(_) => false,
        },
{
    match characters::load(gvas) {
        Ok(x) => Ok(x),
        Err(CharacterError::World(e)) => Err(MigrateError::World(e)),
        Err(CharacterError::RawData(e)) => Err(MigrateError::RawData(e)),
        Err(CharacterError::Gvas(e)) => Err(MigrateError::Gvas(e)),
        // `load` never reports these two; its contract rules them out.
        Err(CharacterError::PlayerNotFound { .. }) => Err(MigrateError::MalformedUid),
        Err(CharacterError::MalformedUid { .. }) => Err(MigrateError::MalformedUid),
    }
}

fn is_player_with(c: &Character, uid: &String) -> (r: bool)
    ensures
        r == player_with(*c, uid@),
{
    if !c.is_player {
        return false;
    }
    match &c.player_uid {
        Some(u) => *u == *uid,
        None => false,
    }
}

fn is_pal_of(c: &Character, uid: &String) -> (r: bool)
    ensures
        r == pal_of(*c, uid@),
{
    if c.is_player {
        return false;
    }
    match &c.owner {
        Some(o) => has_nonzero_digit(o) && *o == *uid,
        None => false,
    }
}

/// `cur` reads the map or array `name` of `gvas` with the save's own decode settings.
spec fn map_cursor(gvas: Seq<u8>, name: Seq<char>, cur: Cursor) -> bool {
    &&& cur.source_view() == gvas
    &&& cur.path_view() == crate::gvas::nav::child_path_of("worldSaveData"@, name)
    &&& cur.guid_view() == crate::gvas::declares_property_guid(gvas)
    &&& cur.engine_major_view() == world::engine_of(gvas)
}

/// `g` is the `ID` guid of the entry's key, none when the key has none.
spec fn key_id(cur: Cursor, e: world::MapEntry, g: Option<Guid>) -> bool {
    match e.key {
        Value::Struct(StructValue::Properties(kp)) => crate::gvas::nav::guid_field_read(cur, kp@, "ID"@, g),
        _ => g is None,
    }
}

/// `ids` pairs, in order, the key `ID` of each entry of `es` that has one with the
/// entry's position.
spec fn keyed_positions(cur: Cursor, es: Seq<world::MapEntry>, ids: Seq<(Guid, usize)>) -> bool
    decreases es.len(),
{
    if es.len() == 0 {
        ids.len() == 0
    } else {
        ||| ids.len() > 0 && ids.last().1 == es.len() - 1 && key_id(cur, es.last(), Some(ids.last().0))
            && keyed_positions(cur, es.drop_last(), ids.drop_last())
        ||| key_id(cur, es.last(), None) && keyed_positions(cur, es.drop_last(), ids)
    }
}

/// `ids` pairs, in map order, each keyed entry of the world map `name` with its
/// position.
spec fn map_ids(gvas: Seq<u8>, name: Seq<char>, ids: Seq<(Guid, usize)>) -> bool {
    exists|cur: Cursor, es: Seq<world::MapEntry>|
        #![trigger world::world_map_entries(gvas, name, es), keyed_positions(cur, es, ids)]
        map_cursor(gvas, name, cur) && world::world_map_entries(gvas, name, es) && keyed_positions(cur, es, ids)
}

/// Each entry's key `ID` guid with the entry's position, in map order.
fn container_index(gvas: &[u8], map_name: &str) -> (r: Result<Vec<(Guid, usize)>, MigrateError>)
    ensures
        match r {
            Ok(ids) => parses(gvas@) && map_ids(gvas@, map_name@, ids@),
            Err(MigrateError::World(e)) => map_error(gvas@, e, map_name@),
            Err(_) => false,
        },
{
    let map = match world::open_map(gvas, map_name) {
        Ok(m) => m,
        Err(e) => {
            return Err(MigrateError::World(e));
        },
    };
    let ghost es = map.entries@;
    let mut out: Vec<(Guid, usize)> = Vec::new();
    let mut index: usize = 0;
    while index < map.entries.len()
        invariant
            index <= es.len(),
            es == map.entries@,
            map.wf(),
            parses(gvas@),
            keyed_positions(map.cursor, es.subrange(0, index as int), out@),
        decreases es.len() - index,
    {
        let entry = &map.entries[index];
        proof {
            assert(props_readable(entry.key, map.cursor.source_view(), map.cursor.guid_view()));
            assert(es.subrange(0, index + 1).drop_last() =~= es.subrange(0, index as int));
            assert(es.subrange(0, index + 1).last() == es[index as int]);
        }
        let ghost before = out@;
        match entry.key.as_properties() {
            Some(key_props) => match guid_field(&map.cursor, key_props, "ID") {
                Some(id) => {
                    out.push((id, index));
                    assert(out@.drop_last() =~= before);
                },
                None => {},
            },
            None => {},
        }
        index = index + 1;
    }
    proof {
        assert(es.subrange(0, index as int) =~= es);
        assert(map_cursor(gvas@, map_name@, map.cursor));
    }
    Ok(out)
}

/// The position recorded last for `g` in `ids`, as a map keyed by guid would keep it.
spec fn last_position(ids: Seq<(Guid, usize)>, g: Seq<u8>) -> Option<usize>
    decreases ids.len(),
{
    if ids.len() == 0 {
        None
    } else if ids.last().0@ == g {
        Some(ids.last().1)
    } else {
        last_position(ids.drop_last(), g)
    }
}

/// For each of `gs` in turn, its position in `ids`, where it has one.
spec fn found_positions(gs: Seq<Guid>, ids: Seq<(Guid, usize)>) -> Seq<usize>
    decreases gs.len(),
{
    if gs.len() == 0 {
        Seq::empty()
    } else {
        let prev = found_positions(gs.drop_last(), ids);
        match last_position(ids, gs.last()@) {
            Some(p) => prev.push(p),
            None => prev,
        }
    }
}

/// The position recorded last for `g`, as a map keyed by guid would keep it.
fn lookup_guid(index: &Vec<(Guid, usize)>, g: &Guid) -> (r: Option<usize>)
    ensures
        r == last_position(index@, g@),
{
    let mut found: Option<usize> = None;
    let mut i: usize = 0;
    while i < index.len()
        invariant
            i <= index@.len(),
            found == last_position(index@.subrange(0, i as int), g@),
        decreases index@.len() - i,
    {
        proof {
            assert(index@.subrange(0, i + 1).drop_last() =~= index@.subrange(0, i as int));
        }
        if guid_eq(&index[i].0, g) {
            found = Some(index[i].1);
        }
        i = i + 1;
    }
    assert(index@.subrange(0, i as int) =~= index@);
    found
}

/// The positions in `ids` of each of `gs` that has one, in the order of `gs`.
fn positions_of(gs: &Vec<Guid>, ids: &Vec<(Guid, usize)>) -> (r: Vec<usize>)
    ensures
        r@ == found_positions(gs@, ids@),
{
    let mut out: Vec<usize> = Vec::new();
    let mut k: usize = 0;
    while k < gs.len()
        invariant
            k <= gs@.len(),
            out@ == found_positions(gs@.subrange(0, k as int), ids@),
        decreases gs@.len() - k,
    {
        proof {
            assert(gs@.subrange(0, k + 1).drop_last() =~= gs@.subrange(0, k as int));
        }
        match lookup_guid(ids, &gs[k]) {
            Some(p) => out.push(p),
            None => {},
        }
        k = k + 1;
    }
    assert(gs@.subrange(0, k as int) =~= gs@);
    out
}

/// The guids of `ids`, in order.
spec fn guids_of(ids: Seq<(&'static str, Guid)>) -> Seq<Guid> {
    ids.map_values(|p: (&'static str, Guid)| p.1)
}

fn guids(ids: &Vec<(&'static str, Guid)>) -> (r: Vec<Guid>)
    ensures
        r@ == guids_of(ids@),
{
    let mut out: Vec<Guid> = Vec::new();
    let mut k: usize = 0;
    while k < ids.len()
        invariant
            k <= ids@.len(),
            out@ == guids_of(ids@.subrange(0, k as int)),
        decreases ids@.len() - k,
    {
        out.push(ids[k].1);
        proof {
            assert(out@ =~= guids_of(ids@.subrange(0, k + 1)));
        }
        k = k + 1;
    }
    assert(ids@.subrange(0, k as int) =~= ids@);
    out
}

/// `items` and `pals` are the positions, in the source world's item and Pal container
/// maps, of the containers the player's own save names: item containers by kind name,
/// then Pal containers by name, each container not in the map skipped.
pub closed spec fn containers_at(level: Seq<u8>, player: Seq<u8>, items: Seq<usize>, pals: Seq<usize>) -> bool {
    exists|ids: Seq<(&'static str, Guid)>, pids: Seq<(&'static str, Guid)>, xi: Seq<(Guid, usize)>, pi: Seq<(Guid, usize)>|
        #![trigger inventory::listed_ids(player, true, inventory::kinds_by_name(), ids), inventory::listed_ids(player, false, inventory::pal_containers_by_name(), pids), map_ids(level, inventory::ITEM_CONTAINER_MAP@, xi), map_ids(level, inventory::PAL_CONTAINER_MAP@, pi)]
        {
            &&& inventory::listed_ids(player, true, inventory::kinds_by_name(), ids)
            &&& inventory::listed_ids(player, false, inventory::pal_containers_by_name(), pids)
            &&& map_ids(level, inventory::ITEM_CONTAINER_MAP@, xi)
            &&& map_ids(level, inventory::PAL_CONTAINER_MAP@, pi)
            &&& items == found_positions(guids_of(ids), xi)
            &&& pals == found_positions(guids_of(pids), pi)
        }
}

/// A guid's bytes as a big-endian number: the order of two guids as numbers is the
/// lexicographic order of their bytes.
pub open spec fn be_value(g: Seq<u8>) -> int
    decreases g.len(),
{
    if g.len() == 0 {
        0
    } else {
        be_value(g.drop_last()) * 256 + g.last()
    }
}

pub open spec fn pow256(n: nat) -> int
    decreases n,
{
    if n == 0 { 1 } else { 256 * pow256((n - 1) as nat) }
}

proof fn lemma_be_value_bound(g: Seq<u8>)
    ensures
        0 <= be_value(g) < pow256(g.len()),
    decreases g.len(),
{
    if g.len() > 0 {
        lemma_be_value_bound(g.drop_last());
        let p = pow256((g.len() - 1) as nat);
        let v = be_value(g.drop_last());
        assert(v * 256 + g.last() < p * 256) by (nonlinear_arith)
            requires
                0 <= v < p,
                g.last() < 256,
        ;
    }
}

proof fn lemma_pow256_monotone(a: nat, b: nat)
    requires
        a <= b,
    ensures
        1 <= pow256(a) <= pow256(b),
    decreases b,
{
    if a < b {
        lemma_pow256_monotone(a, (b - 1) as nat);
    } else if a > 0 {
        lemma_pow256_monotone((a - 1) as nat, (a - 1) as nat);
    }
}

fn be_u128(g: &Guid) -> (r: u128)
    ensures
        r == be_value(g@),
{
    let mut acc: u128 = 0;
    let mut i: usize = 0;
    proof {
        reveal_with_fuel(pow256, 16);
        assert(pow256(15) == 0x1_0000_0000_0000_0000_0000_0000_0000_00);
    }
    while i < 16
        invariant
            i <= 16,
            g@.len() == 16,
            acc == be_value(g@.subrange(0, i as int)),
            pow256(15) == 0x1_0000_0000_0000_0000_0000_0000_0000_00,
        decreases 16 - i,
    {
        proof {
            assert(g@.subrange(0, i + 1).drop_last() =~= g@.subrange(0, i as int));
            lemma_be_value_bound(g@.subrange(0, i as int));
            lemma_pow256_monotone(i as nat, 15);
        }
        acc = acc * 256 + g[i] as u128;
        i = i + 1;
    }
    assert(g@.subrange(0, 16) =~= g@);
    acc
}

/// The sort key of a dynamic id: both guids as numbers, created world first.
pub open spec fn dyn_key(d: DynamicId) -> (int, int) {
    (be_value(d.created_world_id@), be_value(d.local_id_in_created_world@))
}

pub open spec fn key_lt(a: (int, int), b: (int, int)) -> bool {
    a.0 < b.0 || (a.0 == b.0 && a.1 < b.1)
}

/// Strictly ascending by key: no id twice.
pub open spec fn strictly_sorted(v: Seq<DynamicId>) -> bool {
    forall|j: int, k: int| 0 <= j < k < v.len() ==> key_lt(dyn_key(v[j]), dyn_key(v[k]))
}

fn dyn_less(a: &DynamicId, b: &DynamicId) -> (r: bool)
    ensures
        r == key_lt(dyn_key(*a), dyn_key(*b)),
{
    let a0 = be_u128(&a.created_world_id);
    let b0 = be_u128(&b.created_world_id);
    a0 < b0 || (a0 == b0 && be_u128(&a.local_id_in_created_world) < be_u128(&b.local_id_in_created_world))
}

/// Adds `x` to a strictly ascending list, unless it is already there.
fn insert_unique(v: &mut Vec<DynamicId>, x: DynamicId)
    requires
        strictly_sorted(old(v)@),
    ensures
        strictly_sorted(final(v)@),
        keys_of(final(v)@) == keys_of(old(v)@).insert(dyn_key(x)),
{
    let mut p: usize = 0;
    while p < v.len() && dyn_less(&v[p], &x)
        invariant
            p <= v@.len(),
            v@ == old(v)@,
            forall|j: int| 0 <= j < p ==> key_lt(dyn_key(#[trigger] v@[j]), dyn_key(x)),
        decreases v@.len() - p,
    {
        p = p + 1;
    }
    if p < v.len() && !dyn_less(&x, &v[p]) {
        assert(dyn_key(v@[p as int]) == dyn_key(x));
        proof {
            lemma_keys_of_contains(v@, p as int);
            assert(keys_of(v@) =~= keys_of(old(v)@).insert(dyn_key(x)));
        }
        return;
    }
    let ghost before = v@;
    v.insert(p, x);
    proof {
        assert(v@[p as int] == x);
        assert forall|j: int, k: int| 0 <= j < k < v@.len() implies key_lt(dyn_key(v@[j]), dyn_key(v@[k])) by {
            if j < p && k < p {
                assert(v@[j] == before[j] && v@[k] == before[k]);
            } else if j < p && k == p {
                assert(v@[j] == before[j]);
            } else if j < p && k > p {
                assert(v@[j] == before[j] && v@[k] == before[k - 1]);
            } else if j == p {
                assert(v@[k] == before[k - 1]);
                if k - 1 > p {
                    assert(key_lt(dyn_key(before[p as int]), dyn_key(before[k - 1])));
                }
            } else {
                assert(v@[j] == before[j - 1] && v@[k] == before[k - 1]);
            }
        }
        assert(v@ =~= before.subrange(0, p as int).push(x) + before.subrange(p as int, before.len() as int));
        assert(before =~= before.subrange(0, p as int) + before.subrange(p as int, before.len() as int));
        lemma_keys_of_split(before.subrange(0, p as int), before.subrange(p as int, before.len() as int), x);
    }
}

/// The keys of a sequence of dynamic ids.
pub open spec fn keys_of(ids: Seq<DynamicId>) -> Set<(int, int)> {
    ids.map_values(|d: DynamicId| dyn_key(d)).to_set()
}

proof fn lemma_keys_of_contains(ids: Seq<DynamicId>, k: int)
    requires
        0 <= k < ids.len(),
    ensures
        keys_of(ids).contains(dyn_key(ids[k])),
{
    assert(ids.map_values(|d: DynamicId| dyn_key(d))[k] == dyn_key(ids[k]));
}

proof fn lemma_keys_of_split(a: Seq<DynamicId>, b: Seq<DynamicId>, x: DynamicId)
    ensures
        keys_of(a.push(x) + b) == keys_of(a + b).insert(dyn_key(x)),
{
    let f = |d: DynamicId| dyn_key(d);
    let l = (a.push(x) + b).map_values(f);
    let r = (a + b).map_values(f);
    assert forall|k: (int, int)| keys_of(a.push(x) + b).contains(k) <==> keys_of(a + b).insert(dyn_key(x)).contains(k) by {
        if l.contains(k) {
            let i = choose|i: int| 0 <= i < l.len() && l[i] == k;
            if i < a.len() {
                assert(r[i] == k);
            } else if i > a.len() {
                assert(r[i - 1] == k);
            }
        }
        if r.contains(k) {
            let i = choose|i: int| 0 <= i < r.len() && r[i] == k;
            if i < a.len() {
                assert(l[i] == k);
            } else {
                assert(l[i + 1] == k);
            }
        }
        if k == dyn_key(x) {
            assert(l[a.len() as int] == k);
        }
    }
    assert(keys_of(a.push(x) + b) =~= keys_of(a + b).insert(dyn_key(x)));
}

/// `d` is the id of the dynamic item the array element `fields` holds: present when
/// its `RawData` is a byte array that decodes.
spec fn element_item(cur: Cursor, fields: Seq<PropertyEntry>, d: Option<DynamicId>) -> bool {
    match d {
        Some(id) => exists|k: int, b: Vec<u8>, it: dynamic_item::DynamicItem|
            #![trigger cur.materializes(fields[k], Value::Bytes(b)), dynamic_item::item_decodes(b@, it)]
            crate::gvas::nav::first_named(fields, "RawData"@, k) && cur.materializes(fields[k], Value::Bytes(b))
                && dynamic_item::item_decodes(b@, it) && it.id == id,
        None => crate::gvas::nav::none_named(fields, "RawData"@) || exists|k: int, v: Value|
            #![trigger cur.materializes(fields[k], v)]
            crate::gvas::nav::first_named(fields, "RawData"@, k) && cur.materializes(fields[k], v) && match v {
                Value::Bytes(b) => dynamic_item::item_header_end(b@) is None,
                _ => true,
            },
    }
}

/// The ids of `per` that are present, each with its position.
spec fn present_rows(per: Seq<Option<DynamicId>>) -> Seq<(DynamicId, usize)>
    decreases per.len(),
{
    if per.len() == 0 {
        Seq::empty()
    } else {
        let prev = present_rows(per.drop_last());
        match per.last() {
            Some(d) => prev.push((d, (per.len() - 1) as usize)),
            None => prev,
        }
    }
}

/// `rows` pair, in array order, the id of each element of the save's dynamic item
/// array that holds one with the element's position.
pub closed spec fn dynamic_rows(gvas: Seq<u8>, rows: Seq<(DynamicId, usize)>) -> bool {
    exists|cur: Cursor, elems: Seq<Seq<PropertyEntry>>, per: Seq<Option<DynamicId>>|
        #![trigger map_cursor(gvas, inventory::DYNAMIC_ITEM_ARRAY@, cur), world::world_array_elements(gvas, inventory::DYNAMIC_ITEM_ARRAY@, elems), present_rows(per)]
        {
            &&& map_cursor(gvas, inventory::DYNAMIC_ITEM_ARRAY@, cur)
            &&& world::world_array_elements(gvas, inventory::DYNAMIC_ITEM_ARRAY@, elems)
            &&& per.len() == elems.len()
            &&& forall|i: int| 0 <= i < elems.len() ==> element_item(cur, #[trigger] elems[i], per[i])
            &&& rows == present_rows(per)
        }
}

/// Each `DynamicItemSaveData` element's decoded id with its position, in order.
fn dynamic_index(gvas: &[u8]) -> (r: Result<Vec<(DynamicId, usize)>, MigrateError>)
    ensures
        match r {
            Ok(rows) => parses(gvas@) && dynamic_rows(gvas@, rows@),
            Err(MigrateError::World(e)) => array_error(gvas@, e, inventory::DYNAMIC_ITEM_ARRAY@),
            Err(_) => false,
        },
{
    let array = match world::open_array(gvas, inventory::DYNAMIC_ITEM_ARRAY) {
        Ok(a) => a,
        Err(e) => {
            return Err(MigrateError::World(e));
        },
    };
    let ghost elems = array.elements@.map_values(|e: Vec<PropertyEntry>| e@);
    let mut out: Vec<(DynamicId, usize)> = Vec::new();
    let ghost mut per: Seq<Option<DynamicId>> = Seq::empty();
    let mut index: usize = 0;
    while index < array.elements.len()
        invariant
            index <= array.elements@.len(),
            elems == array.elements@.map_values(|e: Vec<PropertyEntry>| e@),
            array.wf(),
            parses(gvas@),
            per.len() == index,
            forall|i: int| 0 <= i < index ==> element_item(array.cursor, #[trigger] elems[i], per[i]),
            out@ == present_rows(per),
        decreases array.elements@.len() - index,
    {
        let fields = &array.elements[index];
        proof {
            assert(all_readable(array.cursor.source_view(), fields@, array.cursor.guid_view()));
            assert(elems[index as int] == fields@);
        }
        let ghost before = per;
        let found: Option<DynamicId> = match array.cursor.get_opt(fields.as_slice(), "RawData") {
            Some(v) => {
                let ghost rv = v;
                match v.as_bytes() {
                    Some(raw) => match dynamic_item::decode(raw) {
                        Ok(decoded) => {
                            proof {
                                let k = choose|k: int|
                                    crate::gvas::nav::first_named(fields@, "RawData"@, k) && array.cursor.materializes(
                                        fields@[k],
                                        rv,
                                    );
                                let b = rv->Bytes_0;
                                assert(array.cursor.materializes(fields@[k], Value::Bytes(b)));
                                assert(dynamic_item::item_decodes(b@, decoded));
                            }
                            Some(decoded.id)
                        },
                        Err(_) => None,
                    },
                    None => None,
                }
            },
            None => None,
        };
        proof {
            per = per.push(found);
            assert(per.drop_last() =~= before);
        }
        match found {
            Some(id) => out.push((id, index)),
            None => {},
        }
        index = index + 1;
    }
    proof {
        assert(map_cursor(gvas@, inventory::DYNAMIC_ITEM_ARRAY@, array.cursor));
        assert(dynamic_rows(gvas@, out@));
    }
    Ok(out)
}

/// The position recorded last for the key `k` in `rows`, as a map keyed by dynamic id
/// would keep it.
spec fn last_dyn_position(rows: Seq<(DynamicId, usize)>, k: (int, int)) -> Option<usize>
    decreases rows.len(),
{
    if rows.len() == 0 {
        None
    } else if dyn_key(rows.last().0) == k {
        Some(rows.last().1)
    } else {
        last_dyn_position(rows.drop_last(), k)
    }
}

/// For each of `ids` in turn, its position in `rows`, where it has one.
spec fn dyn_positions(ids: Seq<DynamicId>, rows: Seq<(DynamicId, usize)>) -> Seq<usize>
    decreases ids.len(),
{
    if ids.len() == 0 {
        Seq::empty()
    } else {
        let prev = dyn_positions(ids.drop_last(), rows);
        match last_dyn_position(rows, dyn_key(ids.last())) {
            Some(p) => prev.push(p),
            None => prev,
        }
    }
}

/// The position recorded last for `d`'s key, as a map keyed by dynamic id would keep it.
fn lookup_dynamic(index: &Vec<(DynamicId, usize)>, d: &DynamicId) -> (r: Option<usize>)
    ensures
        r == last_dyn_position(index@, dyn_key(*d)),
{
    let mut found: Option<usize> = None;
    let mut i: usize = 0;
    while i < index.len()
        invariant
            i <= index@.len(),
            found == last_dyn_position(index@.subrange(0, i as int), dyn_key(*d)),
        decreases index@.len() - i,
    {
        proof {
            assert(index@.subrange(0, i + 1).drop_last() =~= index@.subrange(0, i as int));
        }
        if !dyn_less(&index[i].0, d) && !dyn_less(d, &index[i].0) {
            found = Some(index[i].1);
        }
        i = i + 1;
    }
    assert(index@.subrange(0, i as int) =~= index@);
    found
}

fn contains_index(v: &Vec<usize>, x: usize) -> (r: bool)
    ensures
        r == v@.contains(x),
{
    let mut i: usize = 0;
    while i < v.len()
        invariant
            i <= v@.len(),
            forall|j: int| 0 <= j < i ==> v@[j] != x,
        decreases v@.len() - i,
    {
        if v[i] == x {
            assert(v@[i as int] == x);
            return true;
        }
        i = i + 1;
    }
    false
}

/// The key of the dynamic item a slot blob holds: none unless the slot decodes, holds
/// a positive count, and names an item with per-instance state (not the all-zero id).
pub open spec fn slot_key(b: Seq<u8>) -> Option<(int, int)> {
    if item_container::item_slot_end(b) is Some && crate::gvas::primitives::i32_at(b, 4) > 0 {
        let e = crate::gvas::primitives::fstring_end(b, 8)->0;
        let c = b.subrange(e, e + 16);
        let l = b.subrange(e + 16, e + 32);
        if forall|j: int| 0 <= j < 16 ==> c[j] == 0 && l[j] == 0 {
            None
        } else {
            Some((be_value(c), be_value(l)))
        }
    } else {
        None
    }
}

/// The keys of the dynamic items the slot blobs `bs` hold.
pub open spec fn blob_keys(bs: Seq<Vec<u8>>) -> Set<(int, int)>
    decreases bs.len(),
{
    if bs.len() == 0 {
        Set::empty()
    } else {
        let prev = blob_keys(bs.drop_last());
        match slot_key(bs.last()@) {
            Some(k) => prev.insert(k),
            None => prev,
        }
    }
}

/// `ks` are the keys of the dynamic items in the slots of one container's fields.
spec fn entry_keys(cur: Cursor, fields: Seq<PropertyEntry>, ks: Set<(int, int)>) -> bool {
    ||| inventory::no_slots(cur, fields) && ks == Set::<(int, int)>::empty()
    ||| exists|items: Vec<Value>, bs: Seq<Vec<u8>>|
        #[trigger] inventory::named_value(cur, fields, "Slots"@, Value::Array(items)) && #[trigger] inventory::item_blobs(
            cur,
            items@,
            bs,
        ) && ks == blob_keys(bs)
}

/// The union of the sets of `per` at the positions `wanted` lists.
spec fn union_wanted(per: Seq<Set<(int, int)>>, wanted: Seq<usize>) -> Set<(int, int)>
    decreases per.len(),
{
    if per.len() == 0 {
        Set::empty()
    } else {
        let prev = union_wanted(per.drop_last(), wanted);
        if wanted.contains((per.len() - 1) as usize) {
            prev.union(per.last())
        } else {
            prev
        }
    }
}

/// `ks` are the keys of the dynamic items held by the containers among `es` whose
/// positions `wanted` lists.
spec fn wanted_keys(cur: Cursor, es: Seq<world::MapEntry>, wanted: Seq<usize>, ks: Set<(int, int)>) -> bool {
    exists|per: Seq<Set<(int, int)>>|
        #![trigger union_wanted(per, wanted)]
        {
            &&& per.len() == es.len()
            &&& forall|i: int|
                0 <= i < es.len() && wanted.contains(i as usize) ==> entry_keys(cur, (#[trigger] es[i]).fields@, per[i])
            &&& ks == union_wanted(per, wanted)
        }
}

/// `ks` are the keys of the dynamic items held by the containers at the positions
/// `wanted` of the world map `name`.
pub closed spec fn used_keys(gvas: Seq<u8>, name: Seq<char>, wanted: Seq<usize>, ks: Set<(int, int)>) -> bool {
    exists|cur: Cursor, es: Seq<world::MapEntry>|
        #![trigger world::world_map_entries(gvas, name, es), wanted_keys(cur, es, wanted, ks)]
        map_cursor(gvas, name, cur) && world::world_map_entries(gvas, name, es) && wanted_keys(cur, es, wanted, ks)
}

/// Adds the dynamic ids of one container's occupied slots to the ascending set `out`;
/// returns the keys it read.
fn add_entry_keys(cursor: &Cursor, fields: &[PropertyEntry], out: &mut Vec<DynamicId>) -> (ks: Ghost<Set<(int, int)>>)
    requires
        all_readable(cursor.source_view(), fields@, cursor.guid_view()),
        strictly_sorted(old(out)@),
    ensures
        strictly_sorted(final(out)@),
        entry_keys(*cursor, fields@, ks@),
        keys_of(final(out)@) == keys_of(old(out)@).union(ks@),
{
    let slots = match inventory::slot_blobs(cursor, fields) {
        Some(s) => s,
        None => {
            assert(keys_of(out@) =~= keys_of(out@).union(Set::<(int, int)>::empty()));
            return Ghost(Set::empty());
        },
    };
    let ghost k1 = keys_of(out@);
    let mut s: usize = 0;
    assert(k1 =~= k1.union(blob_keys(slots@.subrange(0, 0))));
    while s < slots.len()
        invariant
            s <= slots@.len(),
            strictly_sorted(out@),
            keys_of(out@) == k1.union(blob_keys(slots@.subrange(0, s as int))),
        decreases slots@.len() - s,
    {
        proof {
            assert(slots@.subrange(0, s + 1).drop_last() =~= slots@.subrange(0, s as int));
        }
        match item_container::decode_slot(slots[s].as_slice()) {
            Ok(decoded) => {
                if decoded.count > 0 && !decoded.item.dynamic_id.is_zero() {
                    insert_unique(out, decoded.item.dynamic_id);
                    assert(slot_key(slots@[s as int]@) == Some(dyn_key(decoded.item.dynamic_id)));
                } else {
                    assert(slot_key(slots@[s as int]@) is None);
                }
            },
            Err(_) => {
                assert(slot_key(slots@[s as int]@) is None);
            },
        }
        proof {
            assert(keys_of(out@) =~= k1.union(blob_keys(slots@.subrange(0, s + 1))));
        }
        s = s + 1;
    }
    assert(slots@.subrange(0, s as int) =~= slots@);
    Ghost(blob_keys(slots@))
}

/// The dynamic ids the containers at the positions `wanted` of the map `map_name`
/// hold, ascending and each once.
fn dynamic_ids_used_by(gvas: &[u8], map_name: &str, wanted: &Vec<usize>) -> (r: Result<Vec<DynamicId>, MigrateError>)
    ensures
        match r {
            Ok(ids) => parses(gvas@) && strictly_sorted(ids@) && used_keys(gvas@, map_name@, wanted@, keys_of(ids@)),
            Err(MigrateError::World(e)) => map_error(gvas@, e, map_name@),
            Err(_) => false,
        },
{
    let map = match world::open_map(gvas, map_name) {
        Ok(m) => m,
        Err(e) => {
            return Err(MigrateError::World(e));
        },
    };
    let ghost es = map.entries@;
    let mut out: Vec<DynamicId> = Vec::new();
    let ghost mut per: Seq<Set<(int, int)>> = Seq::empty();
    let mut index: usize = 0;
    assert(keys_of(out@) =~= Set::<(int, int)>::empty());
    while index < map.entries.len()
        invariant
            index <= es.len(),
            es == map.entries@,
            map.wf(),
            parses(gvas@),
            strictly_sorted(out@),
            per.len() == index,
            forall|i: int|
                0 <= i < index && wanted@.contains(i as usize) ==> entry_keys(map.cursor, (#[trigger] es[i]).fields@, per[i]),
            keys_of(out@) == union_wanted(per, wanted@),
        decreases es.len() - index,
    {
        let ghost before = per;
        if contains_index(wanted, index) {
            let entry = &map.entries[index];
            proof {
                assert(all_readable(map.cursor.source_view(), entry.fields@, map.cursor.guid_view()));
            }
            let k2 = add_entry_keys(&map.cursor, entry.fields.as_slice(), &mut out);
            proof {
                per = per.push(k2@);
            }
        } else {
            proof {
                per = per.push(Set::empty());
            }
        }
        proof {
            assert(per.drop_last() =~= before);
            assert(((per.len() - 1) as usize) == index);
        }
        index = index + 1;
    }
    proof {
        assert(map_cursor(gvas@, map_name@, map.cursor));
        assert(wanted_keys(map.cursor, es, wanted@, keys_of(out@)));
    }
    Ok(out)
}

/// Lowercases the hex digits `A`–`F`; every other character is kept.
pub open spec fn lower_hex(s: Seq<char>) -> Seq<char> {
    Seq::new(s.len(), |i: int| if 'A' <= s[i] <= 'F' { (s[i] as u32 + 32) as char } else { s[i] })
}

fn lowercase_hex(s: &str) -> (r: String)
    ensures
        r@ == lower_hex(s@),
{
    let n = s.unicode_len();
    let mut out = String::new();
    let mut i: usize = 0;
    while i < n
        invariant
            n == s@.len(),
            i <= n,
            out@ == lower_hex(s@).subrange(0, i as int),
        decreases n - i,
    {
        let c = s.get_char(i);
        if 'A' <= c && c <= 'F' {
            let d: u8 = (c as u32 - 55) as u8;
            out.append(hex_digit_str(d));
            proof {
                assert(crate::gvas::nav::hex_char(d) == (s@[i as int] as u32 + 32) as char);
            }
        } else {
            out.append(s.substring_char(i, i + 1));
        }
        assert(out@ =~= lower_hex(s@).subrange(0, i + 1));
        i = i + 1;
    }
    assert(lower_hex(s@).subrange(0, n as int) =~= lower_hex(s@));
    out
}

fn contains_text(v: &Vec<String>, t: &String) -> (r: bool)
    ensures
        r == exists|k: int| 0 <= k < v@.len() && (#[trigger] v@[k])@ == t@,
{
    let mut i: usize = 0;
    while i < v.len()
        invariant
            i <= v@.len(),
            forall|k: int| 0 <= k < i ==> (#[trigger] v@[k])@ != t@,
        decreases v@.len() - i,
    {
        if v[i] == *t {
            return true;
        }
        i = i + 1;
    }
    false
}

/// The guild ids, in hex, that keys of `es` hold, in order.
spec fn key_guids(es: Seq<world::MapEntry>) -> Seq<Seq<char>>
    decreases es.len(),
{
    if es.len() == 0 {
        Seq::empty()
    } else {
        let prev = key_guids(es.drop_last());
        match es.last().key {
            Value::Struct(StructValue::Guid(g)) => prev.push(crate::gvas::nav::guid_hex_groups(g@)),
            _ => prev,
        }
    }
}

/// `ids` are, in map order, the keys of the save's `GroupSaveDataMap` in hex.
spec fn group_keys(gvas: Seq<u8>, ids: Seq<Seq<char>>) -> bool {
    exists|es: Seq<world::MapEntry>|
        #[trigger] world::world_map_entries(gvas, "GroupSaveDataMap"@, es) && ids == key_guids(es)
}

/// The hex ids of the target's groups (the keys of its `GroupSaveDataMap`).
fn group_ids(gvas: &[u8]) -> (r: Result<Vec<String>, MigrateError>)
    ensures
        match r {
            Ok(ids) => parses(gvas@) && group_keys(gvas@, texts(ids@)),
            Err(MigrateError::World(e)) => map_error(gvas@, e, "GroupSaveDataMap"@),
            Err(_) => false,
        },
{
    let map = match world::open_map(gvas, "GroupSaveDataMap") {
        Ok(m) => m,
        Err(e) => {
            return Err(MigrateError::World(e));
        },
    };
    let ghost es = map.entries@;
    let mut out: Vec<String> = Vec::new();
    let mut i: usize = 0;
    while i < map.entries.len()
        invariant
            i <= es.len(),
            es == map.entries@,
            parses(gvas@),
            texts(out@) == key_guids(es.subrange(0, i as int)),
        decreases es.len() - i,
    {
        proof {
            assert(es.subrange(0, i + 1).drop_last() =~= es.subrange(0, i as int));
            assert(es.subrange(0, i + 1).last() == es[i as int]);
        }
        let ghost before = out@;
        match map.entries[i].key.as_guid() {
            Some(g) => {
                out.push(guid_to_hex(&g));
                assert(texts(out@) =~= texts(before).push(crate::gvas::nav::guid_hex_groups(g@)));
            },
            None => {},
        }
        i = i + 1;
    }
    assert(es.subrange(0, i as int) =~= es);
    Ok(out)
}

/// The conflicts of a plan, in order: the player's own, each Pal instance id the
/// destination already holds, each container id a destination container map already
/// keys (item containers, then Pal containers), each dynamic item the destination
/// already holds, and the player's guild when the destination has no entry for it.
#[verifier::rlimit(40)]
#[verifier::spinoff_prover]
fn gather_conflicts(
    uid: &String,
    has_player: bool,
    pal_instance_ids: &Vec<String>,
    target_instances: &Vec<String>,
    item_guids: &Vec<Guid>,
    pal_guids: &Vec<Guid>,
    target_item_index: &Vec<(Guid, usize)>,
    target_pal_index: &Vec<(Guid, usize)>,
    used_dynamic: &Vec<DynamicId>,
    target_dynamic: &Vec<(DynamicId, usize)>,
    group: &Option<String>,
    target_groups: &Vec<String>,
) -> (conflicts: Vec<Conflict>)
    ensures
        opens_right(conflicts@, has_player, uid@),
        conflict_views(conflicts@) == (if has_player { seq![(0u8, uid@)] } else { Seq::empty() }) + pal_clashes(
            texts(pal_instance_ids@),
            texts(target_instances@),
        ) + container_clashes(item_guids@, target_item_index@, target_pal_index@) + container_clashes(
            pal_guids@,
            target_item_index@,
            target_pal_index@,
        ) + dyn_clashes(used_dynamic@, target_dynamic@) + guild_clash(opt_text(*group), texts(target_groups@)),
{
    let ghost clash_player: Seq<(u8, Seq<char>)> = if has_player { seq![(0u8, uid@)] } else { Seq::empty() };
    let ghost clash_pals = pal_clashes(texts(pal_instance_ids@), texts(target_instances@));
    let mut conflicts: Vec<Conflict> = Vec::new();
    if has_player {
        let u = uid.clone();
        conflicts.push(Conflict::PlayerExists { uid: u });
    }
    assert(opens_right(conflicts@, has_player, uid@));
    assert(conflict_views(conflicts@) =~= clash_player);
    let mut k: usize = 0;
    while k < pal_instance_ids.len()
        invariant
            k <= pal_instance_ids@.len(),
            opens_right(conflicts@, has_player, uid@),
            conflict_views(conflicts@) == clash_player + pal_clashes(texts(pal_instance_ids@).subrange(0, k as int), texts(target_instances@)),
        decreases pal_instance_ids@.len() - k,
    {
        proof {
            assert(texts(pal_instance_ids@).subrange(0, k + 1).drop_last() =~= texts(pal_instance_ids@).subrange(0, k as int));
        }
        let taken = contains_text(&target_instances, &pal_instance_ids[k]);
        proof {
            if taken {
                let j = choose|j: int| 0 <= j < target_instances@.len() && (#[trigger] target_instances@[j])@ == pal_instance_ids@[k as int]@;
                assert(texts(target_instances@)[j] == pal_instance_ids@[k as int]@);
            } else {
                assert forall|j: int| 0 <= j < texts(target_instances@).len() implies texts(target_instances@)[j] != pal_instance_ids@[k as int]@ by {
                    assert(texts(target_instances@)[j] == target_instances@[j]@);
                }
            }
        }
        if taken {
            let id = pal_instance_ids[k].clone();
            let ghost before = conflicts@;
            conflicts.push(Conflict::PalInstanceExists { instance_id: id });
            assert(conflict_views(conflicts@) =~= conflict_views(before).push((1u8, pal_instance_ids@[k as int]@)));
        }
        k = k + 1;
    }
    assert(texts(pal_instance_ids@).subrange(0, k as int) =~= texts(pal_instance_ids@));
    let ghost clash_items = container_clashes(item_guids@, target_item_index@, target_pal_index@);
    let mut k: usize = 0;
    while k < item_guids.len()
        invariant
            k <= item_guids@.len(),
            opens_right(conflicts@, has_player, uid@),
            conflict_views(conflicts@) == clash_player + clash_pals + container_clashes(
                item_guids@.subrange(0, k as int),
                target_item_index@,
                target_pal_index@,
            ),
        decreases item_guids@.len() - k,
    {
        proof {
            assert(item_guids@.subrange(0, k + 1).drop_last() =~= item_guids@.subrange(0, k as int));
        }
        let guid = item_guids[k];
        if lookup_guid(&target_item_index, &guid).is_some() || lookup_guid(&target_pal_index, &guid).is_some() {
            let ghost before = conflicts@;
            conflicts.push(Conflict::ContainerExists { id: guid_to_hex(&guid) });
            assert(conflict_views(conflicts@) =~= conflict_views(before).push(
                (2u8, crate::gvas::nav::guid_hex_groups(guid@)),
            ));
        }
        k = k + 1;
    }
    assert(item_guids@.subrange(0, k as int) =~= item_guids@);
    let mut k: usize = 0;
    while k < pal_guids.len()
        invariant
            k <= pal_guids@.len(),
            opens_right(conflicts@, has_player, uid@),
            conflict_views(conflicts@) == clash_player + clash_pals + clash_items + container_clashes(
                pal_guids@.subrange(0, k as int),
                target_item_index@,
                target_pal_index@,
            ),
        decreases pal_guids@.len() - k,
    {
        proof {
            assert(pal_guids@.subrange(0, k + 1).drop_last() =~= pal_guids@.subrange(0, k as int));
        }
        let guid = pal_guids[k];
        if lookup_guid(&target_item_index, &guid).is_some() || lookup_guid(&target_pal_index, &guid).is_some() {
            let ghost before = conflicts@;
            conflicts.push(Conflict::ContainerExists { id: guid_to_hex(&guid) });
            assert(conflict_views(conflicts@) =~= conflict_views(before).push(
                (2u8, crate::gvas::nav::guid_hex_groups(guid@)),
            ));
        }
        k = k + 1;
    }
    assert(pal_guids@.subrange(0, k as int) =~= pal_guids@);
    let ghost head = conflict_views(conflicts@);
    let mut k: usize = 0;
    while k < used_dynamic.len()
        invariant
            k <= used_dynamic@.len(),
            opens_right(conflicts@, has_player, uid@),
            conflict_views(conflicts@) == head + dyn_clashes(used_dynamic@.subrange(0, k as int), target_dynamic@),
        decreases used_dynamic@.len() - k,
    {
        proof {
            assert(used_dynamic@.subrange(0, k + 1).drop_last() =~= used_dynamic@.subrange(0, k as int));
        }
        if lookup_dynamic(&target_dynamic, &used_dynamic[k]).is_some() {
            let ghost before = conflicts@;
            conflicts.push(Conflict::DynamicItemExists { id: guid_to_hex(&used_dynamic[k].local_id_in_created_world) });
            assert(conflict_views(conflicts@) =~= conflict_views(before).push(conflict_view(conflicts@.last())));
        }
        k = k + 1;
    }
    assert(used_dynamic@.subrange(0, k as int) =~= used_dynamic@);
    let ghost before_guild = conflict_views(conflicts@);
    match group {
        Some(group) => {
            let missing = !contains_text(&target_groups, group);
            proof {
                let ids = texts(target_groups@);
                if ids.contains(group@) {
                    let j = choose|j: int| 0 <= j < ids.len() && ids[j] == group@;
                    assert(target_groups@[j]@ == group@);
                } else {
                    assert forall|j: int| 0 <= j < target_groups@.len() implies (#[trigger] target_groups@[j])@ != group@ by {
                        assert(ids[j] == target_groups@[j]@);
                    }
                }
            }
            if missing {
                let ghost before = conflicts@;
                conflicts.push(Conflict::GuildMissing { group_id: group.clone() });
                assert(conflict_views(conflicts@) =~= conflict_views(before).push(conflict_view(conflicts@.last())));
            }
        },
        None => {},
    }
    assert(conflict_views(conflicts@) =~= before_guild + guild_clash(opt_text(*group), texts(target_groups@)));
    conflicts
}

/// Surveys what moving `player_uid` from `source_level` into `target_level` would
/// involve. Reads three files and writes none. `source_player` is the player's own
/// save from the source world, which is where their container ids live.
#[verifier::rlimit(40)]
#[verifier::spinoff_prover]
pub fn plan(source_level: &[u8], source_player: &[u8], target_level: &[u8], player_uid: &str) -> (r: Result<
    MigrationPlan,
    MigrateError,
>)
    ensures
        match r {
            Ok(p) => {
                &&& guid_from_hex_groups(player_uid.spec_bytes()) is Some
                &&& p.player_uid@ == lower_hex(player_uid@)
                &&& parses(source_level@) && parses(source_player@) && parses(target_level@)
                &&& player_at(source_level@, p.player_uid@, p.player_entry_index, opt_text(p.source_group_id))
                &&& pals_at(source_level@, p.player_uid@, p.pal_entry_indices@)
                &&& containers_at(source_level@, source_player@, p.item_container_indices@, p.pal_container_indices@)
                &&& dynamic_at(source_level@, p.item_container_indices@, p.dynamic_item_indices@)
                &&& reports_player(p.conflicts@) ==> (p.conflicts@[0] matches Conflict::PlayerExists { uid } && uid@
                    == p.player_uid@) && player_present(target_level@, p.player_uid@)
                &&& !reports_player(p.conflicts@) ==> player_absent(target_level@, p.player_uid@)
                &&& conflicts_are(
                    source_level@,
                    source_player@,
                    target_level@,
                    p.player_uid@,
                    opt_text(p.source_group_id),
                    p.item_container_indices@,
                    conflict_views(p.conflicts@),
                )
            },
            Err(MigrateError::MalformedUid) => guid_from_hex_groups(player_uid.spec_bytes()) is None,
            Err(MigrateError::PlayerNotFound { uid }) => uid@ == lower_hex(player_uid@) && parses(source_level@)
                && player_absent(source_level@, uid@),
            Err(MigrateError::World(e)) => guid_from_hex_groups(player_uid.spec_bytes()) is Some && (level_error(
                source_level@,
                e,
                false,
            ) || level_error(target_level@, e, true)),
            Err(MigrateError::RawData(_)) => guid_from_hex_groups(player_uid.spec_bytes()) is Some && (
            characters::character_blob_fails(source_level@) || characters::character_blob_fails(target_level@)),
            Err(MigrateError::Inventory(e)) => guid_from_hex_groups(player_uid.spec_bytes()) is Some
                && player_save_error(source_player@, e),
            Err(MigrateError::Gvas(_)) => false,
        },
{
    if hex_to_guid(player_uid).is_none() {
        return Err(MigrateError::MalformedUid);
    }
    let uid = lowercase_hex(player_uid);
    let (source_chars, source_at) = load_characters(source_level)?;
    let ghost scs = source_chars@;
    let ghost sat = source_at@;
    let mut player: Option<usize> = None;
    let mut i: usize = 0;
    while i < source_chars.len()
        invariant
            i <= scs.len(),
            scs == source_chars@,
            match player {
                None => forall|j: int| 0 <= j < i ==> !player_with(#[trigger] scs[j], uid@),
                Some(k) => k < i && player_with(scs[k as int], uid@) && forall|j: int|
                    0 <= j < k ==> !player_with(#[trigger] scs[j], uid@),
            },
        decreases scs.len() - i,
    {
        if player.is_none() && is_player_with(&source_chars[i], &uid) {
            player = Some(i);
        }
        i = i + 1;
    }
    let k = match player {
        Some(k) => k,
        None => {
            let missing = uid.clone();
            proof {
                assert(characters::save_characters_at(source_level@, scs, sat));
            }
            return Err(MigrateError::PlayerNotFound { uid: missing });
        },
    };
    let player = &source_chars[k];
    let player_entry_index = source_at[k];
    let source_group_id = nonzero_hex(&player.group_id);
    proof {
        assert(player_at(source_level@, uid@, player_entry_index, opt_text(source_group_id))) by {
            assert(characters::save_characters_at(source_level@, scs, sat) && scs[k as int] == *player);
        }
    }
    let mut pal_instance_ids: Vec<String> = Vec::new();
    let mut pal_entry_indices: Vec<usize> = Vec::new();
    let mut i: usize = 0;
    while i < source_chars.len()
        invariant
            i <= scs.len(),
            scs == source_chars@,
            sat == source_at@,
            sat.len() == scs.len(),
            pal_entry_indices@ == pal_positions(scs.subrange(0, i as int), sat.subrange(0, i as int), uid@),
            texts(pal_instance_ids@) == pal_instances(scs.subrange(0, i as int), uid@),
        decreases scs.len() - i,
    {
        proof {
            assert(scs.subrange(0, i + 1).drop_last() =~= scs.subrange(0, i as int));
            assert(sat.subrange(0, i + 1).drop_last() =~= sat.subrange(0, i as int));
        }
        if is_pal_of(&source_chars[i], &uid) {
            let id = source_chars[i].instance_id.clone();
            let ghost before = pal_instance_ids@;
            pal_instance_ids.push(id);
            pal_entry_indices.push(source_at[i]);
            assert(texts(pal_instance_ids@) =~= texts(before).push(scs[i as int].instance_id@));
        }
        i = i + 1;
    }
    proof {
        assert(scs.subrange(0, i as int) =~= scs);
        assert(sat.subrange(0, i as int) =~= sat);
        assert(pals_at(source_level@, uid@, pal_entry_indices@)) by {
            assert(characters::save_characters_at(source_level@, scs, sat));
        }
    }
    let item_ids = match inventory::container_ids(source_player) {
        Ok(v) => v,
        Err(e) => {
            return Err(MigrateError::Inventory(e));
        },
    };
    let pal_ids = match inventory::pal_container_ids(source_player) {
        Ok(v) => v,
        Err(e) => {
            return Err(MigrateError::Inventory(e));
        },
    };
    let item_guids = guids(&item_ids);
    let pal_guids = guids(&pal_ids);
    let source_item_index = container_index(source_level, inventory::ITEM_CONTAINER_MAP)?;
    let source_pal_index = container_index(source_level, inventory::PAL_CONTAINER_MAP)?;
    let item_container_indices = positions_of(&item_guids, &source_item_index);
    let pal_container_indices = positions_of(&pal_guids, &source_pal_index);
    proof {
        assert(containers_at(source_level@, source_player@, item_container_indices@, pal_container_indices@));
    }
    let used_dynamic = dynamic_ids_used_by(source_level, inventory::ITEM_CONTAINER_MAP, &item_container_indices)?;
    let source_dynamic = dynamic_index(source_level)?;
    let mut dynamic_item_indices: Vec<usize> = Vec::new();
    let mut k: usize = 0;
    while k < used_dynamic.len()
        invariant
            k <= used_dynamic@.len(),
            dynamic_item_indices@ == dyn_positions(used_dynamic@.subrange(0, k as int), source_dynamic@),
        decreases used_dynamic@.len() - k,
    {
        proof {
            assert(used_dynamic@.subrange(0, k + 1).drop_last() =~= used_dynamic@.subrange(0, k as int));
        }
        match lookup_dynamic(&source_dynamic, &used_dynamic[k]) {
            Some(p) => dynamic_item_indices.push(p),
            None => {},
        }
        k = k + 1;
    }
    proof {
        assert(used_dynamic@.subrange(0, k as int) =~= used_dynamic@);
        assert(dynamic_at(source_level@, item_container_indices@, dynamic_item_indices@));
    }

    let (target_chars, target_at) = load_characters(target_level)?;
    let ghost tcs = target_chars@;
    let ghost tat = target_at@;
    let mut has_player = false;
    let mut target_instances: Vec<String> = Vec::new();
    let mut k: usize = 0;
    while k < target_chars.len()
        invariant
            k <= tcs.len(),
            tcs == target_chars@,
            has_player == exists|j: int| 0 <= j < k && player_with(#[trigger] tcs[j], uid@),
            texts(target_instances@) == instance_ids(tcs.subrange(0, k as int)),
        decreases tcs.len() - k,
    {
        if is_player_with(&target_chars[k], &uid) {
            has_player = true;
        }
        let id = target_chars[k].instance_id.clone();
        let ghost before = target_instances@;
        target_instances.push(id);
        assert(texts(target_instances@) =~= texts(before).push(tcs[k as int].instance_id@));
        assert(instance_ids(tcs.subrange(0, k + 1)) =~= instance_ids(tcs.subrange(0, k as int)).push(
            tcs[k as int].instance_id@,
        ));
        k = k + 1;
    }
    assert(tcs.subrange(0, k as int) =~= tcs);
    proof {
        if has_player {
            let j = choose|j: int| 0 <= j < k && player_with(#[trigger] tcs[j], uid@);
            assert(characters::save_characters_at(target_level@, tcs, tat) && player_with(tcs[j], uid@));
            assert(player_present(target_level@, uid@));
        } else {
            assert(characters::save_characters_at(target_level@, tcs, tat));
            assert(player_absent(target_level@, uid@));
        }
    }
    let target_groups = group_ids(target_level)?;
    let target_item_index = container_index(target_level, inventory::ITEM_CONTAINER_MAP)?;
    let target_pal_index = container_index(target_level, inventory::PAL_CONTAINER_MAP)?;
    let target_dynamic = dynamic_index(target_level)?;

    let conflicts = gather_conflicts(
        &uid,
        has_player,
        &pal_instance_ids,
        &target_instances,
        &item_guids,
        &pal_guids,
        &target_item_index,
        &target_pal_index,
        &used_dynamic,
        &target_dynamic,
        &source_group_id,
        &target_groups,
    );
    proof {
        let clash_player: Seq<(u8, Seq<char>)> = if has_player { seq![(0u8, uid@)] } else { Seq::empty() };
        assert(player_clash(tcs, uid@) == clash_player);
        assert(conflicts_are(
            source_level@,
            source_player@,
            target_level@,
            uid@,
            opt_text(source_group_id),
            item_container_indices@,
            conflict_views(conflicts@),
        )) by {
            assert(characters::save_characters_at(source_level@, scs, sat));
            assert(characters::save_characters_at(target_level@, tcs, tat));
            assert(group_keys(target_level@, texts(target_groups@)));
        }
    }
    Ok(
        MigrationPlan {
            player_uid: uid,
            player_entry_index,
            pal_entry_indices,
            item_container_indices,
            pal_container_indices,
            dynamic_item_indices,
            source_group_id,
            conflicts,
        },
    )
}

} // verus!
