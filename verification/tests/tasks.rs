use palsave::characters::{self, CharacterError};
use palsave::container;
use palsave::gvas::primitives::{FString, Guid};
use palsave::guilds::{self, GuildError, encode_name, guid_to_hex, hex_to_guid};
use palsave::inventory::{self, CONTAINER_KINDS, ContainerKind, InventoryError, container_ids};
use palsave::migrate::{self, Conflict, MigrateError, MigrationPlan};
use palsave::synthetic::{self, GUILD_ID};
use palsave::world::{self, WorldError};

fn oodle(payload: &[u8], len: usize) -> Result<Vec<u8>, oozextract::OozError> {
    let mut out = vec![0u8; len];
    let n = oozextract::Extractor::new().read_from_slice(payload, &mut out)?;
    out.truncate(n);
    Ok(out)
}

fn level_gvas() -> Vec<u8> {
    container::decode_with(&synthetic::synthetic_sav(), oodle).expect("decode").gvas
}

fn player_gvas() -> Vec<u8> {
    container::decode_with(&synthetic::synthetic_player_sav(), oodle).expect("decode").gvas
}

// --- guilds ---------------------------------------------------------------------

#[test]
fn guilds_guid_hex_round_trips() {
    let guid: Guid = [
        0x00, 0x11, 0x22, 0x33, 0x44, 0x55, 0x66, 0x77, 0x88, 0x99, 0xaa, 0xbb, 0xcc, 0xdd, 0xee, 0xff,
    ];
    let hex = guid_to_hex(&guid);
    assert_eq!(hex, "00112233445566778899aabbccddeeff");
    assert_eq!(hex_to_guid(&hex), Some(guid));
}

#[test]
fn guilds_malformed_hex_is_rejected() {
    assert_eq!(hex_to_guid("too short"), None);
    assert_eq!(hex_to_guid(&"z".repeat(32)), None);
}

#[test]
fn encode_name_picks_the_right_fstring_form() {
    assert_eq!(encode_name(""), FString::Empty);
    assert_eq!(encode_name("Guild"), FString::Ascii { content: b"Guild".to_vec(), trailing: vec![0] });
    let utf16 = encode_name("ギルド");
    assert!(matches!(utf16, FString::Utf16 { .. }));
}

#[test]
fn error_codes_are_stable() {
    assert_eq!(GuildError::NoGroupMap.code(), "no_group_map");
    assert_eq!(GuildError::GuildNotFound { id: "x".into() }.code(), "guild_not_found");
    assert_eq!(GuildError::MalformedGuildId { id: "x".into() }.code(), "malformed_guild_id");
}

#[test]
fn the_synthetic_guild_is_listed() {
    let gvas = level_gvas();
    let list = guilds::list(&gvas).expect("list");
    assert_eq!(list.len(), 1);
    let g = &list[0];
    assert_eq!(g.id, guid_to_hex(&GUILD_ID));
    assert_eq!(g.group_type, "EPalGroupType::Guild");
    assert_eq!(g.name, "Original Name");
    assert_eq!(g.member_count, 1);
    assert_eq!(g.base_camp_level, 7);
    assert_eq!(g.pal_count, 1);
}

#[test]
fn guild_detail_lists_the_roster_with_roles() {
    let gvas = level_gvas();
    let d = guilds::detail(&gvas, &guid_to_hex(&GUILD_ID)).expect("detail");
    assert_eq!(d.admin_player_uid, Some(guid_to_hex(&[9u8; 16])));
    assert_eq!(d.members.len(), 1);
    assert_eq!(d.members[0].player_name, "Tester");
    assert_eq!(d.members[0].last_online_real_time, 682105930000);
    assert_eq!(d.members[0].role, Some(1));
    assert!(matches!(
        guilds::detail(&gvas, "ffffffffffffffffffffffffffffffff"),
        Err(GuildError::GuildNotFound { .. })
    ));
}

#[test]
fn renaming_a_guild_changes_its_name_and_keeps_the_save_parseable() {
    let gvas = level_gvas();
    let id = guid_to_hex(&GUILD_ID);
    let edited = guilds::set_name(&gvas, &id, "Renamed Guild").expect("rename");
    assert_ne!(edited, gvas);
    let list = guilds::list(&edited).expect("list");
    assert_eq!(list[0].name, "Renamed Guild");
    // Everything before the world property is untouched.
    let file = palsave::gvas::GvasFile::parse(&gvas).unwrap();
    let world_start = file.properties[0].span.start;
    assert_eq!(&edited[..world_start], &gvas[..world_start]);
    // Renaming back restores the original bytes exactly.
    let restored = guilds::set_name(&edited, &id, "Original Name").expect("rename back");
    assert_eq!(restored, gvas);
}

#[test]
fn renaming_with_a_malformed_id_is_refused() {
    let gvas = level_gvas();
    assert!(matches!(guilds::set_name(&gvas, "nope", "x"), Err(GuildError::MalformedGuildId { .. })));
    assert!(matches!(
        guilds::set_name(&gvas, "ffffffffffffffffffffffffffffffff", "x"),
        Err(GuildError::GuildNotFound { .. })
    ));
}

#[test]
fn a_player_save_has_no_group_map() {
    let gvas = player_gvas();
    assert!(matches!(guilds::list(&gvas), Err(GuildError::NoGroupMap)));
    assert!(matches!(guilds::list(b"not a save"), Err(GuildError::Gvas(_))));
}

// --- characters -----------------------------------------------------------------

#[test]
fn the_synthetic_player_is_listed() {
    let gvas = level_gvas();
    let players = characters::list_players(&gvas).expect("players");
    assert_eq!(players.len(), 1);
    let p = &players[0];
    assert_eq!(p.uid, "00000000000000000000000000000001");
    assert_eq!(p.nickname.as_deref(), Some("Tester"));
    assert_eq!(p.level, Some(34));
    assert_eq!(p.pal_count, 0);
    assert_eq!(p.hp, None);
    assert!(characters::list_all_pals(&gvas).expect("pals").is_empty());
}

#[test]
fn a_player_is_found_by_uid() {
    let gvas = level_gvas();
    let d = characters::player(&gvas, "00000000000000000000000000000001").expect("player");
    assert_eq!(d.summary.level, Some(34));
    assert!(d.pals.is_empty());
    assert!(matches!(
        characters::player(&gvas, "00000000000000000000000000000002"),
        Err(CharacterError::PlayerNotFound { .. })
    ));
    assert!(matches!(characters::pals_of(&gvas, "xyz"), Err(CharacterError::MalformedUid { .. })));
    assert_eq!(CharacterError::MalformedUid { uid: "x".into() }.code(), "malformed_uid");
}

#[test]
fn gender_prefixes_are_removed() {
    assert_eq!(characters::remove_all("EPalGenderType::Female", "EPalGenderType::"), "Female");
    assert_eq!(characters::remove_all("Male", "EPalGenderType::"), "Male");
    assert_eq!(characters::remove_all("aXbXc", "X"), "abc");
}

// --- inventory ------------------------------------------------------------------

#[test]
fn container_kind_strings_are_stable() {
    assert_eq!(ContainerKind::Common.as_str(), "common");
    assert_eq!(ContainerKind::DropSlot.as_str(), "drop_slot");
    let mut names: Vec<&str> = CONTAINER_KINDS.iter().map(|(k, _)| k.as_str()).collect();
    names.sort_unstable();
    let count = names.len();
    names.dedup();
    assert_eq!(names.len(), count, "duplicate ContainerKind wire name");
}

#[test]
fn a_non_player_save_is_rejected() {
    assert!(container_ids(b"not a save").is_err());
}

#[test]
fn the_synthetic_inventory_joins_across_both_files() {
    let level = level_gvas();
    let player = player_gvas();
    assert_eq!(inventory::player_uid(&player).expect("uid"), "00000000000000000000000000000001");
    let ids = container_ids(&player).expect("ids");
    assert_eq!(ids, vec![("common", synthetic::CONTAINER_ID)]);
    let inv = inventory::player_inventory(&level, &player).expect("inventory");
    assert_eq!(inv.containers.len(), 1);
    let c = &inv.containers[0];
    assert_eq!(c.kind, ContainerKind::Common);
    assert!(!c.missing);
    assert_eq!(c.slot_count, 42);
    assert_eq!(c.slots.len(), 1);
    assert_eq!(c.slots[0].count, 5);
    assert_eq!(c.slots[0].static_id.as_deref(), Some("Wood"));
}

#[test]
fn a_level_save_is_not_a_player_save() {
    let level = level_gvas();
    assert!(matches!(container_ids(&level), Err(InventoryError::NotAPlayerSave)));
    assert_eq!(InventoryError::NotAPlayerSave.code(), "not_a_player_save");
}

// --- world ----------------------------------------------------------------------

#[test]
fn open_map_reaches_each_named_map() {
    let gvas = level_gvas();
    let m = world::open_map(&gvas, "ItemContainerSaveData").expect("map");
    assert_eq!(m.entries.len(), 1);
    assert_eq!(m.cursor.path(), "worldSaveData.ItemContainerSaveData");
    let chain = m.edit_chain(&m.entries[0].fields[0]);
    assert_eq!(chain[0].name, "worldSaveData");
    assert_eq!(chain[1].name, "ItemContainerSaveData");
    assert!(matches!(world::open_map(&gvas, "Nope"), Err(WorldError::MapNotFound { .. })));
    assert!(matches!(world::open_map(&player_gvas(), "Nope"), Err(WorldError::NotALevelSave)));
    assert_eq!(WorldError::NotALevelSave.code(), "not_a_level_save");
}

// --- migration ------------------------------------------------------------------

#[test]
fn a_migration_needs_a_well_formed_uid() {
    let level = level_gvas();
    let player = player_gvas();
    assert!(matches!(migrate::plan(&level, &player, &level, "nope"), Err(MigrateError::MalformedUid)));
    assert!(matches!(
        migrate::plan(&level, &player, &level, "000000000000000000000000000000FF"),
        Err(MigrateError::PlayerNotFound { .. })
    ));
}

#[test]
fn a_migration_plan_counts_rows_and_filters_blocking_conflicts() {
    let plan = MigrationPlan {
        player_uid: "u".into(),
        player_entry_index: 0,
        pal_entry_indices: vec![1, 2],
        item_container_indices: vec![3],
        pal_container_indices: vec![],
        dynamic_item_indices: vec![4],
        source_group_id: None,
        conflicts: vec![
            Conflict::PlayerExists { uid: "u".into() },
            Conflict::GuildMissing { group_id: "g".into() },
            Conflict::ContainerExists { id: "c".into() },
        ],
    };
    assert_eq!(plan.row_count(), 5);
    let blocking: Vec<&str> = plan.blocking_conflicts().iter().map(|c| c.code()).collect();
    assert_eq!(blocking, vec!["player_exists", "container_exists"]);
}

#[test]
fn a_migration_needs_the_source_pal_container_map() {
    let level = level_gvas();
    let player = player_gvas();
    let uid = "00000000000000000000000000000001";
    match migrate::plan(&level, &player, &level, uid) {
        Err(MigrateError::World(WorldError::MapNotFound { name })) => assert_eq!(name, "CharacterContainerSaveData"),
        other => panic!("unexpected: {other:?}"),
    }
}
