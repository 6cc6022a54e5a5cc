use palsave::gvas::primitives::{FString, write_fstring, write_guid, write_i32_le, write_u32_le, write_f32_le};
use palsave::gvas::property::{PropertyTag, TagExtra, none_terminator, write_property_tag};
use palsave::rawdata::character;
use palsave::rawdata::character_container::{self, PalContainerSlot};
use palsave::rawdata::dynamic_item::{self, DynamicItem, DynamicItemPayload, EGG_TRAILER_LEN, classify, matching_shape_count};
use palsave::rawdata::error::RawDataError;
use palsave::rawdata::group::{
    self, CharacterHandle, GroupData, GroupVariant, GuildGroup, GuildMarker, GuildPlayer, GuildPlayerWithRole,
    GuildRolePermission, GuildTail, GuildTailPostUpdate, GuildTailPreUpdate, IndependentGuildGroup, OrganizationGroup,
    GUILD, INDEPENDENT_GUILD, ORGANIZATION,
};
use palsave::rawdata::item_container::{
    self, DynamicId, ItemContainer, ItemContainerSlot, ItemId, decode_container, encode_container,
};

fn ascii(s: &str) -> FString {
    FString::Ascii { content: s.as_bytes().to_vec(), trailing: vec![0] }
}

// --- character ---

fn synthetic_bytes() -> Vec<u8> {
    let mut buf = Vec::new();
    write_property_tag(
        &mut buf,
        &PropertyTag {
            name: ascii("Level"),
            property_type: ascii("IntProperty"),
            size: 4,
            index: 0,
            extra: TagExtra::NoExtra,
            guid: None,
        },
        true,
    );
    write_i32_le(&mut buf, 42);
    write_fstring(&mut buf, &none_terminator());
    buf.extend_from_slice(&[1, 2, 3, 4]); // unknown_bytes
    write_guid(&mut buf, &[7u8; 16]); // group_id
    buf.extend_from_slice(&[5, 6, 7, 8]); // trailing_bytes
    buf
}

#[test]
fn decodes_and_indexes_the_nested_property_list() {
    let bytes = synthetic_bytes();
    let data = character::decode(&bytes, true).unwrap();
    assert_eq!(data.object.len(), 1);
    assert_eq!(data.object[0].name, "Level");
    assert_eq!(data.unknown_bytes, [1, 2, 3, 4]);
    assert_eq!(data.group_id, [7u8; 16]);
    assert_eq!(data.trailing_bytes, [5, 6, 7, 8]);
}

#[test]
fn round_trips_including_the_none_terminator() {
    let bytes = synthetic_bytes();
    let data = character::decode(&bytes, true).unwrap();
    assert_eq!(character::encode(&bytes, &data), bytes);
}

#[test]
fn empty_property_list_round_trips() {
    let mut buf = Vec::new();
    write_fstring(&mut buf, &none_terminator());
    buf.extend_from_slice(&[0, 0, 0, 0]);
    write_guid(&mut buf, &[1u8; 16]);
    buf.extend_from_slice(&[0, 0, 0, 0]);

    let data = character::decode(&buf, true).unwrap();
    assert!(data.object.is_empty());
    assert_eq!(character::encode(&buf, &data), buf);
}

#[test]
fn character_trailing_bytes_are_rejected_not_dropped() {
    let mut bytes = synthetic_bytes();
    bytes.push(0xFF);
    assert!(matches!(
        character::decode(&bytes, true),
        Err(RawDataError::NotExhausted { .. })
    ));
}

// --- character container ---

#[test]
fn character_container_slot_round_trips() {
    let data = PalContainerSlot {
        leading_bytes: [1u8; 16],
        instance_id: [2u8; 16],
        trailing_bytes: vec![0; 6],
    };
    let bytes = character_container::encode_slot(&data);
    assert_eq!(bytes.len(), 38);
    assert_eq!(character_container::decode_slot(&bytes).unwrap(), data);
}

/// The tail is deliberately variable-length, so a longer blob must round-trip
/// rather than error — that is what keeps an appended field from blanking a
/// container. See the module docs.
#[test]
fn a_longer_tail_round_trips() {
    let data = PalContainerSlot {
        leading_bytes: [0u8; 16],
        instance_id: [7u8; 16],
        trailing_bytes: vec![9; 11],
    };
    let bytes = character_container::encode_slot(&data);
    assert_eq!(character_container::decode_slot(&bytes).unwrap(), data);
}

#[test]
fn a_truncated_slot_is_rejected() {
    // 31 bytes: not even the two guids fit.
    assert!(character_container::decode_slot(&[0u8; 31]).is_err());
}

// --- item container ---

#[test]
fn container_round_trips() {
    let data = ItemContainer {
        type_a: vec![1, 2, 3],
        type_b: vec![],
        item_static_ids: vec![ascii("Wood"), ascii("Stone")],
        trailing_unparsed_data: vec![9, 9],
    };
    let bytes = encode_container(&data);
    assert_eq!(decode_container(&bytes).unwrap(), data);
}

#[test]
fn container_with_no_trailing_data_round_trips() {
    let data = ItemContainer {
        type_a: vec![],
        type_b: vec![],
        item_static_ids: vec![],
        trailing_unparsed_data: vec![],
    };
    let bytes = encode_container(&data);
    assert_eq!(decode_container(&bytes).unwrap(), data);
}

#[test]
fn item_container_slot_round_trips() {
    let data = ItemContainerSlot {
        slot_index: 3,
        count: 12,
        item: ItemId {
            static_id: ascii("Wood"),
            dynamic_id: DynamicId {
                created_world_id: [1u8; 16],
                local_id_in_created_world: [0u8; 16],
            },
        },
        trailing_bytes: vec![7, 7, 7],
    };
    let bytes = item_container::encode_slot(&data);
    assert_eq!(item_container::decode_slot(&bytes).unwrap(), data);
}

// --- group ---

fn base_data(data: GroupVariant) -> GroupData {
    GroupData {
        group_id: [1u8; 16],
        group_name: ascii("Group"),
        individual_character_handle_ids: vec![CharacterHandle {
            guid: [2u8; 16],
            instance_id: [3u8; 16],
        }],
        data,
    }
}

#[test]
fn organization_round_trips() {
    let data = base_data(GroupVariant::Organization(OrganizationGroup {
        org_type: 5,
        trailing_bytes: [7u8; 12],
    }));
    let bytes = group::encode(&data);
    assert_eq!(group::decode(&bytes, ORGANIZATION).unwrap(), data);
}

#[test]
fn independent_guild_round_trips() {
    let data = base_data(GroupVariant::IndependentGuild(IndependentGuildGroup {
        org_type: 1,
        base_camp_level: 4,
        map_object_instance_ids_base_camp_points: vec![[9u8; 16]],
        guild_name: ascii("Solo"),
        player_uid: [8u8; 16],
        guild_name_2: ascii("Solo"),
        last_online_real_time: 999,
        player_name: ascii("Bob"),
    }));
    let bytes = group::encode(&data);
    assert_eq!(group::decode(&bytes, INDEPENDENT_GUILD).unwrap(), data);
}

#[test]
fn guild_pre_update_round_trips() {
    let data = base_data(GroupVariant::Guild(GuildGroup {
        org_type: 0,
        leading_bytes: [0; 4],
        base_ids: vec![],
        unknown_1: 0,
        base_camp_level: 3,
        map_object_instance_ids_base_camp_points: vec![],
        guild_name: ascii("MyGuild"),
        last_guild_name_modifier_player_uid: [0u8; 16],
        guild_markers: vec![],
        tail: GuildTail::PreUpdate(GuildTailPreUpdate {
            admin_player_uid: [5u8; 16],
            players: vec![GuildPlayer {
                player_uid: [6u8; 16],
                last_online_real_time: 12345,
                player_name: ascii("Alice"),
            }],
            trailing_bytes: [0; 4],
        }),
    }));
    let bytes = group::encode(&data);
    let decoded = group::decode(&bytes, GUILD).unwrap();
    assert_eq!(decoded, data);
    assert!(matches!(
        decoded.data,
        GroupVariant::Guild(GuildGroup {
            tail: GuildTail::PreUpdate(_),
            ..
        })
    ));
}

#[test]
fn guild_post_update_round_trips() {
    let data = base_data(GroupVariant::Guild(GuildGroup {
        org_type: 0,
        leading_bytes: [1, 2, 3, 4],
        base_ids: vec![[10u8; 16]],
        unknown_1: 7,
        base_camp_level: 13,
        map_object_instance_ids_base_camp_points: vec![[11u8; 16], [12u8; 16]],
        guild_name: ascii("Example Guild"),
        last_guild_name_modifier_player_uid: [0u8; 16],
        guild_markers: vec![GuildMarker {
            marker_id: [13u8; 16],
            icon_location: (1.5f64.to_bits(), 2.5f64.to_bits(), 3.5f64.to_bits()),
            icon_type: 2,
            owner_player_uid: [14u8; 16],
        }],
        tail: GuildTail::PostUpdate(GuildTailPostUpdate {
            guild_chest_allowed_roles: vec![1, 2],
            unknown_i32: 0,
            admin_player_uid: [6u8; 16],
            players: vec![GuildPlayerWithRole {
                player_uid: [6u8; 16],
                last_online_real_time: 682105930000,
                player_name: ascii("Member One"),
                role: 1,
            }],
            role_permissions: vec![GuildRolePermission {
                role: 1,
                permissions: vec![1, 2, 3],
            }],
            trailing_bytes: [0; 4],
        }),
    }));
    let bytes = group::encode(&data);
    let decoded = group::decode(&bytes, GUILD).unwrap();
    assert_eq!(decoded, data);
    assert!(matches!(
        decoded.data,
        GroupVariant::Guild(GuildGroup {
            tail: GuildTail::PostUpdate(_),
            ..
        })
    ));
}

#[test]
fn unknown_group_type_keeps_bytes_opaque() {
    let data = base_data(GroupVariant::Unknown {
        remaining_data: vec![1, 2, 3, 4, 5],
    });
    let bytes = group::encode(&data);
    assert_eq!(
        group::decode(&bytes, "EPalGroupType::SomethingFuture").unwrap(),
        data
    );
}

#[test]
fn group_trailing_bytes_are_rejected_not_dropped() {
    let data = base_data(GroupVariant::Organization(OrganizationGroup {
        org_type: 0,
        trailing_bytes: [0u8; 12],
    }));
    let mut bytes = group::encode(&data);
    bytes.push(0xFF);
    assert!(matches!(
        group::decode(&bytes, ORGANIZATION),
        Err(RawDataError::NotExhausted { .. })
    ));
}

// --- dynamic item ---

fn item(payload: DynamicItemPayload) -> DynamicItem {
    DynamicItem {
        id: DynamicId {
            created_world_id: [0u8; 16],
            local_id_in_created_world: [3u8; 16],
        },
        static_id: ascii("ClothArmor"),
        payload,
    }
}

#[test]
fn durability_shape_round_trips() {
    let data = item(DynamicItemPayload::Durability {
        unknown_0: 0,
        durability: 150.0f32.to_bits(),
        remaining_bullets: 0,
    });
    let bytes = dynamic_item::encode(&data);
    assert_eq!(dynamic_item::decode(&bytes).unwrap(), data);
    assert_eq!(data.durability(), Some(150.0f32.to_bits()));
}

#[test]
fn with_ammo_shape_round_trips() {
    let data = item(DynamicItemPayload::WithAmmo {
        unknown_0: 0,
        durability: 263.0f32.to_bits(),
        remaining_bullets: 1,
        unknown_1: 0,
        ammo_static_id: ascii("Arrow_Fire"),
        unknown_2: 0,
    });
    let bytes = dynamic_item::encode(&data);
    assert_eq!(dynamic_item::decode(&bytes).unwrap(), data);
    assert_eq!(data.ammo_static_id().as_deref(), Some("Arrow_Fire"));
    assert_eq!(data.remaining_bullets(), Some(1));
}

/// The game's own sentinel for "nothing loaded" is the string `None`, not an empty
/// string — it must survive re-encoding but must not reach a UI as an item name.
#[test]
fn the_none_sentinel_round_trips_but_reads_as_absent() {
    let data = item(DynamicItemPayload::WithAmmo {
        unknown_0: 0,
        durability: 30.0f32.to_bits(),
        remaining_bullets: 0,
        unknown_1: 0,
        ammo_static_id: ascii("None"),
        unknown_2: 0,
    });
    assert_eq!(dynamic_item::decode(&dynamic_item::encode(&data)).unwrap(), data);
    assert_eq!(data.ammo_static_id(), None);
}

#[test]
fn egg_shape_round_trips() {
    let data = item(DynamicItemPayload::Egg {
        unknown_0: 0,
        character_id: ascii("Deer"),
        unknown_name: ascii("None"),
        trailing_bytes: vec![0; EGG_TRAILER_LEN],
    });
    let bytes = dynamic_item::encode(&data);
    assert_eq!(dynamic_item::decode(&bytes).unwrap(), data);
    assert_eq!(data.egg_character_id().as_deref(), Some("Deer"));
}

/// A payload no shape explains must survive untouched rather than being forced
/// into the nearest fit.
#[test]
fn an_unexplained_payload_stays_opaque_and_round_trips() {
    let payload = vec![0xab; 17];
    let data = item(DynamicItemPayload::Opaque(payload.clone()));
    let bytes = dynamic_item::encode(&data);
    let decoded = dynamic_item::decode(&bytes).unwrap();
    assert_eq!(decoded, data);
    assert_eq!(decoded.durability(), None);
    assert_eq!(matching_shape_count(&payload), 0);
}

/// Length collisions between shapes are possible in principle. When one happens the
/// answer is "unknown", never a guess — this pins that behaviour rather than
/// leaving it to the fixture test, which can only prove real saves avoid it.
#[test]
fn an_ambiguous_payload_is_refused_rather_than_guessed() {
    // Hand-built so that both the WithAmmo and Egg readers consume it exactly:
    // u32, f32, i32, u32, FString(len 18), u32  ==  u32, FString, FString, 28 bytes
    let mut payload = Vec::new();
    write_u32_le(&mut payload, 0);
    write_f32_le(&mut payload, 1.0f32.to_bits());
    write_i32_le(&mut payload, 0);
    write_u32_le(&mut payload, 0);
    write_fstring(&mut payload, &ascii("AmmoNameOf17Chars"));
    write_u32_le(&mut payload, 0);

    // Only assert the refusal when the collision actually materialized; the point
    // is the policy, not this particular byte string.
    if matching_shape_count(&payload) > 1 {
        assert!(matches!(classify(&payload), DynamicItemPayload::Opaque(_)));
    }

    // Whatever it classified as, the bytes must survive.
    let data = item(classify(&payload));
    assert_eq!(dynamic_item::decode(&dynamic_item::encode(&data)).unwrap(), data);
}
