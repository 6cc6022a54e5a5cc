use palsave::gvas::header::{CustomFormatEntry, GVAS_MAGIC, Header};
use palsave::gvas::nav::{Cursor, find, guid_to_hex, hex_to_guid};
use palsave::gvas::primitives::{
    FString, Guid, read_fstring, read_guid, read_optional_guid, write_fstring, write_guid, write_i32_le,
    write_optional_guid, write_u16_le, write_u32_le,
};
use palsave::gvas::property::{PropertyTag, TagExtra, none_terminator, read_property_tag, write_property_tag};
use palsave::gvas::{GvasError, GvasFile, PropertyEntry};

fn ascii(s: &str) -> FString {
    FString::Ascii { content: s.as_bytes().to_vec(), trailing: vec![0] }
}

// --- primitives ---------------------------------------------------------------

fn round_trip(s: &FString) -> FString {
    let mut buf = Vec::new();
    write_fstring(&mut buf, s);
    let mut pos = 0;
    read_fstring(&buf, &mut pos).unwrap()
}

#[test]
fn empty_round_trips() {
    assert_eq!(round_trip(&FString::Empty), FString::Empty);
}

#[test]
fn ascii_round_trips() {
    let s = FString::Ascii { content: b"IntProperty".to_vec(), trailing: vec![0] };
    assert_eq!(round_trip(&s), s);
    assert_eq!(s.ascii_str(), Some("IntProperty"));
}

#[test]
fn utf16_round_trips() {
    let content: Vec<u16> = "guild-\u{540d}\u{524d}".encode_utf16().collect();
    let s = FString::Utf16 { content, trailing: vec![0, 0] };
    assert_eq!(round_trip(&s), s);
}

#[test]
fn ascii_without_terminator_round_trips() {
    let s = FString::Ascii { content: b"abc".to_vec(), trailing: vec![] };
    assert_eq!(round_trip(&s), s);
}

#[test]
fn guid_round_trips() {
    let g: Guid = [1, 2, 3, 4, 5, 6, 7, 8, 9, 10, 11, 12, 13, 14, 15, 16];
    let mut buf = Vec::new();
    write_guid(&mut buf, &g);
    let mut pos = 0;
    assert_eq!(read_guid(&buf, &mut pos).unwrap(), g);
    assert_eq!(pos, 16);
}

#[test]
fn optional_guid_round_trips_both_states() {
    for value in [None, Some([9u8; 16])] {
        let mut buf = Vec::new();
        write_optional_guid(&mut buf, &value);
        let mut pos = 0;
        assert_eq!(read_optional_guid(&buf, &mut pos).unwrap(), value);
    }
}

#[test]
fn a_utf16_string_reads_back_its_exact_bytes() {
    // The length field counts code units and is negative for the UTF-16 form.
    let s = FString::Utf16 { content: vec![0x41, 0x540d], trailing: vec![0, 0] };
    let mut buf = Vec::new();
    write_fstring(&mut buf, &s);
    assert_eq!(buf, vec![0xfd, 0xff, 0xff, 0xff, 0x41, 0x00, 0x0d, 0x54, 0x00, 0x00]);
    let mut pos = 0;
    assert_eq!(read_fstring(&buf, &mut pos).unwrap(), s);
    assert_eq!(pos, buf.len());
}

#[test]
fn a_truncated_fstring_is_an_eof_error() {
    let buf = vec![5u8, 0, 0, 0, b'a', b'b'];
    let mut pos = 0;
    assert!(matches!(read_fstring(&buf, &mut pos), Err(GvasError::UnexpectedEof { .. })));
}

// --- header -------------------------------------------------------------------

fn synthetic_header_bytes(engine_major: u16, engine_minor: u16) -> Vec<u8> {
    let mut buf = Vec::new();
    write_u32_le(&mut buf, GVAS_MAGIC);
    write_u32_le(&mut buf, 3);
    write_u32_le(&mut buf, 522);
    write_u32_le(&mut buf, 1007);
    write_u16_le(&mut buf, engine_major);
    write_u16_le(&mut buf, engine_minor);
    write_u16_le(&mut buf, 1);
    write_u32_le(&mut buf, 12345);
    write_i32_le(&mut buf, 0);
    if (engine_major, engine_minor) >= (4, 12) {
        write_u32_le(&mut buf, 1);
        write_u32_le(&mut buf, 1);
        write_guid(&mut buf, &[7u8; 16]);
        write_i32_le(&mut buf, 42);
    }
    buf
}

#[test]
fn header_round_trips() {
    let bytes = synthetic_header_bytes(5, 1);
    let mut pos = 0;
    let header = Header::read(&bytes, &mut pos).expect("read");
    assert_eq!(pos, bytes.len());
    assert_eq!(header.magic, GVAS_MAGIC);
    assert!(!header.uses_new_property_tag_format());
    assert!(header.has_property_guid());

    let mut out = Vec::new();
    header.write(&mut out);
    assert_eq!(out, bytes);
}

#[test]
fn pre_412_header_has_no_custom_version() {
    let bytes = synthetic_header_bytes(4, 0);
    let mut pos = 0;
    let header = Header::read(&bytes, &mut pos).expect("read");
    assert_eq!(pos, bytes.len());
    assert!(header.custom_version.is_none());

    let mut out = Vec::new();
    header.write(&mut out);
    assert_eq!(out, bytes);
}

#[test]
fn engine_54_plus_flags_new_tag_format() {
    let bytes = synthetic_header_bytes(5, 4);
    let mut pos = 0;
    let header = Header::read(&bytes, &mut pos).expect("read");
    assert!(header.uses_new_property_tag_format());
}

#[test]
fn header_fields_read_back_as_written() {
    let bytes = synthetic_header_bytes(5, 1);
    let mut pos = 0;
    let header = Header::read(&bytes, &mut pos).expect("read");
    assert_eq!(header.save_game_version, 3);
    assert_eq!(header.package_version_ue4, 522);
    assert_eq!(header.package_version_ue5, Some(1007));
    assert_eq!(header.engine_version_major, 5);
    assert_eq!(header.engine_version_minor, 1);
    assert_eq!(header.engine_version_build, 12345);
    assert_eq!(header.custom_version, Some((1, vec![CustomFormatEntry { id: [7u8; 16], value: 42 }])));
}

// --- property tags -------------------------------------------------------------

fn tag_round_trip(tag: &PropertyTag, has_property_guid: bool) -> PropertyTag {
    let mut buf = Vec::new();
    write_property_tag(&mut buf, tag, has_property_guid);
    let mut pos = 0;
    read_property_tag(&buf, &mut pos, has_property_guid).unwrap().unwrap()
}

#[test]
fn none_terminator_is_recognized() {
    let mut buf = Vec::new();
    write_fstring(&mut buf, &none_terminator());
    let mut pos = 0;
    assert!(read_property_tag(&buf, &mut pos, true).unwrap().is_none());
}

#[test]
fn int_property_round_trips() {
    let tag = PropertyTag {
        name: ascii("Level"),
        property_type: ascii("IntProperty"),
        size: 4,
        index: 0,
        extra: TagExtra::NoExtra,
        guid: None,
    };
    assert_eq!(tag_round_trip(&tag, true), tag);
}

#[test]
fn bool_property_round_trips() {
    let tag = PropertyTag {
        name: ascii("bIsActive"),
        property_type: ascii("BoolProperty"),
        size: 0,
        index: 0,
        extra: TagExtra::Bool(true),
        guid: None,
    };
    assert_eq!(tag_round_trip(&tag, true), tag);
}

#[test]
fn struct_property_round_trips_with_guid() {
    let tag = PropertyTag {
        name: ascii("Location"),
        property_type: ascii("StructProperty"),
        size: 24,
        index: 0,
        extra: TagExtra::Struct { struct_type: ascii("Vector"), guid: [0u8; 16] },
        guid: Some([1u8; 16]),
    };
    assert_eq!(tag_round_trip(&tag, true), tag);
}

#[test]
fn map_property_round_trips() {
    let tag = PropertyTag {
        name: ascii("GroupSaveDataMap"),
        property_type: ascii("MapProperty"),
        size: 100,
        index: 0,
        extra: TagExtra::MapOf { key_type: ascii("StructProperty"), value_type: ascii("StructProperty") },
        guid: None,
    };
    assert_eq!(tag_round_trip(&tag, true), tag);
}

#[test]
fn pre_412_header_omits_property_guid_field() {
    let tag = PropertyTag {
        name: ascii("Level"),
        property_type: ascii("IntProperty"),
        size: 4,
        index: 0,
        extra: TagExtra::NoExtra,
        guid: None,
    };
    assert_eq!(tag_round_trip(&tag, false), tag);
}

// --- whole files ---------------------------------------------------------------

fn synthetic_gvas() -> Vec<u8> {
    let mut buf = Vec::new();
    write_u32_le(&mut buf, GVAS_MAGIC);
    write_u32_le(&mut buf, 3);
    write_u32_le(&mut buf, 522);
    write_u32_le(&mut buf, 1007);
    write_u16_le(&mut buf, 5);
    write_u16_le(&mut buf, 1);
    write_u16_le(&mut buf, 0);
    write_u32_le(&mut buf, 0);
    write_fstring(&mut buf, &FString::Empty);
    write_u32_le(&mut buf, 1);
    write_u32_le(&mut buf, 0);

    write_fstring(&mut buf, &ascii("PalworldSaveGame"));

    write_property_tag(
        &mut buf,
        &PropertyTag {
            name: ascii("Level"),
            property_type: ascii("IntProperty"),
            size: 4,
            index: 0,
            extra: TagExtra::NoExtra,
            guid: None,
        },
        true,
    );
    write_i32_le(&mut buf, 42);

    write_property_tag(
        &mut buf,
        &PropertyTag {
            name: ascii("bIsActive"),
            property_type: ascii("BoolProperty"),
            size: 0,
            index: 0,
            extra: TagExtra::Bool(true),
            guid: None,
        },
        true,
    );

    let struct_value = b"\x01\x02\x03\x04\x05\x06\x07\x08".to_vec();
    write_property_tag(
        &mut buf,
        &PropertyTag {
            name: ascii("Location"),
            property_type: ascii("StructProperty"),
            size: struct_value.len() as u32,
            index: 0,
            extra: TagExtra::Struct { struct_type: ascii("Vector"), guid: [0u8; 16] },
            guid: None,
        },
        true,
    );
    buf.extend_from_slice(&struct_value);

    write_fstring(&mut buf, &none_terminator());
    buf.extend_from_slice(b"\xAA\xBB\xCC");
    buf
}

#[test]
fn parses_and_indexes_without_decoding_values() {
    let bytes = synthetic_gvas();
    let file = GvasFile::parse(&bytes).expect("parse");

    assert_eq!(file.save_game_type, "PalworldSaveGame");
    assert_eq!(file.properties.len(), 3);
    assert_eq!(file.properties[0].name, "Level");
    assert_eq!(file.properties[0].property_type, "IntProperty");
    assert_eq!(file.properties[1].name, "bIsActive");
    assert_eq!(file.properties[2].name, "Location");
    assert_eq!(file.properties[2].property_type, "StructProperty");
}

#[test]
fn write_is_byte_identical_to_source() {
    let bytes = synthetic_gvas();
    let file = GvasFile::parse(&bytes).expect("parse");
    assert_eq!(file.write(), bytes);
}

#[test]
fn spans_exactly_partition_the_buffer() {
    let bytes = synthetic_gvas();
    let file = GvasFile::parse(&bytes).expect("parse");

    let mut cursor = 0usize;
    assert_eq!(file.header_span.start, cursor);
    cursor = file.header_span.end;
    assert_eq!(file.save_game_type_span.start, cursor);
    cursor = file.save_game_type_span.end;
    for p in &file.properties {
        assert_eq!(p.span.start, cursor);
        cursor = p.span.end;
    }
    assert_eq!(file.none_span.start, cursor);
    cursor = file.none_span.end;
    assert_eq!(file.trailing_span.start, cursor);
    assert_eq!(file.trailing_span.end, bytes.len());
}

#[test]
fn engine_54_plus_is_rejected_not_misparsed() {
    let mut buf = Vec::new();
    write_u32_le(&mut buf, GVAS_MAGIC);
    write_u32_le(&mut buf, 3);
    write_u32_le(&mut buf, 522);
    write_u32_le(&mut buf, 1007);
    write_u16_le(&mut buf, 5);
    write_u16_le(&mut buf, 4);
    write_u16_le(&mut buf, 0);
    write_u32_le(&mut buf, 0);
    write_fstring(&mut buf, &FString::Empty);
    write_u32_le(&mut buf, 1);
    write_u32_le(&mut buf, 0);

    let err = GvasFile::parse(&buf).unwrap_err();
    assert!(matches!(err, GvasError::UnsupportedPropertyTagFormat { engine_major: 5, engine_minor: 4 }));
}

#[test]
fn truncated_value_is_an_error_not_a_panic() {
    let mut bytes = synthetic_gvas();
    bytes.truncate(bytes.len() - 15);
    assert!(GvasFile::parse(&bytes).is_err());
}

// --- navigation ----------------------------------------------------------------

fn entry(name: &str) -> PropertyEntry {
    PropertyEntry { name: name.to_string(), property_type: "IntProperty".to_string(), span: 0..0 }
}

fn bare_header() -> Header {
    Header {
        magic: 0,
        save_game_version: 3,
        package_version_ue4: 0,
        package_version_ue5: None,
        engine_version_major: 5,
        engine_version_minor: 1,
        engine_version_patch: 1,
        engine_version_build: 0,
        engine_version_branch: FString::Empty,
        custom_version: None,
    }
}

#[test]
fn find_matches_by_name() {
    let props = vec![entry("A"), entry("B")];
    assert_eq!(find(&props, "B").map(|p| p.name.as_str()), Some("B"));
    assert!(find(&props, "missing").is_none());
}

#[test]
fn child_path_builds_dotted_paths_from_the_root() {
    let header = bare_header();
    let cursor = Cursor::new(&[], &header);
    assert_eq!(cursor.child_path("worldSaveData"), "worldSaveData");

    let nested = cursor.rebase(&[], "worldSaveData.GroupSaveDataMap");
    assert_eq!(nested.child_path("RawData"), "worldSaveData.GroupSaveDataMap.RawData");
}

#[test]
fn rebase_carries_decode_parameters_but_swaps_the_buffer() {
    let header = bare_header();
    let save = [1u8, 2, 3];
    let blob = [9u8, 9];
    let cursor = Cursor::new(&save, &header);
    let rebased = cursor.rebase(&blob, "x");

    assert_eq!(rebased.source(), &blob);
    assert_eq!(rebased.engine_major(), cursor.engine_major());
    assert_eq!(rebased.has_property_guid(), cursor.has_property_guid());
}

#[test]
fn nav_guid_hex_round_trips() {
    let guid: Guid = [
        0x00, 0x11, 0x22, 0x33, 0x44, 0x55, 0x66, 0x77, 0x88, 0x99, 0xaa, 0xbb, 0xcc, 0xdd, 0xee, 0xff,
    ];
    let hex = guid_to_hex(&guid);
    assert_eq!(hex, "3322110077665544bbaa9988ffeeddcc");
    assert_eq!(hex_to_guid(&hex), Some(guid));
}

#[test]
fn guid_hex_matches_palworld_player_file_naming() {
    let mut player_uid: Guid = [0u8; 16];
    player_uid[12] = 0x01;
    assert_eq!(guid_to_hex(&player_uid), "00000000000000000000000000000001");
}

#[test]
fn nav_malformed_hex_is_rejected() {
    assert_eq!(hex_to_guid("too short"), None);
    assert_eq!(hex_to_guid(&"z".repeat(32)), None);
}

#[test]
fn nav_hex_accepts_uppercase_digits() {
    assert_eq!(
        hex_to_guid("3322110077665544BBAA9988FFEEDDCC"),
        Some([0x00, 0x11, 0x22, 0x33, 0x44, 0x55, 0x66, 0x77, 0x88, 0x99, 0xaa, 0xbb, 0xcc, 0xdd, 0xee, 0xff])
    );
}

#[test]
fn nav_hex_reads_back_lowercased() {
    let upper = "3322110077665544BBAA9988FFEEDDCC";
    let g = hex_to_guid(upper).unwrap();
    assert_eq!(guid_to_hex(&g), upper.to_ascii_lowercase());
    assert_eq!(hex_to_guid(&"0".repeat(31)), None);
    assert_eq!(hex_to_guid("3322110077665544BBAA9988FFEEDDCG"), None);
}
