use palsave::gvas::PropertyEntry;
use palsave::gvas::primitives::{FString, Guid, write_fstring, write_guid, write_i32_le, write_u32_le};
use palsave::gvas::property::{PropertyTag, TagExtra, none_terminator, write_property_tag};
use palsave::gvas::value::{StructValue, Value, materialize_property};

fn ascii(s: &str) -> FString {
    FString::Ascii { content: s.as_bytes().to_vec(), trailing: vec![0] }
}

fn materialize_one(tag: PropertyTag, value_bytes: &[u8]) -> Value {
    let mut buf = Vec::new();
    write_property_tag(&mut buf, &tag, true);
    let tag_end = buf.len();
    buf.extend_from_slice(value_bytes);

    let entry = PropertyEntry {
        name: tag.name.display_lossy(),
        property_type: tag.property_type.display_lossy(),
        span: 0..tag_end + value_bytes.len(),
    };
    materialize_property(&buf, &entry, 5, true, &entry.name).unwrap()
}

#[test]
fn materializes_int() {
    let tag = PropertyTag {
        name: ascii("Level"),
        property_type: ascii("IntProperty"),
        size: 4,
        index: 0,
        extra: TagExtra::NoExtra,
        guid: None,
    };
    let mut value_bytes = Vec::new();
    write_i32_le(&mut value_bytes, 42);
    assert_eq!(materialize_one(tag, &value_bytes), Value::Int(42));
}

#[test]
fn materializes_bool_from_tag_not_value_bytes() {
    let tag = PropertyTag {
        name: ascii("bActive"),
        property_type: ascii("BoolProperty"),
        size: 0,
        index: 0,
        extra: TagExtra::Bool(true),
        guid: None,
    };
    assert_eq!(materialize_one(tag, &[]), Value::Bool(true));
}

#[test]
fn materializes_byte_as_raw_number_when_enum_type_is_none() {
    let tag = PropertyTag {
        name: ascii("Flags"),
        property_type: ascii("ByteProperty"),
        size: 1,
        index: 0,
        extra: TagExtra::Byte {
            enum_type: ascii("None"),
        },
        guid: None,
    };
    assert_eq!(materialize_one(tag, &[7]), Value::Byte(7));
}

#[test]
fn materializes_generic_struct_as_nested_property_list() {
    let mut inner = Vec::new();
    write_property_tag(
        &mut inner,
        &PropertyTag {
            name: ascii("InGameDay"),
            property_type: ascii("IntProperty"),
            size: 4,
            index: 0,
            extra: TagExtra::NoExtra,
            guid: None,
        },
        true,
    );
    write_i32_le(&mut inner, 12);
    write_fstring(&mut inner, &none_terminator());

    let tag = PropertyTag {
        name: ascii("SaveData"),
        property_type: ascii("StructProperty"),
        size: inner.len() as u32,
        index: 0,
        extra: TagExtra::Struct {
            struct_type: ascii("SaveDataStruct"),
            guid: [0u8; 16],
        },
        guid: None,
    };

    let value = materialize_one(tag, &inner);
    let Value::Struct(StructValue::Properties(props)) = value else {
        panic!("expected nested properties")
    };
    assert_eq!(props.len(), 1);
    assert_eq!(props[0].name, "InGameDay");
    assert_eq!(props[0].property_type, "IntProperty");
}

#[test]
fn materializes_guid_struct() {
    let mut value_bytes = Vec::new();
    let guid: Guid = [9u8; 16];
    write_guid(&mut value_bytes, &guid);

    let tag = PropertyTag {
        name: ascii("Id"),
        property_type: ascii("StructProperty"),
        size: 16,
        index: 0,
        extra: TagExtra::Struct {
            struct_type: ascii("Guid"),
            guid: [0u8; 16],
        },
        guid: None,
    };
    assert_eq!(
        materialize_one(tag, &value_bytes),
        Value::Struct(StructValue::Guid(guid))
    );
}

#[test]
fn materializes_byte_array_as_raw_bytes() {
    let mut value_bytes = Vec::new();
    write_u32_le(&mut value_bytes, 3); // count
    value_bytes.extend_from_slice(&[1, 2, 3]);

    let tag = PropertyTag {
        name: ascii("RawData"),
        property_type: ascii("ArrayProperty"),
        size: value_bytes.len() as u32,
        index: 0,
        extra: TagExtra::Array {
            inner_type: ascii("ByteProperty"),
        },
        guid: None,
    };
    assert_eq!(
        materialize_one(tag, &value_bytes),
        Value::Bytes(vec![1, 2, 3])
    );
}

/// Regression: a zero-length array of structs still carries its inner element
/// tag on the wire, and that tag's bytes must be consumed. 35 of the 1488 real
/// `ItemContainerSaveData.Slots` arrays in fixtures/Level.sav look exactly like
/// this; returning early on count == 0 left the tag unread and the whole
/// property fell back to `Value::Raw`.
#[test]
fn materializes_empty_struct_array_including_its_inner_tag() {
    let mut value_bytes = Vec::new();
    write_u32_le(&mut value_bytes, 0); // count == 0
    write_property_tag(
        &mut value_bytes,
        &PropertyTag {
            name: ascii("Slots"),
            property_type: ascii("StructProperty"),
            size: 0,
            index: 0,
            extra: TagExtra::Struct {
                struct_type: ascii("PalItemSlotSaveData"),
                guid: [0u8; 16],
            },
            guid: None,
        },
        true,
    );

    let tag = PropertyTag {
        name: ascii("Slots"),
        property_type: ascii("ArrayProperty"),
        size: value_bytes.len() as u32,
        index: 0,
        extra: TagExtra::Array {
            inner_type: ascii("StructProperty"),
        },
        guid: None,
    };
    assert_eq!(materialize_one(tag, &value_bytes), Value::Array(vec![]));
}

#[test]
fn materializes_map_with_guid_keys() {
    let mut value_bytes = Vec::new();
    write_u32_le(&mut value_bytes, 0); // removed_count
    write_u32_le(&mut value_bytes, 1); // entry_count
    let key: Guid = [3u8; 16];
    write_guid(&mut value_bytes, &key);
    write_i32_le(&mut value_bytes, 99); // Int value

    let tag = PropertyTag {
        name: ascii("Scores"),
        property_type: ascii("MapProperty"),
        size: value_bytes.len() as u32,
        index: 0,
        extra: TagExtra::MapOf {
            key_type: ascii("StructProperty"),
            value_type: ascii("IntProperty"),
        },
        guid: None,
    };

    let value = materialize_one(tag, &value_bytes);
    let Value::MapEntries(entries) = value else {
        panic!("expected a map")
    };
    assert_eq!(
        entries,
        vec![(Value::Struct(StructValue::Guid(key)), Value::Int(99))]
    );
}

#[test]
fn falls_back_to_raw_on_unknown_type_instead_of_erroring() {
    let tag = PropertyTag {
        name: ascii("Weird"),
        property_type: ascii("ObjectProperty"), // not in our closed set
        size: 4,
        index: 0,
        extra: TagExtra::NoExtra,
        guid: None,
    };
    let value_bytes = [0xDE, 0xAD, 0xBE, 0xEF];
    assert_eq!(
        materialize_one(tag, &value_bytes),
        Value::Raw(value_bytes.to_vec())
    );
}
