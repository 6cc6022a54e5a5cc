use palsave::edit::{
    EditError, MapEntryBytes, SpliceSet, byte_array_value, insert_map_entry, map_entry_bytes, remove_map_entry,
    replace_property_value,
};
use palsave::gvas::PropertyEntry;
use palsave::gvas::primitives::{FString, write_fstring, write_u32_le};
use palsave::gvas::property::{
    PropertyTag, TagExtra, none_terminator, size_field_offset, value_offset, write_property_tag,
};
use palsave::gvas::value::map_layout;

#[test]
fn apply_splices_in_source_order() {
    let source = b"hello world".to_vec();
    let mut set = SpliceSet::new();
    // Deliberately out of order — apply() sorts.
    set.replace(6..11, b"there".to_vec());
    set.replace(0..5, b"HI".to_vec());
    assert_eq!(set.apply(&source).unwrap(), b"HI there".to_vec());
}

#[test]
fn apply_with_no_splices_is_the_identity() {
    let source = b"unchanged".to_vec();
    assert_eq!(SpliceSet::new().apply(&source).unwrap(), source);
}

#[test]
fn overlapping_splices_are_rejected() {
    let source = b"hello world".to_vec();
    let mut set = SpliceSet::new();
    set.replace(0..6, b"a".to_vec());
    set.replace(3..8, b"b".to_vec());
    assert!(matches!(
        set.apply(&source),
        Err(EditError::OverlappingSplices { .. })
    ));
}

#[test]
fn out_of_bounds_splice_is_rejected() {
    let source = b"short".to_vec();
    let mut set = SpliceSet::new();
    set.replace(0..99, b"x".to_vec());
    assert!(matches!(
        set.apply(&source),
        Err(EditError::SpliceOutOfBounds { .. })
    ));
}

#[test]
fn byte_array_value_prefixes_the_count() {
    assert_eq!(byte_array_value(&[7, 8, 9]), vec![3, 0, 0, 0, 7, 8, 9]);
    assert_eq!(byte_array_value(&[]), vec![0, 0, 0, 0]);
}

#[test]
fn empty_chain_is_rejected() {
    assert!(matches!(
        replace_property_value(b"", &[], vec![], true),
        Err(EditError::EmptyChain)
    ));
}

#[test]
fn non_nested_chain_is_rejected() {
    let outer = PropertyEntry {
        name: "a".into(),
        property_type: "IntProperty".into(),
        span: 0..10,
    };
    let sibling = PropertyEntry {
        name: "b".into(),
        property_type: "IntProperty".into(),
        span: 20..30,
    };
    let err =
        replace_property_value(&[0u8; 64], &[&outer, &sibling], vec![], true).unwrap_err();
    assert!(matches!(err, EditError::NotNested { .. }));
}

/// A map whose entries are bare guids, built by hand so these run without fixtures.
/// `hints` has no entry for this path, so the default applies: Guid keys, generic
/// struct values — and an empty property list is just a `None` terminator.
fn guid_map(entries: &[[u8; 16]]) -> (Vec<u8>, PropertyEntry) {
    let mut value = Vec::new();
    write_u32_le(&mut value, 0); // no pending key removals
    write_u32_le(&mut value, entries.len() as u32);
    for key in entries {
        value.extend_from_slice(key);
        write_fstring(&mut value, &none_terminator()); // empty value struct
    }

    let mut buf = Vec::new();
    write_property_tag(
        &mut buf,
        &PropertyTag {
            name: ascii_fstring("M"),
            property_type: ascii_fstring("MapProperty"),
            size: value.len() as u32,
            index: 0,
            extra: TagExtra::MapOf {
                key_type: ascii_fstring("StructProperty"),
                value_type: ascii_fstring("StructProperty"),
            },
            guid: None,
        },
        true,
    );
    let span_start = 0;
    buf.extend_from_slice(&value);
    let entry = PropertyEntry {
        name: "M".into(),
        property_type: "MapProperty".into(),
        span: span_start..buf.len(),
    };
    (buf, entry)
}

fn ascii_fstring(s: &str) -> FString {
    FString::Ascii {
        content: s.as_bytes().to_vec(),
        trailing: vec![0],
    }
}

#[test]
fn map_entry_bytes_slices_at_entry_boundaries() {
    let (buf, map) = guid_map(&[[1u8; 16], [2u8; 16]]);
    let second = map_entry_bytes(&buf, &map, 1, 5, true, "M").unwrap();
    assert_eq!(&second.0[..16], &[2u8; 16]);

    let err = map_entry_bytes(&buf, &map, 2, 5, true, "M").unwrap_err();
    assert!(matches!(
        err,
        EditError::MapEntryOutOfRange { index: 2, count: 2 }
    ));
}

#[test]
fn insert_then_remove_round_trips_on_a_hand_built_map() {
    let (buf, map) = guid_map(&[[1u8; 16], [2u8; 16]]);
    let chain = [&map];

    let entry = MapEntryBytes({
        let mut v = [3u8; 16].to_vec();
        write_fstring(&mut v, &none_terminator());
        v
    });

    let bigger = insert_map_entry(&buf, &chain, &entry, 5, true, "M")
        .unwrap()
        .apply(&buf)
        .unwrap();
    assert_eq!(bigger.len(), buf.len() + entry.0.len());

    let bigger_map = PropertyEntry {
        span: map.span.start..map.span.end + entry.0.len(),
        ..map.clone()
    };
    let layout = map_layout(&bigger, &bigger_map, 5, true, "M").unwrap();
    assert_eq!(layout.entries.len(), 3);

    let restored = remove_map_entry(&bigger, &[&bigger_map], 2, 5, true, "M")
        .unwrap()
        .apply(&bigger)
        .unwrap();
    assert_eq!(restored, buf);
}

/// Removing from the middle has to shift the tail, which is the case an
/// append-only implementation would get wrong.
#[test]
fn removing_a_middle_entry_keeps_the_others_in_order() {
    let (buf, map) = guid_map(&[[1u8; 16], [2u8; 16], [3u8; 16]]);
    // Take the removed entry's length from the layout rather than recomputing it —
    // the test should not carry its own model of how wide an entry is.
    let removed_len = map_layout(&buf, &map, 5, true, "M").unwrap().entries[1].len();

    let smaller = remove_map_entry(&buf, &[&map], 1, 5, true, "M")
        .unwrap()
        .apply(&buf)
        .unwrap();

    let smaller_map = PropertyEntry {
        span: map.span.start..map.span.end - removed_len,
        ..map.clone()
    };
    let layout = map_layout(&smaller, &smaller_map, 5, true, "M").unwrap();
    assert_eq!(layout.entries.len(), 2);
    assert_eq!(&smaller[layout.entries[0].start..][..16], &[1u8; 16]);
    assert_eq!(&smaller[layout.entries[1].start..][..16], &[3u8; 16]);
}

#[test]
fn a_map_with_pending_key_removals_is_refused() {
    let (mut buf, map) = guid_map(&[[1u8; 16]]);
    // Flip removed_count to 1 without adding the key it implies. The point is the
    // refusal, which must happen before anything is written.
    let value_start = value_offset(&buf, map.span.start, true).unwrap();
    buf[value_start..value_start + 4].copy_from_slice(&1u32.to_le_bytes());

    let err =
        insert_map_entry(&buf, &[&map], &MapEntryBytes(vec![0; 4]), 5, true, "M").unwrap_err();
    assert!(matches!(err, EditError::MapHasRemovedKeys { count: 1 }));
}

#[test]
fn splices_at_the_same_start_keep_their_insertion_order() {
    let source = b"abc".to_vec();
    let mut set = SpliceSet::new();
    set.replace(1..1, b"X".to_vec());
    set.replace(1..1, b"Y".to_vec());
    assert_eq!(set.apply(&source).unwrap(), b"aXYbc".to_vec());
}

#[test]
fn a_replacement_of_equal_length_needs_no_size_fixup() {
    let (buf, map) = guid_map(&[[1u8; 16]]);
    let value_start = value_offset(&buf, map.span.start, true).unwrap();
    let old_value = buf[value_start..map.span.end].to_vec();
    let mut new_value = old_value.clone();
    new_value[8] = 0xEE;
    let edited = replace_property_value(&buf, &[&map], new_value.clone(), true).unwrap().apply(&buf).unwrap();
    assert_eq!(edited.len(), buf.len());
    assert_eq!(&edited[..value_start], &buf[..value_start]);
    assert_eq!(&edited[value_start..], &new_value[..]);
}

#[test]
fn merging_applies_as_replaying_each_replacement() {
    let source = b"abcdefghij".to_vec();
    let mut a = SpliceSet::new();
    a.replace(1..2, b"X".to_vec());
    let mut b = SpliceSet::new();
    b.replace(5..7, b"YYY".to_vec());
    b.replace(8..8, b"Z".to_vec());
    let mut replayed = SpliceSet::new();
    replayed.replace(1..2, b"X".to_vec());
    replayed.replace(5..7, b"YYY".to_vec());
    replayed.replace(8..8, b"Z".to_vec());
    a.merge(b);
    assert!(!a.is_empty());
    let replayed_out = replayed.apply(&source).unwrap();
    assert_eq!(a.apply(&source).unwrap(), replayed_out);
    assert_eq!(replayed_out, b"aXcdeYYYhZij".to_vec());
}

#[test]
fn inserting_an_entry_patches_count_and_size_and_keeps_the_rest() {
    let (buf, map) = guid_map(&[[1u8; 16]]);
    let chain = [&map];
    let entry = MapEntryBytes({
        let mut v = [3u8; 16].to_vec();
        write_fstring(&mut v, &none_terminator());
        v
    });
    let out = insert_map_entry(&buf, &chain, &entry, 5, true, "M").unwrap().apply(&buf).unwrap();
    let layout = map_layout(&buf, &map, 5, true, "M").unwrap();
    let co = layout.entry_count_offset;
    let size = size_field_offset(&buf, map.span.start).unwrap();
    let old_size = u32::from_le_bytes([buf[size], buf[size + 1], buf[size + 2], buf[size + 3]]);
    assert_eq!(&out[..size], &buf[..size]);
    assert_eq!(&out[size..size + 4], &(old_size + entry.0.len() as u32).to_le_bytes());
    assert_eq!(&out[size + 4..co], &buf[size + 4..co]);
    assert_eq!(&out[co..co + 4], &2u32.to_le_bytes());
    assert_eq!(&out[co + 4..map.span.end], &buf[co + 4..map.span.end]);
    assert_eq!(&out[map.span.end..map.span.end + entry.0.len()], &entry.0[..]);
    assert_eq!(out.len(), buf.len() + entry.0.len());
}

#[test]
fn replacing_a_value_rewrites_it_and_patches_the_size_field() {
    let (buf, map) = guid_map(&[[1u8; 16]]);
    let vs = value_offset(&buf, map.span.start, true).unwrap();
    let new_value = vec![7u8; 3];
    let out = replace_property_value(&buf, &[&map], new_value.clone(), true).unwrap().apply(&buf).unwrap();
    let size = size_field_offset(&buf, map.span.start).unwrap();
    let old_size = u32::from_le_bytes([buf[size], buf[size + 1], buf[size + 2], buf[size + 3]]);
    let delta = new_value.len() as i64 - (map.span.end - vs) as i64;
    assert_eq!(&out[..size], &buf[..size]);
    assert_eq!(&out[size..size + 4], &((old_size as i64 + delta) as u32).to_le_bytes());
    assert_eq!(&out[size + 4..vs], &buf[size + 4..vs]);
    assert_eq!(&out[vs..vs + 3], &new_value[..]);
    assert_eq!(&out[vs + 3..], &buf[map.span.end..]);
    assert_eq!(out.len() as i64, buf.len() as i64 + delta);
}

#[test]
fn a_buffer_that_does_not_parse_reports_the_parser_error() {
    match palsave::edit::verify_reparses(&[1, 2]) {
        Err(EditError::Gvas(palsave::gvas::GvasError::UnexpectedEof { need, at, have })) => {
            assert_eq!((need, at, have), (4, 0, 2));
        },
        other => panic!("unexpected: {other:?}"),
    }
}

#[test]
fn removing_an_entry_patches_count_and_size_and_keeps_the_rest() {
    let (buf, map) = guid_map(&[[1u8; 16], [2u8; 16]]);
    let layout = map_layout(&buf, &map, 5, true, "M").unwrap();
    let co = layout.entry_count_offset;
    let lo = layout.entries[0].start;
    let hi = layout.entries[0].end;
    let out = remove_map_entry(&buf, &[&map], 0, 5, true, "M").unwrap().apply(&buf).unwrap();
    let size = size_field_offset(&buf, map.span.start).unwrap();
    let old_size = u32::from_le_bytes([buf[size], buf[size + 1], buf[size + 2], buf[size + 3]]);
    assert_eq!(&out[..size], &buf[..size]);
    assert_eq!(&out[size..size + 4], &(old_size - (hi - lo) as u32).to_le_bytes());
    assert_eq!(&out[size + 4..co], &buf[size + 4..co]);
    assert_eq!(&out[co..co + 4], &1u32.to_le_bytes());
    assert_eq!(&out[co + 4..lo], &buf[co + 4..lo]);
    assert_eq!(&out[lo..], &buf[hi..]);
    assert_eq!(out.len(), buf.len() - (hi - lo));
}
