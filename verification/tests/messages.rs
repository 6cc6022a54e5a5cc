use palsave::characters::CharacterError;
use palsave::container::ContainerError;
use palsave::edit::error::EditError;
use palsave::guilds::GuildError;
use palsave::gvas::error::GvasError;
use palsave::inventory::InventoryError;
use palsave::migrate::MigrateError;
use palsave::rawdata::error::RawDataError;
use palsave::world::WorldError;

fn oodle(payload: &[u8], len: usize) -> Result<Vec<u8>, oozextract::OozError> {
    let mut out = vec![0u8; len];
    let n = oozextract::Extractor::new().read_from_slice(payload, &mut out)?;
    out.truncate(n);
    Ok(out)
}

#[test]
fn gvas_eof_message_names_offsets() {
    let e = GvasError::UnexpectedEof { need: 4, at: 10, have: 2 };
    assert_eq!(e.message(), "unexpected EOF at offset 10: need 4 more bytes, have 2");
}

#[test]
fn raw_data_not_exhausted_message() {
    let e = RawDataError::NotExhausted { consumed: 12, total: 40 };
    assert_eq!(e.message(), "decoder consumed 12 of 40 bytes, expected exactly 40");
}

#[test]
fn edit_messages_print_ranges_and_signed_deltas() {
    let e = EditError::NotNested { outer: 3..9, inner: 2..12 };
    assert_eq!(
        e.message(),
        "property span 2..12 is not contained in its declared parent 3..9"
    );
    let e = EditError::SizeOutOfRange { offset: 7, old_size: 3, delta: -5 };
    assert_eq!(e.message(), "size fixup at offset 7 (3 + -5) is out of u32 range");
    assert_eq!(EditError::EmptyChain.message(), "property chain was empty");
}

#[test]
fn container_messages() {
    assert_eq!(
        ContainerError::UnknownSaveType(0x0A).message(),
        "unknown save_type 0x0A"
    );
    assert_eq!(
        ContainerError::UnknownMagic(*b"XYZ").message(),
        "unknown container magic \"XYZ\""
    );
    assert_eq!(
        ContainerError::TooShort { need: 12, have: 3 }.message(),
        "buffer too short: need at least 12 bytes, have 3"
    );
}

#[test]
fn container_decode_error_message_for_bad_magic() {
    let mut bytes = vec![0u8; 12];
    bytes[8..11].copy_from_slice(b"ABC");
    bytes[11] = 0x31;
    match palsave::container::decode_with(&bytes, oodle) {
        Err(err) => assert_eq!(err.message(), "unknown container magic \"ABC\""),
        Ok(_) => panic!("a header with magic ABC must be refused"),
    }
}

#[test]
fn task_error_messages_wrap_inner_errors() {
    let e = GuildError::MalformedGuildId { id: "xyz".to_string() };
    assert_eq!(e.message(), "malformed guild id \"xyz\": want 32 hex chars");
    let e = CharacterError::World(WorldError::NotALevelSave);
    assert_eq!(e.message(), "this save has no worldSaveData (not a Level.sav)");
    let e = MigrateError::PlayerNotFound { uid: "abc".to_string() };
    assert_eq!(e.message(), "no player abc in the source world");
    let e = InventoryError::NotAPlayerSave;
    assert_eq!(
        e.message(),
        "this save has no SaveData.InventoryInfo (not a player save)"
    );
}
