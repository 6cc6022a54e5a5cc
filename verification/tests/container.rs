use flate2::Compression;
use flate2::write::ZlibEncoder;
use palsave::container::{Algorithm, ContainerError, Passes, encode};
use std::io::Write;

fn oodle(payload: &[u8], len: usize) -> Result<Vec<u8>, oozextract::OozError> {
    let mut out = vec![0u8; len];
    let n = oozextract::Extractor::new().read_from_slice(payload, &mut out)?;
    out.truncate(n);
    Ok(out)
}

fn decode(bytes: &[u8]) -> Result<palsave::container::Container, ContainerError> {
    palsave::container::decode_with(bytes, oodle)
}

fn zlib_deflate(input: &[u8]) -> Vec<u8> {
    let mut encoder = ZlibEncoder::new(Vec::new(), Compression::default());
    encoder.write_all(input).unwrap();
    encoder.finish().unwrap()
}

fn passes_byte(passes: Passes) -> u8 {
    match passes {
        Passes::One => 0x31,
        Passes::Two => 0x32,
    }
}

fn make_plz(gvas: &[u8], passes: Passes) -> Vec<u8> {
    let compressed = match passes {
        Passes::One => zlib_deflate(gvas),
        Passes::Two => zlib_deflate(&zlib_deflate(gvas)),
    };
    let mut out = Vec::new();
    out.extend_from_slice(&(gvas.len() as u32).to_le_bytes());
    out.extend_from_slice(&(compressed.len() as u32).to_le_bytes());
    out.extend_from_slice(b"PlZ");
    out.push(passes_byte(passes));
    out.extend_from_slice(&compressed);
    out
}

#[test]
fn plz_single_pass_round_trips() {
    let gvas = b"synthetic GVAS payload, single pass".to_vec();
    let sav = make_plz(&gvas, Passes::One);

    let container = decode(&sav).expect("decode");
    assert_eq!(container.algorithm, Algorithm::Zlib);
    assert_eq!(container.passes, Passes::One);
    assert!(!container.was_cnk_wrapped);
    assert_eq!(container.gvas, gvas);

    let re_encoded = encode(&container.gvas, &container);
    let re_decoded = decode(&re_encoded).expect("re-decode");
    assert_eq!(re_decoded.gvas, gvas);
}

#[test]
fn plz_double_pass_round_trips() {
    let gvas = b"synthetic GVAS payload, double deflate pass this time".to_vec();
    let sav = make_plz(&gvas, Passes::Two);

    let container = decode(&sav).expect("decode");
    assert_eq!(container.passes, Passes::Two);
    assert_eq!(container.gvas, gvas);

    let re_encoded = encode(&container.gvas, &container);
    let re_decoded = decode(&re_encoded).expect("re-decode");
    assert_eq!(re_decoded.gvas, gvas);
    assert_eq!(re_decoded.passes, Passes::Two);
}

#[test]
fn cnk_wrapper_is_unwrapped_on_read() {
    let gvas = b"payload inside a Game Pass CNK wrapper".to_vec();
    let inner = make_plz(&gvas, Passes::One);

    let mut sav = Vec::new();
    // Outer CNK header: lengths are irrelevant to unwrapping, only the magic is read.
    sav.extend_from_slice(&0u32.to_le_bytes());
    sav.extend_from_slice(&0u32.to_le_bytes());
    sav.extend_from_slice(b"CNK");
    sav.push(0);
    sav.extend_from_slice(&inner);

    let container = decode(&sav).expect("decode");
    assert!(container.was_cnk_wrapped);
    assert_eq!(container.gvas, gvas);
}

#[test]
fn unknown_magic_is_an_error() {
    let mut sav = Vec::new();
    sav.extend_from_slice(&4u32.to_le_bytes());
    sav.extend_from_slice(&4u32.to_le_bytes());
    sav.extend_from_slice(b"???");
    sav.push(0x31);
    sav.extend_from_slice(b"data");

    assert!(matches!(decode(&sav), Err(ContainerError::UnknownMagic(_))));
}

#[test]
fn truncated_payload_is_an_error() {
    let mut sav = Vec::new();
    sav.extend_from_slice(&100u32.to_le_bytes());
    sav.extend_from_slice(&100u32.to_le_bytes()); // claims far more than we provide
    sav.extend_from_slice(b"PlZ");
    sav.push(0x31);
    sav.extend_from_slice(b"short");

    assert!(matches!(
        decode(&sav),
        Err(ContainerError::PayloadOutOfBounds { .. })
    ));
}

#[test]
fn oodle_double_pass_is_refused_not_guessed() {
    let mut sav = Vec::new();
    sav.extend_from_slice(&4u32.to_le_bytes());
    sav.extend_from_slice(&4u32.to_le_bytes());
    sav.extend_from_slice(b"PlM");
    sav.push(0x32);
    sav.extend_from_slice(&[0u8; 4]);

    assert!(matches!(
        decode(&sav),
        Err(ContainerError::UnsupportedOodleDoublePass)
    ));
}

#[test]
fn a_header_shorter_than_twelve_bytes_is_too_short() {
    assert!(matches!(decode(&[0u8; 11]), Err(ContainerError::TooShort { need: 12, have: 11 })));
}

#[test]
fn a_cnk_wrapper_without_an_inner_header_is_too_short() {
    let mut sav = vec![0u8; 8];
    sav.extend_from_slice(b"CNK");
    sav.push(0);
    assert!(matches!(decode(&sav), Err(ContainerError::TooShort { need: 24, have: 12 })));
}

#[test]
fn an_unknown_save_type_is_an_error() {
    let mut sav = Vec::new();
    sav.extend_from_slice(&4u32.to_le_bytes());
    sav.extend_from_slice(&4u32.to_le_bytes());
    sav.extend_from_slice(b"PlZ");
    sav.push(0x33);
    sav.extend_from_slice(b"data");
    assert!(matches!(decode(&sav), Err(ContainerError::UnknownSaveType(0x33))));
}

#[test]
fn a_corrupt_zlib_payload_is_a_zlib_error() {
    let mut sav = Vec::new();
    sav.extend_from_slice(&4u32.to_le_bytes());
    sav.extend_from_slice(&4u32.to_le_bytes());
    sav.extend_from_slice(b"PlZ");
    sav.push(0x31);
    sav.extend_from_slice(&[0xff, 0xff, 0xff, 0xff]);
    assert!(matches!(decode(&sav), Err(ContainerError::Zlib(_))));
}

#[test]
fn an_oodle_container_is_written_back_as_double_zlib() {
    let gvas = b"an oodle-origin payload".to_vec();
    let original = palsave::container::Container {
        algorithm: Algorithm::OodleMermaid,
        passes: Passes::One,
        was_cnk_wrapped: false,
        gvas: gvas.clone(),
    };
    let written = encode(&gvas, &original);
    assert_eq!(&written[8..12], b"PlZ\x32");
    let back = decode(&written).expect("decode");
    assert_eq!(back.algorithm, Algorithm::Zlib);
    assert_eq!(back.passes, Passes::Two);
    assert_eq!(back.gvas, gvas);
    // The header records the uncompressed length.
    assert_eq!(u32::from_le_bytes(written[0..4].try_into().unwrap()) as usize, gvas.len());
}

#[test]
fn sniffed_header_reads_fields_verbatim() {
    let mut bytes = vec![0u8; 16];
    bytes[0..4].copy_from_slice(&100u32.to_le_bytes());
    bytes[4..8].copy_from_slice(&4u32.to_le_bytes());
    bytes[8..11].copy_from_slice(b"PlM");
    bytes[11] = 0x31;
    let h = palsave::container::sniff_header(&bytes, 0).unwrap();
    assert_eq!(h.uncompressed_len, 100);
    assert_eq!(h.compressed_len, 4);
    assert_eq!(&h.magic, b"PlM");
    assert_eq!(h.save_type, 0x31);
    assert_eq!(palsave::container::magic_name(&h.magic), "PlM (Oodle Mermaid)");
    assert!(palsave::container::sizes_fit(&h, 0, bytes.len()));
    assert!(!palsave::container::sizes_fit(&h, 0, 15));
    assert!(palsave::container::sniff_header(&bytes, 5).is_none());
}

#[test]
fn magic_names() {
    assert_eq!(palsave::container::magic_name(b"PlZ"), "PlZ (zlib)");
    assert_eq!(palsave::container::magic_name(b"CNK"), "CNK (Game Pass / WGS wrapper)");
    assert_eq!(palsave::container::magic_name(b"XYZ"), "unknown");
}

#[test]
fn a_plm_payload_that_is_not_oodle_data_is_refused() {
    let payload = [0xFFu8; 16];
    let mut sav = Vec::new();
    sav.extend_from_slice(&64u32.to_le_bytes());
    sav.extend_from_slice(&(payload.len() as u32).to_le_bytes());
    sav.extend_from_slice(b"PlM");
    sav.push(0x31);
    sav.extend_from_slice(&payload);

    match decode(&sav) {
        Ok(c) => assert_ne!(c.gvas, payload.to_vec()),
        Err(e) => assert!(matches!(e, ContainerError::Oodle(_))),
    }
}
