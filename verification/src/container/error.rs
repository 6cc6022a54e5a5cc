use vstd::prelude::*;
use vstd::string::*;
use crate::gvas::error::{push_quoted, quoted};
use crate::text::{byte_upper_hex, decimal, push_byte_upper_hex, push_decimal, push_str};

verus! {

/// Why a save container could not be decoded.
#[derive(Debug)]
pub enum ContainerError {
    TooShort { need: usize, have: usize },
    PayloadOutOfBounds { start: usize, compressed_len: u32, file_len: usize },
    UnknownMagic([u8; 3]),
    UnknownSaveType(u8),
    /// Oodle-compressed payload with a double zlib pass (save_type 0x32). The header
    /// has no field giving the intermediate buffer size Oodle would need to decode
    /// into, so this is refused rather than guessed.
    UnsupportedOodleDoublePass,
    Zlib(std::io::Error),
    Oodle(oozextract::OozError),
}

/// Bytes below 0x80 read as the characters they encode.
pub open spec fn ascii_chars(b: Seq<u8>) -> Seq<char> {
    b.map_values(|c: u8| c as char)
}

/// The description of each error whose text the library composes itself: every
/// variant but the two that carry a decompressor's own error.
pub open spec fn container_message(e: ContainerError) -> Seq<char> {
    match e {
        ContainerError::TooShort { need, have } => "buffer too short: need at least "@ + decimal(need as nat)
            + " bytes, have "@ + decimal(have as nat),
        ContainerError::PayloadOutOfBounds { start, compressed_len, file_len } => "compressed_len "@
            + decimal(compressed_len as nat) + " at offset "@ + decimal(start as nat)
            + " exceeds file length "@ + decimal(file_len as nat),
        ContainerError::UnknownMagic(m) => "unknown container magic "@ + quoted(ascii_chars(m@)),
        ContainerError::UnknownSaveType(t) => "unknown save_type 0x"@ + byte_upper_hex(t),
        ContainerError::UnsupportedOodleDoublePass => "PlM with save_type 0x32 (double pass) is unverified and unsupported"@,
        ContainerError::Zlib(_) => "zlib error: "@,
        ContainerError::Oodle(_) => "oodle error: "@,
    }
}

/// Bytes below 0x80 are valid UTF-8 and decode to the characters they encode.
proof fn lemma_ascii_utf8(b: Seq<u8>)
    requires
        forall|i: int| 0 <= i < b.len() ==> b[i] < 0x80,
    ensures
        vstd::utf8::valid_utf8(b),
        vstd::utf8::decode_utf8(b) == ascii_chars(b),
    decreases b.len(),
{
    if b.len() > 0 {
        let x = b[0];
        let rest = b.subrange(1, b.len() as int);
        assert(x < 0x80);
        assert((x & 0x7f) == x) by (bit_vector)
            requires
                x < 0x80,
        ;
        assert(vstd::utf8::valid_first_scalar(b));
        assert(vstd::utf8::pop_first_scalar(b) == rest);
        lemma_ascii_utf8(rest);
        assert(vstd::utf8::decode_first_scalar(b) == x as u32);
        assert(ascii_chars(b) =~= seq![x as char] + ascii_chars(rest));
    }
}

/// The `Display` text of a `std::io::Error` (from `flate2`); nothing is stated of it,
/// as it carries the decompressor's and the system's own wording.
#[verifier::external_body]
fn io_error_text(e: &std::io::Error) -> String {
    e.to_string()
}

/// The `Display` text of an `oozextract::OozError`; nothing is stated of it, as it
/// carries the decompressor's own wording.
#[verifier::external_body]
fn ooz_error_text(e: &oozextract::OozError) -> String {
    e.to_string()
}

impl ContainerError {
    /// A one-line, human-readable description. A decompressor's error is described
    /// by its own text after the decompressor's name.
    pub fn message(&self) -> (r: String)
        ensures
            match *self {
                ContainerError::UnknownMagic(m) => (forall|i: int| 0 <= i < 3 ==> m[i] < 0x80) ==> r@
                    == container_message(*self),
                ContainerError::Zlib(_) | ContainerError::Oodle(_) => r@.len() >= container_message(
                    *self,
                ).len() && r@.subrange(0, container_message(*self).len() as int) == container_message(*self),
                _ => r@ == container_message(*self),
            },
    {
        let mut s = String::new();
        match self {
            ContainerError::TooShort { need, have } => {
                push_str(&mut s, "buffer too short: need at least ");
                push_decimal(&mut s, *need as u64);
                push_str(&mut s, " bytes, have ");
                push_decimal(&mut s, *have as u64);
            },
            ContainerError::PayloadOutOfBounds { start, compressed_len, file_len } => {
                push_str(&mut s, "compressed_len ");
                push_decimal(&mut s, *compressed_len as u64);
                push_str(&mut s, " at offset ");
                push_decimal(&mut s, *start as u64);
                push_str(&mut s, " exceeds file length ");
                push_decimal(&mut s, *file_len as u64);
            },
            ContainerError::UnknownMagic(m) => {
                push_str(&mut s, "unknown container magic ");
                let text = crate::gvas::primitives::string_from_utf8_lossy(m.as_slice());
                proof {
                    if forall|i: int| 0 <= i < m@.len() ==> m@[i] < 0x80 {
                        lemma_ascii_utf8(m@);
                    }
                }
                push_quoted(&mut s, text.as_str());
            },
            ContainerError::UnknownSaveType(t) => {
                push_str(&mut s, "unknown save_type 0x");
                push_byte_upper_hex(&mut s, *t);
            },
            ContainerError::UnsupportedOodleDoublePass => push_str(
                &mut s,
                "PlM with save_type 0x32 (double pass) is unverified and unsupported",
            ),
            ContainerError::Zlib(e) => {
                push_str(&mut s, "zlib error: ");
                let text = io_error_text(e);
                let ghost head = s@;
                push_str(&mut s, text.as_str());
                assert(s@.subrange(0, head.len() as int) =~= head);
            },
            ContainerError::Oodle(e) => {
                push_str(&mut s, "oodle error: ");
                let text = ooz_error_text(e);
                let ghost head = s@;
                push_str(&mut s, text.as_str());
                assert(s@.subrange(0, head.len() as int) =~= head);
            },
        }
        proof {
            reveal_strlit("zlib error: ");
            reveal_strlit("oodle error: ");
        }
        assert(match *self {
            ContainerError::Zlib(_) | ContainerError::Oodle(_) => true,
            ContainerError::UnknownMagic(m) => (forall|i: int| 0 <= i < 3 ==> m[i] < 0x80) ==> s@
                =~= container_message(*self),
            _ => s@ =~= container_message(*self),
        });
        s
    }
}

} // verus!
