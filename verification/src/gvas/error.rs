use vstd::prelude::*;
use vstd::string::*;
use crate::text::{decimal, push_decimal, push_str};
use crate::gvas::nav::{hex_char, hex_digit_str};

verus! {

/// Why a GVAS buffer could not be read.
#[derive(Debug)]
pub enum GvasError {
    /// A read needed `need` more bytes at offset `at`, but only `have` remained.
    UnexpectedEof { need: usize, at: usize, have: usize },
    /// Property tags with complete type names (engine >= 5.4) are a different,
    /// tree-structured wire format that is refused rather than misread.
    UnsupportedPropertyTagFormat { engine_major: u16, engine_minor: u16 },
    /// A value whose declared type is outside the supported set.
    UnknownPropertyType { name: String, at: usize },
    /// A layout walk ended at `at` instead of the property's declared end `expected`.
    TrailingBytes { at: usize, expected: usize },
}

/// The error for a read of `need` bytes at `at` from a buffer of `len` bytes.
pub open spec fn eof_error(need: int, at: int, len: int) -> GvasError {
    GvasError::UnexpectedEof {
        need: need as usize,
        at: at as usize,
        have: (if at <= len { len - at } else { 0 }) as usize,
    }
}

/// How `Debug` writes one character inside a quoted string: quotes, backslashes and
/// ASCII control characters are escaped, everything else is kept.
pub open spec fn debug_char(c: char) -> Seq<char> {
    if c == '"' {
        seq!['\\', '"']
    } else if c == '\\' {
        seq!['\\', '\\']
    } else if c == '\n' {
        seq!['\\', 'n']
    } else if c == '\r' {
        seq!['\\', 'r']
    } else if c == '\t' {
        seq!['\\', 't']
    } else if c == '\0' {
        seq!['\\', '0']
    } else if (c as u32) < 0x20 || (c as u32) == 0x7f {
        let n = (c as u32) as u8;
        seq!['\\', 'u', '{'] + (if n < 16 {
            seq![hex_char(n)]
        } else {
            seq![hex_char(n / 16), hex_char(n % 16)]
        }) + seq!['}']
    } else {
        seq![c]
    }
}

/// The characters of `t`, each written as `Debug` writes it.
pub open spec fn debug_escaped(t: Seq<char>) -> Seq<char>
    decreases t.len(),
{
    if t.len() == 0 {
        Seq::empty()
    } else {
        debug_escaped(t.drop_last()) + debug_char(t.last())
    }
}

/// `t` as `Debug` quotes a string: between double quotes, escaped.
pub open spec fn quoted(t: Seq<char>) -> Seq<char> {
    seq!['"'] + debug_escaped(t) + seq!['"']
}

/// Appends one character (`String::push`).
#[verifier::external_body]
fn push_char(s: &mut String, c: char)
    ensures
        final(s)@ == old(s)@.push(c),
{
    s.push(c);
}

fn push_debug_char(s: &mut String, c: char)
    ensures
        final(s)@ == old(s)@ + debug_char(c),
{
    let ghost start = s@;
    let code = c as u32;
    if c == '"' || c == '\\' {
        push_char(s, '\\');
        push_char(s, c);
    } else if c == '\n' {
        push_char(s, '\\');
        push_char(s, 'n');
    } else if c == '\r' {
        push_char(s, '\\');
        push_char(s, 'r');
    } else if c == '\t' {
        push_char(s, '\\');
        push_char(s, 't');
    } else if c == '\0' {
        push_char(s, '\\');
        push_char(s, '0');
    } else if code < 0x20 || code == 0x7f {
        let n = code as u8;
        push_char(s, '\\');
        push_char(s, 'u');
        push_char(s, '{');
        if n < 16 {
            s.append(hex_digit_str(n));
        } else {
            s.append(hex_digit_str(n / 16));
            s.append(hex_digit_str(n % 16));
        }
        push_char(s, '}');
    } else {
        push_char(s, c);
    }
    assert(s@ =~= start + debug_char(c));
}

pub fn push_quoted(s: &mut String, t: &str)
    ensures
        final(s)@ == old(s)@ + quoted(t@),
{
    let ghost start = s@;
    push_char(s, '"');
    let n = t.unicode_len();
    let mut i: usize = 0;
    while i < n
        invariant
            n == t@.len(),
            i <= n,
            s@ == start + seq!['"'] + debug_escaped(t@.subrange(0, i as int)),
        decreases n - i,
    {
        let c = t.get_char(i);
        proof {
            assert(t@.subrange(0, i + 1).drop_last() =~= t@.subrange(0, i as int));
        }
        push_debug_char(s, c);
        i = i + 1;
    }
    push_char(s, '"');
    assert(t@.subrange(0, n as int) =~= t@);
    assert(s@ =~= start + quoted(t@));
}

/// The human-readable description of each error.
pub open spec fn gvas_message(e: GvasError) -> Seq<char> {
    match e {
        GvasError::UnexpectedEof { need, at, have } => "unexpected EOF at offset "@ + decimal(at as nat) + ": need "@
            + decimal(need as nat) + " more bytes, have "@ + decimal(have as nat),
        GvasError::UnsupportedPropertyTagFormat { engine_major, engine_minor } => "engine version "@ + decimal(
            engine_major as nat,
        ) + "."@ + decimal(engine_minor as nat)
            + " uses the complete-type-name property tag format (>= 5.4), which isn't implemented yet"@,
        GvasError::UnknownPropertyType { name, at } => "unknown property type "@ + quoted(name@) + " at offset "@
            + decimal(at as nat),
        GvasError::TrailingBytes { at, expected } => "layout ended at offset "@ + decimal(at as nat)
            + " instead of the declared end "@ + decimal(expected as nat),
    }
}

impl GvasError {
    /// A one-line, human-readable description; callers branch on the variant, never
    /// on this text.
    pub fn message(&self) -> (r: String)
        ensures
            r@ == gvas_message(*self),
    {
        let mut s = String::new();
        match self {
            GvasError::UnexpectedEof { need, at, have } => {
                push_str(&mut s, "unexpected EOF at offset ");
                push_decimal(&mut s, *at as u64);
                push_str(&mut s, ": need ");
                push_decimal(&mut s, *need as u64);
                push_str(&mut s, " more bytes, have ");
                push_decimal(&mut s, *have as u64);
            },
            GvasError::UnsupportedPropertyTagFormat { engine_major, engine_minor } => {
                push_str(&mut s, "engine version ");
                push_decimal(&mut s, *engine_major as u64);
                push_str(&mut s, ".");
                push_decimal(&mut s, *engine_minor as u64);
                push_str(
                    &mut s,
                    " uses the complete-type-name property tag format (>= 5.4), which isn't implemented yet",
                );
            },
            GvasError::UnknownPropertyType { name, at } => {
                push_str(&mut s, "unknown property type ");
                push_quoted(&mut s, name.as_str());
                push_str(&mut s, " at offset ");
                push_decimal(&mut s, *at as u64);
            },
            GvasError::TrailingBytes { at, expected } => {
                push_str(&mut s, "layout ended at offset ");
                push_decimal(&mut s, *at as u64);
                push_str(&mut s, " instead of the declared end ");
                push_decimal(&mut s, *expected as u64);
            },
        }
        assert(s@ =~= gvas_message(*self));
        s
    }
}

} // verus!
