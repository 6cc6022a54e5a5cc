use vstd::prelude::*;
use crate::gvas::GvasError;
use crate::gvas::error::{gvas_message, push_quoted, quoted};
use crate::text::{decimal, push_decimal, push_range, push_signed_decimal, push_str, range_text, signed_decimal};

verus! {

/// Why an edit could not be expressed or applied.
#[derive(Debug)]
pub enum EditError {
    Gvas(GvasError),
    EmptyChain,
    /// A property chain had an entry that doesn't physically contain the next one.
    NotNested { outer: std::ops::Range<usize>, inner: std::ops::Range<usize> },
    OverlappingSplices { first: std::ops::Range<usize>, second: std::ops::Range<usize> },
    SpliceOutOfBounds { range: std::ops::Range<usize>, source_len: usize },
    /// A `size` fixup would move the field outside u32 range.
    SizeOutOfRange { offset: usize, old_size: u32, delta: i64 },
    /// The edited buffer didn't re-parse into an exact partition of itself.
    VerificationFailed,
    /// A map entry index past the map's last entry.
    MapEntryOutOfRange { index: usize, count: usize },
    /// The map records pending key removals, a shape the edit functions refuse.
    MapHasRemovedKeys { count: u32 },
    /// The value given does not have the property's declared type.
    TypeMismatch { property: String, declared: String, given: &'static str },
    /// The property's declared type is not one a scalar edit can write.
    UnsupportedPropertyType { property: String, declared: String },
}

/// A range's text as `Debug` prints it.
pub open spec fn span_text(r: std::ops::Range<usize>) -> Seq<char> {
    range_text(r.start as nat, r.end as nat)
}

/// The human-readable description of each error.
pub open spec fn edit_message(e: EditError) -> Seq<char> {
    match e {
        EditError::Gvas(g) => gvas_message(g),
        EditError::EmptyChain => "property chain was empty"@,
        EditError::NotNested { outer, inner } => "property span "@ + span_text(inner)
            + " is not contained in its declared parent "@ + span_text(outer),
        EditError::OverlappingSplices { first, second } => "overlapping splices: "@ + span_text(first)
            + " and "@ + span_text(second),
        EditError::SpliceOutOfBounds { range, source_len } => "splice range "@ + span_text(range)
            + " exceeds source length "@ + decimal(source_len as nat),
        EditError::SizeOutOfRange { offset, old_size, delta } => "size fixup at offset "@ + decimal(
            offset as nat,
        ) + " ("@ + decimal(old_size as nat) + " + "@ + signed_decimal(delta as int)
            + ") is out of u32 range"@,
        EditError::VerificationFailed => "edited buffer did not re-parse into an exact partition of itself"@,
        EditError::MapEntryOutOfRange { index, count } => "map entry "@ + decimal(index as nat)
            + " is past the map's "@ + decimal(count as nat) + " entries"@,
        EditError::MapHasRemovedKeys { count } => "map records "@ + decimal(count as nat)
            + " removed keys, which edits do not support"@,
        EditError::TypeMismatch { property, declared, given } => "property "@ + quoted(property@)
            + " is declared "@ + quoted(declared@) + " but was given "@ + quoted(given@),
        EditError::UnsupportedPropertyType { property, declared } => "property "@ + quoted(property@)
            + " has type "@ + quoted(declared@) + ", which a scalar edit cannot write"@,
    }
}

impl EditError {
    /// A one-line, human-readable description.
    pub fn message(&self) -> (r: String)
        ensures
            r@ == edit_message(*self),
    {
        if let EditError::Gvas(g) = self {
            return g.message();
        }
        let mut s = String::new();
        match self {
            EditError::Gvas(_) => {},
            EditError::EmptyChain => push_str(&mut s, "property chain was empty"),
            EditError::NotNested { outer, inner } => {
                push_str(&mut s, "property span ");
                push_range(&mut s, inner);
                push_str(&mut s, " is not contained in its declared parent ");
                push_range(&mut s, outer);
            },
            EditError::OverlappingSplices { first, second } => {
                push_str(&mut s, "overlapping splices: ");
                push_range(&mut s, first);
                push_str(&mut s, " and ");
                push_range(&mut s, second);
            },
            EditError::SpliceOutOfBounds { range, source_len } => {
                push_str(&mut s, "splice range ");
                push_range(&mut s, range);
                push_str(&mut s, " exceeds source length ");
                push_decimal(&mut s, *source_len as u64);
            },
            EditError::SizeOutOfRange { offset, old_size, delta } => {
                push_str(&mut s, "size fixup at offset ");
                push_decimal(&mut s, *offset as u64);
                push_str(&mut s, " (");
                push_decimal(&mut s, *old_size as u64);
                push_str(&mut s, " + ");
                push_signed_decimal(&mut s, *delta);
                push_str(&mut s, ") is out of u32 range");
            },
            EditError::VerificationFailed => push_str(
                &mut s,
                "edited buffer did not re-parse into an exact partition of itself",
            ),
            EditError::MapEntryOutOfRange { index, count } => {
                push_str(&mut s, "map entry ");
                push_decimal(&mut s, *index as u64);
                push_str(&mut s, " is past the map's ");
                push_decimal(&mut s, *count as u64);
                push_str(&mut s, " entries");
            },
            EditError::MapHasRemovedKeys { count } => {
                push_str(&mut s, "map records ");
                push_decimal(&mut s, *count as u64);
                push_str(&mut s, " removed keys, which edits do not support");
            },
            EditError::TypeMismatch { property, declared, given } => {
                push_str(&mut s, "property ");
                push_quoted(&mut s, property.as_str());
                push_str(&mut s, " is declared ");
                push_quoted(&mut s, declared.as_str());
                push_str(&mut s, " but was given ");
                push_quoted(&mut s, given);
            },
            EditError::UnsupportedPropertyType { property, declared } => {
                push_str(&mut s, "property ");
                push_quoted(&mut s, property.as_str());
                push_str(&mut s, " has type ");
                push_quoted(&mut s, declared.as_str());
                push_str(&mut s, ", which a scalar edit cannot write");
            },
        }
        assert(s@ =~= edit_message(*self));
        s
    }
}

} // verus!
