//! Lazy GVAS reader and byte-exact writer.

pub mod error;
pub mod header;
pub mod hints;
pub mod nav;
pub mod primitives;
pub mod property;
pub mod value;

pub use error::GvasError;
pub use header::Header;
pub use value::Value;

use vstd::prelude::*;
use header::{engine_at_least, engine_field_at, header_end};
use primitives::{append_bytes, fstring_end, fstring_view_at, read_fstring, u16_at};
use value::{
    contiguous, entry_at, large_world_coordinates, materialize_property, materialized, property_list_at,
    property_list_end, property_list_terminator, read_property_list,
};
use property::{tag_end, tag_view_at};
use vstd::slice::slice_subrange;

verus! {

/// `Clone` for `std::ops::Range`, which std derives: each bound is cloned.
pub assume_specification<Idx: Clone>[ <std::ops::Range<Idx> as Clone>::clone ](
    r: &std::ops::Range<Idx>,
) -> (res: std::ops::Range<Idx>)
    ensures
        cloned::<Idx>(r.start, res.start),
        cloned::<Idx>(r.end, res.end),
;

/// One indexed property: its display names and the byte span (tag plus value) it
/// occupies in the buffer it was read from.
#[derive(Debug, Clone, PartialEq, Eq)]
pub struct PropertyEntry {
    /// Lossy display name — for indexing and UI only, not used when writing.
    pub name: String,
    /// Lossy display type name — for indexing and UI only, not used when writing.
    pub property_type: String,
    /// Tag header plus value bytes for this property, verbatim in the source buffer.
    pub span: std::ops::Range<usize>,
}


/// A parsed save: the header and the flat top-level property index, with the byte
/// spans that let it be written back verbatim.
#[derive(Debug)]
pub struct GvasFile<'a> {
    pub header: Header,
    pub save_game_type: String,
    pub properties: Vec<PropertyEntry>,
    /// The buffer the spans index.
    pub source: &'a [u8],
    pub header_span: std::ops::Range<usize>,
    pub save_game_type_span: std::ops::Range<usize>,
    pub none_span: std::ops::Range<usize>,
    pub trailing_span: std::ops::Range<usize>,
}

/// Where the save-game type name of a GVAS buffer starts (just past the header).
pub open spec fn save_type_at(source: Seq<u8>) -> int {
    header_end(source, 0)->0
}

/// Where the top-level property list of a GVAS buffer starts.
pub open spec fn properties_at(source: Seq<u8>) -> int {
    fstring_end(source, save_type_at(source))->0
}

/// The header of a GVAS buffer declares the complete-type-name tag format (>= 5.4).
pub open spec fn declares_new_tag_format(source: Seq<u8>) -> bool {
    engine_at_least(
        u16_at(source, engine_field_at(source, 0)),
        u16_at(source, engine_field_at(source, 0) + 2),
        5,
        4,
    )
}

/// The header declares engine 4.12 or later: property tags carry a guid flag.
pub open spec fn declares_property_guid(source: Seq<u8>) -> bool {
    engine_at_least(
        u16_at(source, engine_field_at(source, 0)),
        u16_at(source, engine_field_at(source, 0) + 2),
        4,
        12,
    )
}

/// `source` is a GVAS buffer `GvasFile::parse` accepts.
pub open spec fn parses(source: Seq<u8>) -> bool {
    &&& header_end(source, 0) is Some
    &&& !declares_new_tag_format(source)
    &&& fstring_end(source, save_type_at(source)) is Some
    &&& property_list_end(source, properties_at(source), declares_property_guid(source)) is Some
}

/// The error reading `source` gives, when it does not parse: the first read of the
/// header that does not fit; the refusal of the newer tag format, with the engine
/// version, when the header declares it; then the first read of the save-game type or
/// of the property list that does not fit.
pub open spec fn parse_failure(source: Seq<u8>) -> GvasError {
    match header_end(source, 0) {
        None => header::header_error(source, 0),
        Some(h) => if declares_new_tag_format(source) {
            GvasError::UnsupportedPropertyTagFormat {
                engine_major: u16_at(source, engine_field_at(source, 0)),
                engine_minor: u16_at(source, engine_field_at(source, 0) + 2),
            }
        } else {
            match fstring_end(source, h) {
                None => primitives::fstring_error(source, h),
                Some(t) => value::property_list_error(source, t, declares_property_guid(source)),
            }
        },
    }
}

/// `e` is the error reading `source` gives.
pub open spec fn parse_error(source: Seq<u8>, e: GvasError) -> bool {
    e == parse_failure(source)
}

/// Law: a header, a save-game type, one property whose tag declares the length of the
/// value that follows it, and the "None" terminator make a save that parses, read
/// with property guids exactly when the header's engine version calls for them.
#[verifier::rlimit(40)]
#[verifier::spinoff_prover]
pub proof fn single_property_save_parses(
    h: header::HeaderView,
    save_type: primitives::FStringView,
    t: property::PropertyTagView,
    value: Seq<u8>,
    none: primitives::FStringView,
)
    requires
        h.wf(),
        !engine_at_least(h.engine_version_major, h.engine_version_minor, 5, 4),
        save_type.canonical(),
        t.name.canonical(),
        t.property_type.canonical(),
        property::extra_fits(t.property_type, t.extra),
        t.guid is None,
        !property::names(t.name, "None"),
        t.size == value.len(),
        none.canonical(),
        property::names(none, "None"),
    ensures
        ({
            let g = engine_at_least(h.engine_version_major, h.engine_version_minor, 4, 12);
            let buf = h.bytes() + save_type.bytes() + t.bytes(g) + value + none.bytes();
            &&& parses(buf)
            &&& declares_property_guid(buf) == g
        }),
{
    let g = engine_at_least(h.engine_version_major, h.engine_version_minor, 4, 12);
    let hb = h.bytes();
    let sb = save_type.bytes();
    let tb = t.bytes(g);
    let nb = none.bytes();
    let buf = hb + sb + tb + value + nb;
    assert(buf =~= hb + (sb + tb + value + nb));
    header::header_round_trip(h, sb + tb + value + nb);
    let s = hb.len() as int;
    assert(save_type_at(buf) == s);
    assert(fstring_end(buf, s) == Some(s + sb.len())) by {
        assert(buf =~= hb + sb + (tb + value + nb));
        primitives::lemma_fstring_reads_back(save_type, hb, tb + value + nb);
    }
    let p = s + sb.len();
    assert(properties_at(buf) == p);
    assert(tag_end(buf, p, g) == Some(p + tb.len()) && tag_view_at(buf, p, g) == t && !property::is_none_marker(buf, p)) by {
        assert(buf =~= (hb + sb) + tb + (value + nb));
        property::tag_round_trip(t, g, hb + sb, value + nb);
    }
    let n = p + tb.len() + value.len();
    assert(value::property_end(buf, p, g) == n);
    assert(property::is_none_marker(buf, n) && fstring_end(buf, n) == Some(n + nb.len())) by {
        assert(buf =~= (hb + sb + tb + value) + nb + Seq::<u8>::empty());
        property::none_terminator_round_trip(none, hb + sb + tb + value, Seq::empty());
    }
    assert(value::property_list_end(buf, n, g) == Some(n + nb.len()));
    assert(value::property_list_end(buf, p, g) == Some(n + nb.len()));
}

impl<'a> GvasFile<'a> {
    /// The buffer this file was parsed from.
    pub open spec fn source_view(&self) -> Seq<u8> {
        self.source@
    }

    /// The recorded spans partition the source buffer, in order: header, save-game
    /// type, each property, the "None" terminator, then whatever trails the list.
    pub open spec fn wf(&self) -> bool {
        &&& self.header_span.start == 0
        &&& self.header_span.start <= self.header_span.end
        &&& self.header_span.end == self.save_game_type_span.start
        &&& self.save_game_type_span.start <= self.save_game_type_span.end
        &&& contiguous(self.properties@, self.save_game_type_span.end as int, self.none_span.start as int)
        &&& forall|i: int| 0 <= i < self.properties@.len() ==> #[trigger] self.properties@[i].span.start
            <= self.properties@[i].span.end
        &&& self.none_span.start <= self.none_span.end
        &&& self.none_span.end == self.trailing_span.start
        &&& self.trailing_span.start <= self.trailing_span.end
        &&& self.trailing_span.end == self.source@.len()
    }

    /// Property tags in this file carry a guid flag (engine 4.12 on).
    pub open spec fn has_guid(&self) -> bool {
        engine_at_least(self.header.engine_version_major, self.header.engine_version_minor, 4, 12)
    }

    /// Every indexed property is a complete property of the source.
    pub open spec fn entries_valid(&self) -> bool {
        forall|i: int| 0 <= i < self.properties@.len() ==> entry_at(self.source@, #[trigger] self.properties@[i], self.has_guid())
    }

    pub fn parse(source: &'a [u8]) -> (r: Result<Self, GvasError>)
        ensures
            parses(source@) <==> r is Ok,
            match r {
                Ok(file) => {
                    &&& file.source_view() == source@
                    &&& file.wf()
                    &&& file.entries_valid()
                    &&& file.has_guid() == declares_property_guid(source@)
                    &&& file.header@.wf()
                    &&& file.header@.bytes() == source@.subrange(0, save_type_at(source@))
                    &&& file.save_game_type@ == fstring_view_at(source@, save_type_at(source@)).display()
                    &&& file.header.engine_version_major == u16_at(source@, engine_field_at(source@, 0))
                    &&& file.header.engine_version_minor == u16_at(source@, engine_field_at(source@, 0) + 2)
                    &&& property_list_at(
                        source@,
                        file.properties@,
                        properties_at(source@),
                        property_list_terminator(source@, properties_at(source@), declares_property_guid(source@)),
                        declares_property_guid(source@),
                    )
                },
                Err(e) => parse_error(source@, e),
            },
    {
        let mut pos: usize = 0;
        let header = Header::read(source, &mut pos)?;
        let header_span = 0..pos;
        if header.uses_new_property_tag_format() {
            return Err(GvasError::UnsupportedPropertyTagFormat {
                engine_major: header.engine_version_major,
                engine_minor: header.engine_version_minor,
            });
        }
        let save_game_type_start = pos;
        let save_game_type_fs = read_fstring(source, &mut pos)?;
        let save_game_type_span = save_game_type_start..pos;
        let save_game_type = save_game_type_fs.display_lossy();

        let has_property_guid = header.has_property_guid();
        let list_start = pos;
        let properties = read_property_list(source, &mut pos, has_property_guid)?;
        let terminator = if properties.len() == 0 {
            list_start
        } else {
            properties[properties.len() - 1].span.end
        };
        let none_span = terminator..pos;
        let trailing_span = pos..source.len();
        Ok(GvasFile {
            header,
            save_game_type,
            properties,
            source,
            header_span,
            save_game_type_span,
            none_span,
            trailing_span,
        })
    }

    /// Decodes one top-level property's value; the property's own name is its path.
    pub fn materialize(&self, index: usize) -> (r: Result<Value, GvasError>)
        requires
            self.entries_valid(),
            index < self.properties@.len(),
        ensures
            ({
                let e = self.properties@[index as int];
                let s = e.span.start as int;
                r matches Ok(v) && materialized(
                    v,
                    self.source@,
                    tag_end(self.source@, s, self.has_guid())->0,
                    e.span.end as int,
                    tag_view_at(self.source@, s, self.has_guid()),
                    e.name@,
                    large_world_coordinates(self.header.engine_version_major),
                    self.has_guid(),
                )
            }),
    {
        let entry = &self.properties[index];
        assert(entry_at(self.source@, self.properties@[index as int], self.has_guid()));
        materialize_property(
            self.source,
            entry,
            self.header.engine_version_major,
            self.header.has_property_guid(),
            entry.name.as_str(),
        )
    }

    /// Reassembles the buffer by concatenating the recorded spans in order; on a
    /// parsed file this is exactly the source.
    pub fn write(&self) -> (out: Vec<u8>)
        requires
            self.wf(),
        ensures
            out@ == self.source_view(),
    {
        proof {
            if self.properties@.len() > 0 {
                lemma_spans_within(
                    self.properties@,
                    self.save_game_type_span.end as int,
                    self.none_span.start as int,
                    self.properties@.len() - 1,
                );
            }
        }
        let mut out: Vec<u8> = Vec::new();
        append_bytes(&mut out, slice_subrange(self.source, self.header_span.start, self.header_span.end));
        append_bytes(
            &mut out,
            slice_subrange(self.source, self.save_game_type_span.start, self.save_game_type_span.end),
        );
        assert(out@ =~= self.source@.subrange(0, self.save_game_type_span.end as int));
        let mut i: usize = 0;
        while i < self.properties.len()
            invariant
                self.wf(),
                i <= self.properties@.len(),
                out@ == self.source@.subrange(
                    0,
                    if i == 0 { self.save_game_type_span.end as int } else { self.properties@[i - 1].span.end as int },
                ),
            decreases self.properties@.len() - i,
        {
            let p = &self.properties[i];
            proof {
                if i > 0 {
                    assert(self.properties@[i - 1].span.end == self.properties@[i as int].span.start);
                }
                assert(self.properties@[i as int].span.start <= self.properties@[i as int].span.end);
                lemma_spans_within(self.properties@, self.save_game_type_span.end as int, self.none_span.start as int, i as int);
            }
            let ghost before = out@;
            append_bytes(&mut out, slice_subrange(self.source, p.span.start, p.span.end));
            assert(out@ =~= self.source@.subrange(0, p.span.end as int));
            i = i + 1;
        }
        append_bytes(&mut out, slice_subrange(self.source, self.none_span.start, self.none_span.end));
        append_bytes(&mut out, slice_subrange(self.source, self.trailing_span.start, self.trailing_span.end));
        assert(out@ =~= self.source@);
        out
    }
}

/// Each span of a contiguous, forward run lies between the run's bounds.
proof fn lemma_spans_within(props: Seq<PropertyEntry>, start: int, end: int, i: int)
    requires
        contiguous(props, start, end),
        forall|j: int| 0 <= j < props.len() ==> #[trigger] props[j].span.start <= props[j].span.end,
        0 <= i < props.len(),
    ensures
        start <= props[i].span.start,
        props[i].span.end <= end,
    decreases props.len() - i,
{
    lemma_spans_from_start(props, start, i);
    lemma_spans_to_end(props, end, i);
}

proof fn lemma_spans_from_start(props: Seq<PropertyEntry>, start: int, i: int)
    requires
        props.len() > 0 && props[0].span.start == start,
        forall|j: int| 0 <= j < props.len() - 1 ==> #[trigger] props[j].span.end == props[j + 1].span.start,
        forall|j: int| 0 <= j < props.len() ==> #[trigger] props[j].span.start <= props[j].span.end,
        0 <= i < props.len(),
    ensures
        start <= props[i].span.start,
    decreases i,
{
    if i > 0 {
        lemma_spans_from_start(props, start, i - 1);
        assert(props[i - 1].span.end == props[i].span.start);
    }
}

proof fn lemma_spans_to_end(props: Seq<PropertyEntry>, end: int, i: int)
    requires
        props.len() > 0 && props.last().span.end == end,
        forall|j: int| 0 <= j < props.len() - 1 ==> #[trigger] props[j].span.end == props[j + 1].span.start,
        forall|j: int| 0 <= j < props.len() ==> #[trigger] props[j].span.start <= props[j].span.end,
        0 <= i < props.len(),
    ensures
        props[i].span.end <= end,
    decreases props.len() - i,
{
    if i < props.len() - 1 {
        lemma_spans_to_end(props, end, i + 1);
        assert(props[i].span.end == props[i + 1].span.start);
    }
}

} // verus!
