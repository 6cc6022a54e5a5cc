//! Splice engine: apply edits without re-serializing the save.
//!
//! Every edit is a set of byte-range replacements against the original decompressed
//! GVAS buffer. `SpliceSet::apply` sorts them, rejects overlaps, and assembles the
//! result; untouched regions are copied straight from the source. A value edit also
//! patches the u32 `size` field of the edited property and of each ancestor by the
//! same delta, which is the whole of what the format asks of an in-place edit.

pub mod error;

pub use error::EditError;

use vstd::prelude::*;
use vstd::string::*;
use crate::gvas::{GvasError, PropertyEntry};
use crate::gvas::primitives::{
    FString, FStringView, append_bytes, bytes_to_vec, copy_range, fits, fstring_end, i32_bytes, i64_bytes,
    lemma_le_round_trips, u32_at, u32_bytes, write_fstring, write_i32_le, write_i64_le, write_u32_le,
};
use crate::gvas::property::{
    PropertyTag, TagExtra, TagExtraView, is_none_marker, names, size_at, size_field_offset, tag_end, tag_readable,
    tag_view_at, value_offset,
};
use crate::gvas::value::{
    MapLayout, entry_readable, entry_spans_at, large_world_coordinates, layout_map_end, map_defaults, map_layout,
    map_removed_end,
};
use crate::gvas::value::entries_end;
use crate::gvas::value::Value;
use crate::gvas::{GvasFile, parses};
use vstd::slice::slice_subrange;

verus! {

#[derive(Debug, Clone, PartialEq, Eq)]
pub struct Splice {
    pub range: std::ops::Range<usize>,
    pub bytes: Vec<u8>,
}

#[derive(Debug, Clone, Default)]
pub struct SpliceSet {
    splices: Vec<Splice>,
}

/// `x` inserted into the start-sorted `sorted` after every splice that starts no
/// later than it (so equal starts keep their insertion order).
pub open spec fn insert_sorted(sorted: Seq<Splice>, x: Splice) -> Seq<Splice>
    decreases sorted.len(),
{
    if sorted.len() == 0 {
        seq![x]
    } else if sorted.last().range.start > x.range.start {
        insert_sorted(sorted.drop_last(), x).push(sorted.last())
    } else {
        sorted.push(x)
    }
}

/// The splices in source order: a stable sort by range start.
pub open spec fn sort_splices(s: Seq<Splice>) -> Seq<Splice>
    decreases s.len(),
{
    if s.len() == 0 {
        Seq::empty()
    } else {
        insert_sorted(sort_splices(s.drop_last()), s.last())
    }
}

/// Every splice's range starts no later than it ends.
pub open spec fn ranges_ordered(s: Seq<Splice>) -> bool {
    forall|j: int| 0 <= j < s.len() ==> (#[trigger] s[j]).range.start <= s[j].range.end
}

proof fn lemma_insert_keeps_ordered(sorted: Seq<Splice>, x: Splice)
    requires
        ranges_ordered(sorted),
        x.range.start <= x.range.end,
    ensures
        ranges_ordered(insert_sorted(sorted, x)),
    decreases sorted.len(),
{
    if sorted.len() > 0 && sorted.last().range.start > x.range.start {
        let init = sorted.drop_last();
        assert forall|j: int| 0 <= j < init.len() implies (#[trigger] init[j]).range.start <= init[j].range.end by {
            assert(init[j] == sorted[j]);
        }
        lemma_insert_keeps_ordered(init, x);
        let r = insert_sorted(init, x);
        assert forall|j: int| 0 <= j < r.len() + 1 implies (#[trigger] r.push(sorted.last())[j]).range.start <= r.push(
            sorted.last(),
        )[j].range.end by {
            if j < r.len() {
                assert(r.push(sorted.last())[j] == r[j]);
            }
        }
    } else if sorted.len() > 0 {
        assert forall|j: int| 0 <= j < sorted.len() + 1 implies (#[trigger] sorted.push(x)[j]).range.start <= sorted.push(
            x,
        )[j].range.end by {
            if j < sorted.len() {
                assert(sorted.push(x)[j] == sorted[j]);
            }
        }
    }
}

proof fn lemma_sort_keeps_ordered(s: Seq<Splice>)
    requires
        ranges_ordered(s),
    ensures
        ranges_ordered(sort_splices(s)),
    decreases s.len(),
{
    if s.len() > 0 {
        let init = s.drop_last();
        assert forall|j: int| 0 <= j < init.len() implies (#[trigger] init[j]).range.start <= init[j].range.end by {
            assert(init[j] == s[j]);
        }
        lemma_sort_keeps_ordered(init);
        lemma_insert_keeps_ordered(sort_splices(init), s.last());
    }
}

/// Splices whose ranges are each ordered can always be applied: either cleanly or
/// with a reported error.
pub proof fn lemma_ordered_apply_defined(s: Seq<Splice>, len: int)
    requires
        ranges_ordered(s),
    ensures
        apply_defined(s, len),
{
    lemma_sort_keeps_ordered(s);
    let sorted = sort_splices(s);
    if sorted.len() > 0 {
        assert(sorted[sorted.len() - 1].range.start <= sorted[sorted.len() - 1].range.end);
    }
}

/// `i` is the first adjacent pair (in `s`) whose first range ends after the second
/// begins.
pub open spec fn first_overlap(s: Seq<Splice>, i: int) -> bool {
    &&& 0 <= i < s.len() - 1
    &&& s[i].range.end > s[i + 1].range.start
    &&& forall|j: int| 0 <= j < i ==> (#[trigger] s[j]).range.end <= s[j + 1].range.start
}

pub open spec fn no_overlap(s: Seq<Splice>) -> bool {
    forall|j: int| 0 <= j < s.len() - 1 ==> (#[trigger] s[j]).range.end <= s[j + 1].range.start
}

/// Where the unspliced tail starts after the splices in `s`.
pub open spec fn tail_start(s: Seq<Splice>) -> int {
    if s.len() == 0 { 0 } else { s.last().range.end as int }
}

/// The output up to the end of the last splice in `s`: for each splice, the source
/// bytes since the previous splice, then the replacement bytes.
pub open spec fn pieces(s: Seq<Splice>, source: Seq<u8>) -> Seq<u8>
    decreases s.len(),
{
    if s.len() == 0 {
        Seq::empty()
    } else {
        pieces(s.drop_last(), source) + source.subrange(tail_start(s.drop_last()), s.last().range.start as int)
            + s.last().bytes@
    }
}

/// The assembled buffer for source-ordered, non-overlapping splices.
pub open spec fn assembled(s: Seq<Splice>, source: Seq<u8>) -> Seq<u8> {
    pieces(s, source) + source.subrange(tail_start(s), source.len() as int)
}

/// The sorted splices fit: assembling them reads only inside the source.
pub open spec fn fits_source(s: Seq<Splice>, len: int) -> bool {
    s.len() == 0 || (s.last().range.end <= len && s.last().range.start <= len)
}

/// Applying `s` to a source of `len` bytes either fails cleanly or assembles
/// without indexing outside the source (a last splice that ends inside the source
/// but starts past its end would not).
pub open spec fn apply_defined(s: Seq<Splice>, len: int) -> bool {
    let sorted = sort_splices(s);
    !no_overlap(sorted) || sorted.len() == 0 || sorted.last().range.end > len || sorted.last().range.start <= len
}

impl SpliceSet {
    pub closed spec fn splices_view(&self) -> Seq<Splice> {
        self.splices@
    }

    pub fn new() -> (r: SpliceSet)
        ensures
            r.splices_view() == Seq::<Splice>::empty(),
    {
        SpliceSet { splices: Vec::new() }
    }

    pub fn replace(&mut self, range: std::ops::Range<usize>, bytes: Vec<u8>)
        ensures
            final(self).splices_view() == old(self).splices_view().push(Splice { range, bytes }),
    {
        self.splices.push(Splice { range, bytes });
    }

    pub fn is_empty(&self) -> (r: bool)
        ensures
            r == (self.splices_view().len() == 0),
    {
        self.splices.len() == 0
    }

    pub fn merge(&mut self, other: SpliceSet)
        ensures
            final(self).splices_view() == old(self).splices_view() + other.splices_view(),
    {
        let mut other = other;
        self.splices.append(&mut other.splices);
    }

    /// Assembles the edited buffer. Splices are applied in source order; overlapping
    /// ranges are rejected rather than silently resolved, since which one "wins"
    /// would be arbitrary and the result would be a corrupt save.
    pub fn apply(self, source: &[u8]) -> (r: Result<Vec<u8>, EditError>)
        requires
            apply_defined(self.splices_view(), source@.len() as int),
        ensures
            ({
                let s = sort_splices(self.splices_view());
                match r {
                    Ok(out) => no_overlap(s) && fits_source(s, source@.len() as int) && out@ == assembled(s, source@),
                    Err(EditError::OverlappingSplices { first, second }) => exists|i: int|
                        first_overlap(s, i) && first == s[i].range && second == s[i + 1].range,
                    Err(EditError::SpliceOutOfBounds { range, source_len }) => {
                        &&& no_overlap(s)
                        &&& s.len() > 0
                        &&& s.last().range.end > source@.len()
                        &&& range == s.last().range
                        &&& source_len == source@.len()
                    },
                    Err(_) => false,
                }
            }),
    {
        let splices = sort_by_start(self.splices);
        let ghost s = splices@;
        let n = splices.len();
        match find_overlap(&splices) {
            Some(i) => {
                return Err(EditError::OverlappingSplices {
                    first: splices[i].range.start..splices[i].range.end,
                    second: splices[i + 1].range.start..splices[i + 1].range.end,
                });
            },
            None => {},
        }
        if n > 0 && splices[n - 1].range.end > source.len() {
            return Err(EditError::SpliceOutOfBounds {
                range: splices[n - 1].range.start..splices[n - 1].range.end,
                source_len: source.len(),
            });
        }
        Ok(assemble(&splices, source))
    }
}

/// The first adjacent pair whose ranges overlap.
fn find_overlap(s: &Vec<Splice>) -> (r: Option<usize>)
    ensures
        match r {
            Some(i) => first_overlap(s@, i as int),
            None => no_overlap(s@),
        },
{
    let n = s.len();
    let mut i: usize = 0;
    while n > 0 && i < n - 1
        invariant
            n == s@.len(),
            i <= n,
            forall|j: int| 0 <= j < i ==> (#[trigger] s@[j]).range.end <= s@[j + 1].range.start,
        decreases n - i,
    {
        if s[i].range.end > s[i + 1].range.start {
            return Some(i);
        }
        i = i + 1;
    }
    None
}

/// Copies the source around each splice in turn.
fn assemble(s: &Vec<Splice>, source: &[u8]) -> (out: Vec<u8>)
    requires
        no_overlap(s@),
        sorted_by_start(s@),
        s@.len() > 0 ==> s@.last().range.end <= source@.len() && s@.last().range.start <= source@.len(),
    ensures
        out@ == assembled(s@, source@),
{
    let n = s.len();
    proof {
        if n > 0 {
            lemma_starts_bounded(s@, source@.len() as int);
        }
    }
    let mut out: Vec<u8> = Vec::new();
    let mut cursor: usize = 0;
    let mut k: usize = 0;
    while k < n
        invariant
            n == s@.len(),
            k <= n,
            no_overlap(s@),
            n > 0 ==> s@.last().range.end <= source@.len(),
            forall|j: int| 0 <= j < n ==> (#[trigger] s@[j]).range.start <= source@.len(),
            cursor == tail_start(s@.take(k as int)),
            cursor <= source@.len(),
            k < n ==> cursor <= s@[k as int].range.start,
            out@ == pieces(s@.take(k as int), source@),
        decreases n - k,
    {
        let sp = &s[k];
        append_bytes(&mut out, slice_subrange(source, cursor, sp.range.start));
        append_bytes(&mut out, sp.bytes.as_slice());
        proof {
            assert(s@.take(k + 1).drop_last() =~= s@.take(k as int));
            assert(s@.take(k + 1).last() == s@[k as int]);
            if k + 1 < n {
                assert(s@[k as int].range.end <= s@[k + 1].range.start);
            } else {
                assert(s@[k as int] == s@.last());
            }
        }
        cursor = sp.range.end;
        k = k + 1;
    }
    append_bytes(&mut out, slice_subrange(source, cursor, source.len()));
    proof {
        assert(s@.take(n as int) =~= s@);
    }
    out
}

/// Every splice starts within the source when the last one does.
proof fn lemma_starts_bounded(s: Seq<Splice>, len: int)
    requires
        s.len() > 0,
        s.last().range.start <= len,
        sorted_by_start(s),
    ensures
        forall|j: int| 0 <= j < s.len() ==> (#[trigger] s[j]).range.start <= len,
{
    assert forall|j: int| 0 <= j < s.len() implies (#[trigger] s[j]).range.start <= len by {
        assert(s[j].range.start <= s[s.len() - 1].range.start);
    }
}

pub open spec fn sorted_by_start(s: Seq<Splice>) -> bool {
    forall|j: int, k: int| 0 <= j <= k < s.len() ==> s[j].range.start <= s[k].range.start
}

proof fn lemma_insert_sorted(s: Seq<Splice>, x: Splice, p: int)
    requires
        0 <= p <= s.len(),
        forall|j: int| p <= j < s.len() ==> (#[trigger] s[j]).range.start > x.range.start,
        p == 0 || s[p - 1].range.start <= x.range.start,
    ensures
        insert_sorted(s, x) == s.insert(p, x),
    decreases s.len(),
{
    if s.len() == 0 {
        assert(s.insert(p, x) =~= seq![x]);
    } else if p == s.len() {
        assert(s.insert(p, x) =~= s.push(x));
    } else {
        lemma_insert_sorted(s.drop_last(), x, p);
        assert(s.insert(p, x) =~= s.drop_last().insert(p, x).push(s.last()));
    }
}

fn insert_by_start(sorted: Vec<Splice>, x: Splice) -> (r: Vec<Splice>)
    requires
        sorted_by_start(sorted@),
    ensures
        r@ == insert_sorted(sorted@, x),
        sorted_by_start(r@),
{
    let mut sorted = sorted;
    let mut p = sorted.len();
    while p > 0 && sorted[p - 1].range.start > x.range.start
        invariant
            p <= sorted@.len(),
            forall|j: int| p <= j < sorted@.len() ==> (#[trigger] sorted@[j]).range.start > x.range.start,
        decreases p,
    {
        p = p - 1;
    }
    proof {
        lemma_insert_sorted(sorted@, x, p as int);
    }
    let ghost before = sorted@;
    sorted.insert(p, x);
    proof {
        assert forall|j: int, k: int| 0 <= j <= k < sorted@.len() implies sorted@[j].range.start
            <= sorted@[k].range.start by {
            if j < p && k > p {
                assert(sorted@[j] == before[j]);
                assert(sorted@[k] == before[k - 1]);
            } else if j < p && k == p {
                assert(sorted@[j] == before[j]);
                assert(before[j].range.start <= before[p - 1].range.start);
            } else if j == p && k > p {
                assert(sorted@[k] == before[k - 1]);
            } else if j > p {
                assert(sorted@[j] == before[j - 1]);
                assert(sorted@[k] == before[k - 1]);
            } else if k < p {
                assert(sorted@[j] == before[j]);
                assert(sorted@[k] == before[k]);
            }
        }
    }
    sorted
}

/// Sorts by range start, keeping equal starts in their original order.
fn sort_by_start(v: Vec<Splice>) -> (r: Vec<Splice>)
    ensures
        r@ == sort_splices(v@),
        sorted_by_start(r@),
{
    let ghost input = v@;
    let n = v.len();
    let mut v = v;
    let mut rev: Vec<Splice> = Vec::new();
    while v.len() > 0
        invariant
            v@.len() + rev@.len() == n,
            n == input.len(),
            v@ == input.take(v@.len() as int),
            forall|j: int| 0 <= j < rev@.len() ==> #[trigger] rev@[j] == input[n - 1 - j],
        decreases v@.len(),
    {
        let ghost before = v@;
        let x = v.pop().unwrap();
        proof {
            assert(v@ =~= input.take(v@.len() as int));
        }
        rev.push(x);
    }
    let mut sorted: Vec<Splice> = Vec::new();
    let mut i: usize = 0;
    assert(input.take(0) =~= Seq::<Splice>::empty());
    while rev.len() > 0
        invariant
            i + rev@.len() == n,
            n == input.len(),
            sorted@ == sort_splices(input.take(i as int)),
            sorted_by_start(sorted@),
            forall|j: int| 0 <= j < rev@.len() ==> #[trigger] rev@[j] == input[n - 1 - j],
        decreases rev@.len(),
    {
        let x = rev.pop().unwrap();
        proof {
            assert(x == input[i as int]);
            assert(input.take(i + 1).drop_last() =~= input.take(i as int));
            assert(input.take(i + 1).last() == input[i as int]);
        }
        sorted = insert_by_start(sorted, x);
        i = i + 1;
    }
    assert(input.take(n as int) =~= input);
    sorted
}


/// The splices a set holds after `replace` was called on it with each splice of
/// `more`, in order.
pub open spec fn replayed(base: Seq<Splice>, more: Seq<Splice>) -> Seq<Splice>
    decreases more.len(),
{
    if more.len() == 0 {
        base
    } else {
        replayed(base, more.drop_last()).push(more.last())
    }
}

/// Law: merging `b` into `a` leaves the splices that replacing each splice of `b`
/// into `a`, in order, would: the merged set applies exactly as the replayed one does,
/// and it is empty only when both sets were.
pub proof fn merge_is_replay(a: Seq<Splice>, b: Seq<Splice>, source: Seq<u8>)
    ensures
        a + b == replayed(a, b),
        (a + b).len() == 0 <==> (a.len() == 0 && b.len() == 0),
        apply_defined(a + b, source.len() as int) == apply_defined(replayed(a, b), source.len() as int),
        assembled(sort_splices(a + b), source) == assembled(sort_splices(replayed(a, b)), source),
    decreases b.len(),
{
    if b.len() > 0 {
        merge_is_replay(a, b.drop_last(), source);
        assert(a + b =~= (a + b.drop_last()).push(b.last()));
    } else {
        assert(a + b =~= a);
    }
}

/// Law: applying a set with no splices reproduces the source exactly.
pub proof fn apply_with_no_splices_is_the_identity(source: Seq<u8>)
    ensures
        assembled(sort_splices(Seq::<Splice>::empty()), source) == source,
{
    assert(source.subrange(0, source.len() as int) =~= source);
}

/// A TArray<uint8> property value: a u32 element count, then the bytes.
pub open spec fn byte_array_bytes(blob: Seq<u8>) -> Seq<u8> {
    u32_bytes(blob.len() as u32) + blob
}

/// Encodes a `TArray<uint8>` property value: a u32 element count followed by the
/// bytes themselves — the wire shape of every Palworld `RawData` property.
pub fn byte_array_value(blob: &[u8]) -> (out: Vec<u8>)
    ensures
        out@ == byte_array_bytes(blob@),
{
    let mut out: Vec<u8> = Vec::new();
    write_u32_le(&mut out, blob.len() as u32);
    append_bytes(&mut out, blob);
    out
}

fn gvas(e: GvasError) -> (r: EditError)
    ensures
        r == EditError::Gvas(e),
{
    EditError::Gvas(e)
}

// ---------------------------------------------------------------------------
// Ancestor chains and size fixups
// ---------------------------------------------------------------------------

pub open spec fn nested(outer: PropertyEntry, inner: PropertyEntry) -> bool {
    outer.span.start <= inner.span.start && inner.span.end <= outer.span.end
}

/// `i` is the first pair of the chain where an entry doesn't contain the next.
pub open spec fn first_unnested(chain: Seq<&PropertyEntry>, i: int) -> bool {
    &&& 0 <= i < chain.len() - 1
    &&& !nested(*chain[i], *chain[i + 1])
    &&& forall|j: int| 0 <= j < i ==> nested(*#[trigger] chain[j], *chain[j + 1])
}

pub open spec fn all_nested(chain: Seq<&PropertyEntry>) -> bool {
    forall|j: int| 0 <= j < chain.len() - 1 ==> nested(*#[trigger] chain[j], *chain[j + 1])
}

/// Checks that each entry in `chain` physically contains the next.
fn check_nesting(chain: &[&PropertyEntry]) -> (r: Result<(), EditError>)
    ensures
        match r {
            Ok(()) => all_nested(chain@),
            Err(EditError::NotNested { outer, inner }) => exists|i: int|
                first_unnested(chain@, i) && outer == chain@[i].span && inner == chain@[i + 1].span,
            Err(_) => false,
        },
{
    let n = chain.len();
    let mut i: usize = 0;
    while n > 0 && i < n - 1
        invariant
            n == chain@.len(),
            i <= n,
            n > 0 ==> i <= n - 1,
            forall|j: int| 0 <= j < i ==> nested(*#[trigger] chain@[j], *chain@[j + 1]),
        decreases n - i,
    {
        let outer = chain[i];
        let inner = chain[i + 1];
        if !(outer.span.start <= inner.span.start && inner.span.end <= outer.span.end) {
            assert(first_unnested(chain@, i as int));
            return Err(EditError::NotNested {
                outer: outer.span.start..outer.span.end,
                inner: inner.span.start..inner.span.end,
            });
        }
        i = i + 1;
    }
    Ok(())
}

/// How patching the size field of the tag at `start` by `delta` goes: 0 fine, 1 the
/// tag's names don't read, 2 the size field runs past the buffer, 3 the new size is
/// out of u32 range.
pub open spec fn fixup_outcome(source: Seq<u8>, start: int, delta: i64) -> int {
    if !(fstring_end(source, start) is Some && fstring_end(source, fstring_end(source, start)->0) is Some) {
        1
    } else if !fits(source, size_at(source, start), 4) {
        2
    } else if !(0 <= u32_at(source, size_at(source, start)) + delta <= u32::MAX) {
        3
    } else {
        0
    }
}

/// `j` is the first chain entry whose fixup fails.
pub open spec fn first_failed_fixup(source: Seq<u8>, chain: Seq<&PropertyEntry>, delta: i64, j: int) -> bool {
    &&& 0 <= j < chain.len()
    &&& fixup_outcome(source, chain[j].span.start as int, delta) != 0
    &&& forall|k: int| 0 <= k < j ==> fixup_outcome(source, (#[trigger] chain[k]).span.start as int, delta) == 0
}

/// `splices` are the size patches for `chain`: one per entry, rewriting its size
/// field to the old size plus `delta`.
pub open spec fn are_size_fixups(splices: Seq<Splice>, source: Seq<u8>, chain: Seq<&PropertyEntry>, delta: i64) -> bool {
    &&& splices.len() == chain.len()
    &&& forall|j: int|
        0 <= j < chain.len() ==> {
            let off = size_at(source, chain[j].span.start as int);
            &&& (#[trigger] splices[j]).range.start == off
            &&& splices[j].range.end == off + 4
            &&& splices[j].bytes@ == u32_bytes((u32_at(source, off) + delta) as u32)
        }
}

/// What `size_fixups` returns or refuses.
pub open spec fn fixups_result(r: Result<SpliceSet, EditError>, source: Seq<u8>, chain: Seq<&PropertyEntry>, delta: i64) -> bool {
    match r {
        Ok(set) => if delta == 0 {
            set.splices_view().len() == 0
        } else {
            &&& forall|j: int| 0 <= j < chain.len() ==> fixup_outcome(source, (#[trigger] chain[j]).span.start as int, delta) == 0
            &&& are_size_fixups(set.splices_view(), source, chain, delta)
        },
        Err(e) => fixup_error(e, source, chain, delta),
    }
}

/// `e` is the refusal for the first failing fixup of `chain`.
pub open spec fn fixup_error(e: EditError, source: Seq<u8>, chain: Seq<&PropertyEntry>, delta: i64) -> bool {
    delta != 0 && exists|j: int|
        first_failed_fixup(source, chain, delta, j) && {
            let off = size_at(source, chain[j].span.start as int);
            let outcome = fixup_outcome(source, chain[j].span.start as int, delta);
            if outcome == 1 {
                e is Gvas
            } else if outcome == 2 {
                e == EditError::SpliceOutOfBounds {
                    range: (off as usize)..((off + 4) as usize),
                    source_len: source.len() as usize,
                }
            } else {
                e == EditError::SizeOutOfRange { offset: off as usize, old_size: u32_at(source, off), delta }
            }
        }
}

/// Patches the `size` field of every property in `chain` by `delta` — the whole of
/// what an edit owes the format when a region's length changes.
fn size_fixups(source: &[u8], chain: &[&PropertyEntry], delta: i64) -> (r: Result<SpliceSet, EditError>)
    requires
        source@.len() + 8 <= usize::MAX,
    ensures
        fixups_result(r, source@, chain@, delta),
{
    let mut set = SpliceSet::new();
    if delta == 0 {
        return Ok(set);
    }
    let mut i: usize = 0;
    while i < chain.len()
        invariant
            delta != 0,
            source@.len() + 8 <= usize::MAX,
            i <= chain@.len(),
            forall|k: int| 0 <= k < i ==> fixup_outcome(source@, (#[trigger] chain@[k]).span.start as int, delta) == 0,
            are_size_fixups(set.splices_view(), source@, chain@.take(i as int), delta),
        decreases chain@.len() - i,
    {
        let entry = chain[i];
        let offset = match size_field_offset(source, entry.span.start) {
            Ok(o) => o,
            Err(e) => {
                assert(fixup_outcome(source@, chain@[i as int].span.start as int, delta) == 1);
                assert(first_failed_fixup(source@, chain@, delta, i as int));
                return Err(gvas(e));
            },
        };
        if source.len() < 4 || offset > source.len() - 4 {
            assert(fixup_outcome(source@, chain@[i as int].span.start as int, delta) == 2);
            assert(first_failed_fixup(source@, chain@, delta, i as int));
            return Err(EditError::SpliceOutOfBounds { range: offset..offset + 4, source_len: source.len() });
        }
        let old_size = vstd::bytes::u32_from_le_bytes(slice_subrange(source, offset, offset + 4));
        assert(old_size == u32_at(source@, offset as int));
        let new_size: i128 = old_size as i128 + delta as i128;
        if new_size < 0 || new_size > 0xffff_ffff {
            assert(fixup_outcome(source@, chain@[i as int].span.start as int, delta) == 3);
            assert(first_failed_fixup(source@, chain@, delta, i as int));
            return Err(EditError::SizeOutOfRange { offset, old_size, delta });
        }
        assert(fixup_outcome(source@, chain@[i as int].span.start as int, delta) == 0);
        let mut field: Vec<u8> = Vec::new();
        write_u32_le(&mut field, new_size as u32);
        let ghost before = set.splices_view();
        set.replace(offset..offset + 4, field);
        proof {
            assert(chain@.take(i + 1).drop_last() =~= chain@.take(i as int));
            assert forall|j: int| 0 <= j < i + 1 implies {
                let off = size_at(source@, chain@.take(i + 1)[j].span.start as int);
                &&& (#[trigger] set.splices_view()[j]).range.start == off
                &&& set.splices_view()[j].range.end == off + 4
                &&& set.splices_view()[j].bytes@ == u32_bytes((u32_at(source@, off) + delta) as u32)
            } by {
                if j < i {
                    assert(chain@.take(i + 1)[j] == chain@.take(i as int)[j]);
                }
            }
        }
        i = i + 1;
    }
    assert(chain@.take(chain@.len() as int) =~= chain@);
    Ok(set)
}

/// The byte at `p` once the splices `f` (each replacing its range with as many bytes)
/// are laid over `source`.
pub open spec fn patched_at(f: Seq<Splice>, source: Seq<u8>, p: int) -> u8
    decreases f.len(),
{
    if f.len() == 0 {
        source[p]
    } else if f.last().range.start <= p < f.last().range.end {
        f.last().bytes@[p - f.last().range.start]
    } else {
        patched_at(f.drop_last(), source, p)
    }
}

/// The byte at `p` once the `size` field of every property of `chain` is raised by
/// `delta`.
pub open spec fn size_patched(source: Seq<u8>, chain: Seq<&PropertyEntry>, delta: i64, p: int) -> u8
    decreases chain.len(),
{
    if chain.len() == 0 {
        source[p]
    } else {
        let off = size_at(source, chain.last().span.start as int);
        if off <= p < off + 4 {
            u32_bytes((u32_at(source, off) + delta) as u32)[p - off]
        } else {
            size_patched(source, chain.drop_last(), delta, p)
        }
    }
}

/// Each splice of `f` keeps its length, and they come in source order without
/// overlapping, all ending by `end`.
pub open spec fn in_place_before(f: Seq<Splice>, end: int) -> bool {
    &&& forall|j: int|
        0 <= j < f.len() ==> (#[trigger] f[j]).range.start <= f[j].range.end && f[j].bytes@.len() == f[j].range.end
            - f[j].range.start
    &&& forall|i: int, j: int| 0 <= i < j < f.len() ==> (#[trigger] f[i]).range.end <= (#[trigger] f[j]).range.start
    &&& (f.len() > 0 ==> f.last().range.end <= end)
}

proof fn lemma_sort_one(v: Splice)
    ensures
        sort_splices(seq![v]) == seq![v],
{
    let one = seq![v];
    assert(one.drop_last() =~= Seq::<Splice>::empty());
    assert(one.last() == v);
    assert(sort_splices(Seq::<Splice>::empty()) == Seq::<Splice>::empty());
    assert(insert_sorted(Seq::<Splice>::empty(), v) == seq![v]);
    assert(sort_splices(one) == insert_sorted(sort_splices(one.drop_last()), one.last()));
}

/// Inserting `x` into `fp + q`, where `fp` ends no later than `x` starts and every
/// splice of `q` starts after it, puts `x` between the two.
proof fn lemma_insert_between(fp: Seq<Splice>, q: Seq<Splice>, x: Splice)
    requires
        fp.len() > 0 ==> fp.last().range.start <= x.range.start,
        forall|k: int| 0 <= k < q.len() ==> (#[trigger] q[k]).range.start > x.range.start,
    ensures
        insert_sorted(fp + q, x) == fp.push(x) + q,
    decreases q.len(),
{
    if q.len() == 0 {
        assert(fp + q =~= fp);
        assert(fp.push(x) + q =~= fp.push(x));
        if fp.len() == 0 {
            assert(insert_sorted(fp, x) == seq![x]);
            assert(fp.push(x) =~= seq![x]);
        }
    } else {
        let qi = q.drop_last();
        assert((fp + q).drop_last() =~= fp + qi);
        assert((fp + q).last() == q.last());
        assert(q.last() == q[q.len() - 1]);
        assert forall|k: int| 0 <= k < qi.len() implies (#[trigger] qi[k]).range.start > x.range.start by {
            assert(qi[k] == q[k]);
        }
        lemma_insert_between(fp, qi, x);
        assert((fp.push(x) + qi).push(q.last()) =~= fp.push(x) + q);
    }
}

/// Sorting `pre + f`, where `f` is in strictly increasing start order and starts
/// before every splice of `pre`, puts `f` first and then `pre` sorted.
proof fn lemma_sort_after(pre: Seq<Splice>, f: Seq<Splice>)
    requires
        forall|i: int, j: int| 0 <= i < j < f.len() ==> (#[trigger] f[i]).range.start < (#[trigger] f[j]).range.start,
        forall|j: int, k: int|
            0 <= j < f.len() && 0 <= k < sort_splices(pre).len() ==> (#[trigger] f[j]).range.start < (
            #[trigger] sort_splices(pre)[k]).range.start,
    ensures
        sort_splices(pre + f) == f + sort_splices(pre),
    decreases f.len(),
{
    if f.len() == 0 {
        assert(pre + f =~= pre);
        assert(f + sort_splices(pre) =~= sort_splices(pre));
    } else {
        let fi = f.drop_last();
        let x = f.last();
        assert((pre + f).drop_last() =~= pre + fi);
        assert((pre + f).last() == x);
        assert(x == f[f.len() - 1]);
        assert forall|i: int, j: int| 0 <= i < j < fi.len() implies (#[trigger] fi[i]).range.start < (
        #[trigger] fi[j]).range.start by {
            assert(fi[i] == f[i] && fi[j] == f[j]);
        }
        assert forall|j: int, k: int|
            0 <= j < fi.len() && 0 <= k < sort_splices(pre).len() implies (#[trigger] fi[j]).range.start < (
            #[trigger] sort_splices(pre)[k]).range.start by {
            assert(fi[j] == f[j]);
        }
        lemma_sort_after(pre, fi);
        let q = sort_splices(pre);
        assert forall|k: int| 0 <= k < q.len() implies (#[trigger] q[k]).range.start > x.range.start by {
            assert(f[f.len() - 1].range.start < q[k].range.start);
        }
        if fi.len() > 0 {
            assert(fi.last() == f[f.len() - 2]);
            assert(f[f.len() - 2].range.start < f[f.len() - 1].range.start);
        }
        lemma_insert_between(fi, q, x);
        assert(fi.push(x) =~= f);
    }
}

proof fn lemma_in_place_init(f: Seq<Splice>, end: int)
    requires
        in_place_before(f, end),
        f.len() > 0,
    ensures
        in_place_before(f.drop_last(), f.last().range.start as int),
        f.last().range.start <= f.last().range.end,
        f.last().bytes@.len() == f.last().range.end - f.last().range.start,
        f.last().range.end <= end,
{
    let init = f.drop_last();
    let x = f.last();
    assert(x == f[f.len() - 1]);
    assert forall|j: int| 0 <= j < init.len() implies (#[trigger] init[j]).range.start <= init[j].range.end
        && init[j].bytes@.len() == init[j].range.end - init[j].range.start by {
        assert(init[j] == f[j]);
    }
    assert forall|i: int, j: int| 0 <= i < j < init.len() implies (#[trigger] init[i]).range.end <= (
    #[trigger] init[j]).range.start by {
        assert(init[i] == f[i] && init[j] == f[j]);
    }
    if init.len() > 0 {
        assert(init.last() == f[f.len() - 2]);
        assert(f[f.len() - 2].range.end <= f[f.len() - 1].range.start);
    }
}

#[verifier::rlimit(40)]
#[verifier::spinoff_prover]
proof fn lemma_pieces_in_place(f: Seq<Splice>, source: Seq<u8>, end: int)
    requires
        in_place_before(f, end),
        end <= source.len(),
    ensures
        pieces(f, source).len() == tail_start(f),
        forall|p: int| 0 <= p < tail_start(f) ==> #[trigger] pieces(f, source)[p] == patched_at(f, source, p),
    decreases f.len(),
{
    if f.len() > 0 {
        let init = f.drop_last();
        let x = f.last();
        lemma_in_place_init(f, end);
        lemma_pieces_in_place(init, source, x.range.start as int);
        let pi = pieces(init, source);
        let gap = source.subrange(tail_start(init), x.range.start as int);
        assert(pieces(f, source) == pi + gap + x.bytes@);
        assert forall|p: int| 0 <= p < tail_start(f) implies #[trigger] pieces(f, source)[p] == patched_at(f, source, p) by {
            if p < tail_start(init) {
                assert(pieces(f, source)[p] == pi[p]);
            } else if p < x.range.start {
                assert(pieces(f, source)[p] == gap[p - tail_start(init)]);
                lemma_patched_past(init, source, p);
            } else {
                assert(pieces(f, source)[p] == x.bytes@[p - x.range.start]);
            }
        }
    }
}

/// Past every splice of `f`, the patched byte is the source's.
proof fn lemma_patched_past(f: Seq<Splice>, source: Seq<u8>, p: int)
    requires
        forall|j: int| 0 <= j < f.len() ==> (#[trigger] f[j]).range.end <= p,
    ensures
        patched_at(f, source, p) == source[p],
    decreases f.len(),
{
    if f.len() > 0 {
        assert(f.last() == f[f.len() - 1]);
        assert forall|j: int| 0 <= j < f.drop_last().len() implies (#[trigger] f.drop_last()[j]).range.end <= p by {
            assert(f.drop_last()[j] == f[j]);
        }
        lemma_patched_past(f.drop_last(), source, p);
    }
}

/// Law: the splices `replace_property_value` returns, when the size fields of the
/// chain's tags come in order before the value they frame, apply cleanly: the output
/// is the source with the value region `vs..ve` replaced by `new_value`, every chain
/// entry's `size` field raised by `delta` (the change in length), and every other
/// byte kept.
#[verifier::rlimit(40)]
#[verifier::spinoff_prover]
pub proof fn replace_applies(
    source: Seq<u8>,
    chain: Seq<&PropertyEntry>,
    new_value: Seq<u8>,
    vs: int,
    ve: int,
    delta: i64,
    s: Seq<Splice>,
)
    requires
        0 <= vs <= ve <= source.len(),
        delta == new_value.len() - (ve - vs),
        s.len() >= 1,
        s[0].range.start == vs && s[0].range.end == ve,
        s[0].bytes@ == new_value,
        delta == 0 ==> s.len() == 1,
        delta != 0 ==> are_size_fixups(s.skip(1), source, chain, delta),
        forall|i: int, j: int|
            0 <= i < j < chain.len() ==> size_at(source, (#[trigger] chain[i]).span.start as int) + 4 <= size_at(
                source,
                (#[trigger] chain[j]).span.start as int,
            ),
        forall|j: int| 0 <= j < chain.len() ==> size_at(source, (#[trigger] chain[j]).span.start as int) + 4 <= vs,
    ensures
        ({
            let sorted = sort_splices(s);
            let out = assembled(sorted, source);
            &&& no_overlap(sorted)
            &&& fits_source(sorted, source.len() as int)
            &&& out.len() == source.len() + delta
            &&& forall|p: int|
                0 <= p < vs ==> #[trigger] out[p] == if delta == 0 {
                    source[p]
                } else {
                    size_patched(source, chain, delta, p)
                }
            &&& out.subrange(vs, vs + new_value.len()) == new_value
            &&& out.subrange(vs + new_value.len(), out.len() as int) == source.subrange(ve, source.len() as int)
        }),
{
    let v = s[0];
    let f = s.skip(1);
    assert(s =~= seq![v] + f);
    if delta != 0 {
        lemma_u32_bytes_len(f, source, chain, delta);
    }
    assert(in_place_before(f, vs)) by {
        if delta != 0 {
            assert forall|i: int, j: int| 0 <= i < j < f.len() implies (#[trigger] f[i]).range.end <= (
            #[trigger] f[j]).range.start by {
                assert(size_at(source, chain[i].span.start as int) + 4 <= size_at(source, chain[j].span.start as int));
            }
            if f.len() > 0 {
                assert(size_at(source, chain[f.len() - 1].span.start as int) + 4 <= vs);
            }
        }
    }
    assert forall|j: int| 0 <= j < f.len() implies (#[trigger] f[j]).range.start < v.range.start by {
        if f.len() > 0 {
            assert(f[j].range.start <= f[j].range.end);
            if j < f.len() - 1 {
                assert(f[j].range.end <= f[f.len() - 1].range.start);
            }
        }
    }
    lemma_sort_one(v);
    lemma_sort_after(seq![v], f);
    let sorted = f.push(v);
    assert(f + seq![v] =~= sorted);
    assert(sort_splices(s) == sorted);
    lemma_pieces_in_place(f, source, vs);
    assert(sorted.drop_last() =~= f);
    assert forall|j: int| 0 <= j < sorted.len() - 1 implies (#[trigger] sorted[j]).range.end <= sorted[j + 1].range.start by {
        assert(sorted[j] == f[j]);
        if j < f.len() - 1 {
            assert(sorted[j + 1] == f[j + 1]);
            assert(f[j].range.end <= f[j + 1].range.start);
        }
    }
    let out = assembled(sorted, source);
    let pf = pieces(f, source);
    let gap = source.subrange(tail_start(f), vs);
    let rest = source.subrange(ve, source.len() as int);
    assert(out =~= pf + gap + new_value + rest);
    assert forall|p: int| 0 <= p < vs implies #[trigger] out[p] == if delta == 0 {
        source[p]
    } else {
        size_patched(source, chain, delta, p)
    } by {
        if p < tail_start(f) {
            assert(out[p] == pf[p]);
        } else {
            assert(out[p] == gap[p - tail_start(f)]);
            lemma_patched_past(f, source, p);
        }
        if delta == 0 {
            assert(f.len() == 0);
        } else {
            lemma_size_patched(f, source, chain, delta, p);
        }
    }
    assert(out.subrange(vs, vs + new_value.len()) =~= new_value);
    assert(out.subrange(vs + new_value.len(), out.len() as int) =~= rest);
}

proof fn lemma_sort_two(a: Splice, b: Splice)
    requires
        a.range.start > b.range.start,
    ensures
        sort_splices(seq![a, b]) == seq![b, a],
{
    let two = seq![a, b];
    lemma_sort_one(a);
    assert(two.drop_last() =~= seq![a]);
    assert(two.last() == b);
    assert(sort_splices(two) == insert_sorted(sort_splices(two.drop_last()), two.last()));
    assert(seq![a].drop_last() =~= Seq::<Splice>::empty());
    assert(insert_sorted(Seq::<Splice>::empty(), b) == seq![b]);
    assert(insert_sorted(seq![a], b) == insert_sorted(Seq::<Splice>::empty(), b).push(a));
    assert(seq![b].push(a) =~= seq![b, a]);
}

/// Law: the splices `insert_map_entry` returns, when the size fields of the chain's
/// tags come in order before the map's entry count at `co`, apply cleanly: the output
/// is the source with `entry` inserted at the map's end `end`, the entry count
/// rewritten to `n + 1`, every chain entry's `size` raised by `delta` (the entry's
/// length), and every other byte kept, so the map's existing entries keep their bytes
/// and their order.
#[verifier::rlimit(40)]
#[verifier::spinoff_prover]
pub proof fn insert_applies(
    source: Seq<u8>,
    chain: Seq<&PropertyEntry>,
    entry: Seq<u8>,
    co: int,
    end: int,
    n: int,
    delta: i64,
    s: Seq<Splice>,
)
    requires
        0 <= co,
        co + 4 <= end <= source.len(),
        0 <= n + 1 <= u32::MAX,
        delta == entry.len(),
        s.len() >= 2,
        s[0].range.start == end && s[0].range.end == end,
        s[0].bytes@ == entry,
        s[1].range.start == co && s[1].range.end == co + 4,
        s[1].bytes@ == u32_bytes((n + 1) as u32),
        delta == 0 ==> s.len() == 2,
        delta != 0 ==> are_size_fixups(s.skip(2), source, chain, delta),
        forall|i: int, j: int|
            0 <= i < j < chain.len() ==> size_at(source, (#[trigger] chain[i]).span.start as int) + 4 <= size_at(
                source,
                (#[trigger] chain[j]).span.start as int,
            ),
        forall|j: int| 0 <= j < chain.len() ==> size_at(source, (#[trigger] chain[j]).span.start as int) + 4 <= co,
    ensures
        ({
            let sorted = sort_splices(s);
            let out = assembled(sorted, source);
            &&& no_overlap(sorted)
            &&& fits_source(sorted, source.len() as int)
            &&& out.len() == source.len() + delta
            &&& forall|p: int|
                0 <= p < co ==> #[trigger] out[p] == if delta == 0 {
                    source[p]
                } else {
                    size_patched(source, chain, delta, p)
                }
            &&& out.subrange(co, co + 4) == u32_bytes((n + 1) as u32)
            &&& out.subrange(co + 4, end) == source.subrange(co + 4, end)
            &&& out.subrange(end, end + entry.len()) == entry
            &&& out.subrange(end + entry.len(), out.len() as int) == source.subrange(end, source.len() as int)
        }),
{
    let a = s[0];
    let b = s[1];
    let f = s.skip(2);
    assert(s =~= seq![a, b] + f);
    crate::gvas::primitives::lemma_read_back_u32((n + 1) as u32, Seq::empty(), Seq::empty());
    assert(Seq::<u8>::empty() + b.bytes@ + Seq::<u8>::empty() =~= b.bytes@);
    if delta != 0 {
        lemma_u32_bytes_len(f, source, chain, delta);
    }
    let g = f.push(b);
    assert(in_place_before(f, co)) by {
        if delta != 0 {
            assert forall|i: int, j: int| 0 <= i < j < f.len() implies (#[trigger] f[i]).range.end <= (
            #[trigger] f[j]).range.start by {
                assert(size_at(source, chain[i].span.start as int) + 4 <= size_at(source, chain[j].span.start as int));
            }
            if f.len() > 0 {
                assert(size_at(source, chain[f.len() - 1].span.start as int) + 4 <= co);
            }
        }
    }
    assert(in_place_before(g, end)) by {
        assert forall|j: int| 0 <= j < g.len() implies (#[trigger] g[j]).range.start <= g[j].range.end
            && g[j].bytes@.len() == g[j].range.end - g[j].range.start by {
            if j < f.len() {
                assert(g[j] == f[j]);
            }
        }
        assert forall|i: int, j: int| 0 <= i < j < g.len() implies (#[trigger] g[i]).range.end <= (
        #[trigger] g[j]).range.start by {
            assert(g[i] == f[i]);
            if j < f.len() {
                assert(g[j] == f[j]);
            } else {
                if i < f.len() - 1 {
                    assert(f[i].range.end <= f[f.len() - 1].range.start);
                }
                assert(f[i].range.start <= f[i].range.end);
            }
        }
        assert(g.last() == b);
    }
    lemma_sort_two(a, b);
    let pre = seq![a, b];
    assert forall|j: int, k: int|
        0 <= j < f.len() && 0 <= k < sort_splices(pre).len() implies (#[trigger] f[j]).range.start < (
        #[trigger] sort_splices(pre)[k]).range.start by {
        assert(f[j].range.end <= co) by {
            if j < f.len() - 1 {
                assert(f[j].range.end <= f[f.len() - 1].range.start);
            }
            assert(f[f.len() - 1].range.start <= f[f.len() - 1].range.end);
        }
    }
    assert forall|i: int, j: int| 0 <= i < j < f.len() implies (#[trigger] f[i]).range.start < (
    #[trigger] f[j]).range.start by {
        assert(f[i].range.end <= f[j].range.start);
    }
    lemma_sort_after(pre, f);
    let sorted = g.push(a);
    assert(f + seq![b, a] =~= sorted);
    assert(sort_splices(s) == sorted);
    lemma_pieces_in_place(g, source, end);
    assert(sorted.drop_last() =~= g);
    assert forall|j: int| 0 <= j < sorted.len() - 1 implies (#[trigger] sorted[j]).range.end <= sorted[j + 1].range.start by {
        assert(sorted[j] == g[j]);
        if j < g.len() - 1 {
            assert(sorted[j + 1] == g[j + 1]);
        }
    }
    let out = assembled(sorted, source);
    let pg = pieces(g, source);
    let gap = source.subrange(co + 4, end);
    let rest = source.subrange(end, source.len() as int);
    assert(tail_start(g) == co + 4);
    assert(out =~= pg + gap + entry + rest);
    assert forall|p: int| 0 <= p < co implies #[trigger] out[p] == if delta == 0 {
        source[p]
    } else {
        size_patched(source, chain, delta, p)
    } by {
        assert(out[p] == pg[p]);
        assert(g.drop_last() =~= f);
        assert(patched_at(g, source, p) == patched_at(f, source, p));
        if f.len() == 0 || p >= tail_start(f) {
            lemma_patched_past(f, source, p);
        }
        if delta != 0 {
            lemma_size_patched(f, source, chain, delta, p);
        }
    }
    assert forall|p: int| co <= p < co + 4 implies #[trigger] out[p] == b.bytes@[p - co] by {
        assert(out[p] == pg[p]);
    }
    assert(out.subrange(co, co + 4) =~= u32_bytes((n + 1) as u32));
    assert(out.subrange(co + 4, end) =~= gap);
    assert(out.subrange(end, end + entry.len()) =~= entry);
    assert(out.subrange(end + entry.len(), out.len() as int) =~= rest);
}

/// Law: the splices `remove_map_entry` returns, when the size fields of the chain's
/// tags come in order before the map's entry count at `co`, apply cleanly: the output
/// is the source with the entry's bytes `lo..hi` cut out, the entry count rewritten to
/// `n - 1`, every chain entry's `size` lowered by the entry's length (`delta` is its
/// negation), and every other byte kept, so the other entries keep their bytes and
/// their order.
#[verifier::rlimit(40)]
#[verifier::spinoff_prover]
pub proof fn remove_applies(
    source: Seq<u8>,
    chain: Seq<&PropertyEntry>,
    co: int,
    lo: int,
    hi: int,
    n: int,
    delta: i64,
    s: Seq<Splice>,
)
    requires
        0 <= co,
        co + 4 <= lo <= hi <= source.len(),
        1 <= n <= u32::MAX + 1,
        delta == -(hi - lo),
        s.len() >= 2,
        s[0].range.start == lo && s[0].range.end == hi,
        s[0].bytes@ == Seq::<u8>::empty(),
        s[1].range.start == co && s[1].range.end == co + 4,
        s[1].bytes@ == u32_bytes((n - 1) as u32),
        delta == 0 ==> s.len() == 2,
        delta != 0 ==> are_size_fixups(s.skip(2), source, chain, delta),
        forall|i: int, j: int|
            0 <= i < j < chain.len() ==> size_at(source, (#[trigger] chain[i]).span.start as int) + 4 <= size_at(
                source,
                (#[trigger] chain[j]).span.start as int,
            ),
        forall|j: int| 0 <= j < chain.len() ==> size_at(source, (#[trigger] chain[j]).span.start as int) + 4 <= co,
    ensures
        ({
            let sorted = sort_splices(s);
            let out = assembled(sorted, source);
            &&& no_overlap(sorted)
            &&& fits_source(sorted, source.len() as int)
            &&& out.len() == source.len() + delta
            &&& forall|p: int|
                0 <= p < co ==> #[trigger] out[p] == if delta == 0 {
                    source[p]
                } else {
                    size_patched(source, chain, delta, p)
                }
            &&& out.subrange(co, co + 4) == u32_bytes((n - 1) as u32)
            &&& out.subrange(co + 4, lo) == source.subrange(co + 4, lo)
            &&& out.subrange(lo, out.len() as int) == source.subrange(hi, source.len() as int)
        }),
{
    let a = s[0];
    let b = s[1];
    let f = s.skip(2);
    assert(s =~= seq![a, b] + f);
    crate::gvas::primitives::lemma_read_back_u32((n - 1) as u32, Seq::empty(), Seq::empty());
    assert(Seq::<u8>::empty() + b.bytes@ + Seq::<u8>::empty() =~= b.bytes@);
    if delta != 0 {
        lemma_u32_bytes_len(f, source, chain, delta);
    }
    let g = f.push(b);
    assert(in_place_before(f, co)) by {
        if delta != 0 {
            assert forall|i: int, j: int| 0 <= i < j < f.len() implies (#[trigger] f[i]).range.end <= (
            #[trigger] f[j]).range.start by {
                assert(size_at(source, chain[i].span.start as int) + 4 <= size_at(source, chain[j].span.start as int));
            }
            if f.len() > 0 {
                assert(size_at(source, chain[f.len() - 1].span.start as int) + 4 <= co);
            }
        }
    }
    assert(in_place_before(g, lo)) by {
        assert forall|j: int| 0 <= j < g.len() implies (#[trigger] g[j]).range.start <= g[j].range.end
            && g[j].bytes@.len() == g[j].range.end - g[j].range.start by {
            if j < f.len() {
                assert(g[j] == f[j]);
            }
        }
        assert forall|i: int, j: int| 0 <= i < j < g.len() implies (#[trigger] g[i]).range.end <= (
        #[trigger] g[j]).range.start by {
            assert(g[i] == f[i]);
            if j < f.len() {
                assert(g[j] == f[j]);
            } else {
                if i < f.len() - 1 {
                    assert(f[i].range.end <= f[f.len() - 1].range.start);
                }
                assert(f[i].range.start <= f[i].range.end);
            }
        }
        assert(g.last() == b);
    }
    lemma_sort_two(a, b);
    let pre = seq![a, b];
    assert forall|j: int, k: int|
        0 <= j < f.len() && 0 <= k < sort_splices(pre).len() implies (#[trigger] f[j]).range.start < (
        #[trigger] sort_splices(pre)[k]).range.start by {
        assert(f[j].range.end <= co) by {
            if j < f.len() - 1 {
                assert(f[j].range.end <= f[f.len() - 1].range.start);
            }
            assert(f[f.len() - 1].range.start <= f[f.len() - 1].range.end);
        }
    }
    assert forall|i: int, j: int| 0 <= i < j < f.len() implies (#[trigger] f[i]).range.start < (
    #[trigger] f[j]).range.start by {
        assert(f[i].range.end <= f[j].range.start);
    }
    lemma_sort_after(pre, f);
    let sorted = g.push(a);
    assert(f + seq![b, a] =~= sorted);
    assert(sort_splices(s) == sorted);
    lemma_pieces_in_place(g, source, lo);
    assert(sorted.drop_last() =~= g);
    assert forall|j: int| 0 <= j < sorted.len() - 1 implies (#[trigger] sorted[j]).range.end <= sorted[j + 1].range.start by {
        assert(sorted[j] == g[j]);
        if j < g.len() - 1 {
            assert(sorted[j + 1] == g[j + 1]);
        }
    }
    let out = assembled(sorted, source);
    let pg = pieces(g, source);
    let gap = source.subrange(co + 4, lo);
    let rest = source.subrange(hi, source.len() as int);
    assert(tail_start(g) == co + 4);
    assert(out =~= pg + gap + rest);
    assert forall|p: int| 0 <= p < co implies #[trigger] out[p] == if delta == 0 {
        source[p]
    } else {
        size_patched(source, chain, delta, p)
    } by {
        assert(out[p] == pg[p]);
        assert(g.drop_last() =~= f);
        assert(patched_at(g, source, p) == patched_at(f, source, p));
        if f.len() == 0 || p >= tail_start(f) {
            lemma_patched_past(f, source, p);
        }
        if delta != 0 {
            lemma_size_patched(f, source, chain, delta, p);
        }
    }
    assert forall|p: int| co <= p < co + 4 implies #[trigger] out[p] == b.bytes@[p - co] by {
        assert(out[p] == pg[p]);
    }
    assert(out.subrange(co, co + 4) =~= u32_bytes((n - 1) as u32));
    assert(out.subrange(co + 4, lo) =~= gap);
    assert(out.subrange(lo, out.len() as int) =~= rest);
}

/// The `size` field offset of the tag at the start of `e`.
pub open spec fn size_off(source: Seq<u8>, e: &PropertyEntry) -> int {
    size_at(source, e.span.start as int)
}

proof fn lemma_size_patched_outside(source: Seq<u8>, chain: Seq<&PropertyEntry>, delta: i64, p: int)
    requires
        forall|j: int| 0 <= j < chain.len() ==> !(size_off(source, #[trigger] chain[j]) <= p < size_off(source, chain[j]) + 4),
    ensures
        size_patched(source, chain, delta, p) == source[p],
    decreases chain.len(),
{
    if chain.len() > 0 {
        let ci = chain.drop_last();
        assert(chain.last() == chain[chain.len() - 1]);
        assert forall|j: int| 0 <= j < ci.len() implies !(size_off(source, #[trigger] ci[j]) <= p < size_off(source, ci[j]) + 4) by {
            assert(ci[j] == chain[j]);
        }
        lemma_size_patched_outside(source, ci, delta, p);
    }
}

proof fn lemma_size_patched_inside(source: Seq<u8>, chain: Seq<&PropertyEntry>, delta: i64, p: int, i: int)
    requires
        0 <= i < chain.len(),
        size_off(source, chain[i]) <= p < size_off(source, chain[i]) + 4,
        forall|a: int, b: int| 0 <= a < b < chain.len() ==> size_off(source, #[trigger] chain[a]) + 4 <= size_off(source, #[trigger] chain[b]),
    ensures
        size_patched(source, chain, delta, p) == u32_bytes((u32_at(source, size_off(source, chain[i])) + delta) as u32)[p
            - size_off(source, chain[i])],
    decreases chain.len(),
{
    let ci = chain.drop_last();
    assert(chain.last() == chain[chain.len() - 1]);
    if i < chain.len() - 1 {
        assert(size_off(source, chain[i]) + 4 <= size_off(source, chain[chain.len() - 1]));
        assert forall|a: int, b: int| 0 <= a < b < ci.len() implies size_off(source, #[trigger] ci[a]) + 4 <= size_off(source, #[trigger] ci[b]) by {
            assert(ci[a] == chain[a] && ci[b] == chain[b]);
        }
        assert(ci[i] == chain[i]);
        lemma_size_patched_inside(source, ci, delta, p, i);
    }
}

proof fn lemma_fstring_end_same(a: Seq<u8>, b: Seq<u8>, p: int)
    requires
        fstring_end(a, p) is Some,
        b.len() >= a.len(),
        forall|q: int| p <= q < p + 4 ==> a[q] == b[q],
    ensures
        fstring_end(b, p) == fstring_end(a, p),
{
    assert(a.subrange(p, p + 4) =~= b.subrange(p, p + 4));
}

/// Law: taking back out of a map the entry that an insertion added restores the
/// save. `s1` are the splices of an insertion of `entry` at the map's end `end`
/// (the entry count at `co` going from `n` to `n + 1` and each chain `size` up by
/// the entry's length), as [`insert_applies`] describes them; `s2` are the splices
/// of a removal of the bytes `end..end + entry.len()` from the result (the count
/// going back to `n` and each `size` down again). The chain's tags precede one
/// another, each `size` field before the next tag, and the insertion moved no
/// `size` out of range.
#[verifier::rlimit(60)]
#[verifier::spinoff_prover]
pub proof fn insert_then_remove_restores(
    source: Seq<u8>,
    chain: Seq<&PropertyEntry>,
    entry: Seq<u8>,
    co: int,
    end: int,
    n: int,
    s1: Seq<Splice>,
    s2: Seq<Splice>,
)
    requires
        0 <= co,
        co + 4 <= end <= source.len(),
        0 <= n + 1 <= u32::MAX,
        u32_at(source, co) == n,
        entry.len() <= i64::MAX,
        s1.len() >= 2,
        s1[0].range.start == end && s1[0].range.end == end,
        s1[0].bytes@ == entry,
        s1[1].range.start == co && s1[1].range.end == co + 4,
        s1[1].bytes@ == u32_bytes((n + 1) as u32),
        entry.len() == 0 ==> s1.len() == 2,
        entry.len() != 0 ==> are_size_fixups(s1.skip(2), source, chain, entry.len() as i64),
        forall|j: int| #![trigger chain[j]]
            0 <= j < chain.len() ==> fstring_end(source, chain[j].span.start as int) is Some && fstring_end(
                source,
                fstring_end(source, chain[j].span.start as int)->0,
            ) is Some,
        forall|i: int, j: int| 0 <= i < j < chain.len() ==> size_off(source, #[trigger] chain[i]) + 4 <= (#[trigger] chain[j]).span.start,
        forall|j: int| 0 <= j < chain.len() ==> size_off(source, #[trigger] chain[j]) + 4 <= co,
        forall|j: int| 0 <= j < chain.len() ==> u32_at(source, size_off(source, #[trigger] chain[j])) + entry.len() <= u32::MAX,
        ({
            let out1 = assembled(sort_splices(s1), source);
            &&& s2.len() >= 2
            &&& s2[0].range.start == end && s2[0].range.end == end + entry.len()
            &&& s2[0].bytes@ == Seq::<u8>::empty()
            &&& s2[1].range.start == co && s2[1].range.end == co + 4
            &&& s2[1].bytes@ == u32_bytes(n as u32)
            &&& entry.len() == 0 ==> s2.len() == 2
            &&& entry.len() != 0 ==> are_size_fixups(s2.skip(2), out1, chain, (-entry.len()) as i64)
        }),
    ensures
        assembled(sort_splices(s2), assembled(sort_splices(s1), source)) == source,
{
    let delta = entry.len() as i64;
    let out1 = assembled(sort_splices(s1), source);
    // Each tag's names come before its own size field.
    assert forall|j: int| 0 <= j < chain.len() implies (#[trigger] chain[j]).span.start + 8 <= size_off(source, chain[j]) by {
        let f1 = fstring_end(source, chain[j].span.start as int);
    }
    assert forall|i: int, j: int| 0 <= i < j < chain.len() implies size_off(source, #[trigger] chain[i]) + 4 <= size_off(
        source,
        #[trigger] chain[j],
    ) by {
        assert(chain[j].span.start + 8 <= size_off(source, chain[j]));
    }
    insert_applies(source, chain, entry, co, end, n, delta, s1);
    assert(out1.len() == source.len() + delta);
    // Below `co`, the insertion changed only the size fields.
    assert forall|q: int|
        0 <= q < co && (forall|j: int| 0 <= j < chain.len() ==> !(size_off(source, #[trigger] chain[j]) <= q < size_off(source, chain[j]) + 4))
        implies #[trigger] out1[q] == source[q] by {
        if delta != 0 {
            lemma_size_patched_outside(source, chain, delta, q);
        }
    }
    // So every tag's names, and hence its size field, read the same in the output.
    assert forall|j: int| 0 <= j < chain.len() implies size_off(out1, #[trigger] chain[j]) == size_off(source, chain[j]) by {
        let c = chain[j].span.start as int;
        let f1 = fstring_end(source, c)->0;
        let sz = size_off(source, chain[j]);
        assert forall|q: int| c <= q < sz implies out1[q] == source[q] by {
            assert forall|k: int| 0 <= k < chain.len() implies !(size_off(source, #[trigger] chain[k]) <= q < size_off(source, chain[k]) + 4) by {
                if k < j {
                    assert(size_off(source, chain[k]) + 4 <= chain[j].span.start);
                } else if k > j {
                    assert(size_off(source, chain[j]) + 4 <= size_off(source, chain[k]));
                }
            }
        }
        lemma_fstring_end_same(source, out1, c);
        lemma_fstring_end_same(source, out1, f1);
    }
    assert forall|a: int, b: int| 0 <= a < b < chain.len() implies size_at(out1, (#[trigger] chain[a]).span.start as int) + 4 <= size_at(
        out1,
        (#[trigger] chain[b]).span.start as int,
    ) by {
        assert(size_off(out1, chain[a]) == size_off(source, chain[a]));
        assert(size_off(out1, chain[b]) == size_off(source, chain[b]));
        assert(size_off(source, chain[a]) + 4 <= size_off(source, chain[b]));
    }
    assert forall|j: int| 0 <= j < chain.len() implies size_at(out1, (#[trigger] chain[j]).span.start as int) + 4 <= co by {
        assert(size_off(out1, chain[j]) == size_off(source, chain[j]));
    }
    remove_applies(out1, chain, co, end, end + entry.len(), n + 1, (-entry.len()) as i64, s2);
    let out2 = assembled(sort_splices(s2), out1);
    assert(out2.len() == source.len());
    lemma_le_round_trips();
    crate::gvas::primitives::lemma_window_is_encoding(source, co);
    assert forall|p: int| 0 <= p < source.len() implies #[trigger] out2[p] == source[p] by {
        if p < co {
            if delta != 0 {
                let ndelta = (-entry.len()) as i64;
                assert(out2[p] == size_patched(out1, chain, ndelta, p));
                if exists|i: int| 0 <= i < chain.len() && size_off(source, #[trigger] chain[i]) <= p < size_off(source, chain[i]) + 4 {
                    let i = choose|i: int| 0 <= i < chain.len() && size_off(source, #[trigger] chain[i]) <= p < size_off(source, chain[i]) + 4;
                    let off = size_off(source, chain[i]);
                    assert(size_off(out1, chain[i]) == off);
                    assert forall|a: int, b: int| 0 <= a < b < chain.len() implies size_off(out1, #[trigger] chain[a]) + 4 <= size_off(out1, #[trigger] chain[b]) by {
                        assert(size_off(out1, chain[a]) == size_off(source, chain[a]));
                        assert(size_off(out1, chain[b]) == size_off(source, chain[b]));
                        assert(size_off(source, chain[a]) + 4 <= size_off(source, chain[b]));
                    }
                    lemma_size_patched_inside(out1, chain, ndelta, p, i);
                    let old_v = u32_at(source, off);
                    let new_v = (old_v + delta) as u32;
                    assert(new_v == old_v + delta);
                    assert forall|q: int| off <= q < off + 4 implies out1[q] == u32_bytes(new_v)[q - off] by {
                        assert forall|a: int, b: int| 0 <= a < b < chain.len() implies size_off(source, #[trigger] chain[a]) + 4 <= size_off(source, #[trigger] chain[b]) by {
                            assert(chain[b].span.start + 8 <= size_off(source, chain[b]));
                        }
                        lemma_size_patched_inside(source, chain, delta, q, i);
                    }
                    assert(out1.subrange(off, off + 4) =~= u32_bytes(new_v));
                    assert(u32_at(out1, off) == new_v);
                    assert(((u32_at(out1, off) + ndelta) as u32) == old_v);
                    crate::gvas::primitives::lemma_window_is_encoding(source, off);
                    assert(source.subrange(off, off + 4) == u32_bytes(old_v));
                    assert(source[p] == source.subrange(off, off + 4)[p - off]);
                } else {
                    assert forall|j: int| 0 <= j < chain.len() implies !(size_off(out1, #[trigger] chain[j]) <= p < size_off(out1, chain[j]) + 4) by {
                        assert(size_off(out1, chain[j]) == size_off(source, chain[j]));
                    }
                    lemma_size_patched_outside(out1, chain, ndelta, p);
                    assert(out1[p] == source[p]);
                }
            } else {
                assert(out1[p] == source[p]);
            }
        } else if p < co + 4 {
            assert(out2[p] == out2.subrange(co, co + 4)[p - co]);
            assert(source[p] == source.subrange(co, co + 4)[p - co]);
        } else if p < end {
            assert(out2[p] == out2.subrange(co + 4, end)[p - co - 4]);
            assert(out1[p] == out1.subrange(co + 4, end)[p - co - 4]);
            assert(source[p] == source.subrange(co + 4, end)[p - co - 4]);
        } else {
            assert(out2[p] == out2.subrange(end, out2.len() as int)[p - end]);
            assert(out1[p + entry.len()] == out1.subrange(end + entry.len(), out1.len() as int)[p - end]);
            assert(source[p] == source.subrange(end, source.len() as int)[p - end]);
        }
    }
    assert(out2 =~= source);
}

proof fn lemma_u32_bytes_len(f: Seq<Splice>, source: Seq<u8>, chain: Seq<&PropertyEntry>, delta: i64)
    requires
        are_size_fixups(f, source, chain, delta),
    ensures
        forall|j: int| 0 <= j < f.len() ==> (#[trigger] f[j]).bytes@.len() == 4,
{
    assert forall|j: int| 0 <= j < f.len() implies (#[trigger] f[j]).bytes@.len() == 4 by {
        let off = size_at(source, chain[j].span.start as int);
        crate::gvas::primitives::lemma_read_back_u32((u32_at(source, off) + delta) as u32, Seq::empty(), Seq::empty());
        assert(Seq::<u8>::empty() + f[j].bytes@ + Seq::<u8>::empty() =~= f[j].bytes@);
    }
}

proof fn lemma_size_patched(f: Seq<Splice>, source: Seq<u8>, chain: Seq<&PropertyEntry>, delta: i64, p: int)
    requires
        are_size_fixups(f, source, chain, delta),
    ensures
        patched_at(f, source, p) == size_patched(source, chain, delta, p),
    decreases chain.len(),
{
    if chain.len() > 0 {
        let fi = f.drop_last();
        let ci = chain.drop_last();
        assert forall|j: int| 0 <= j < ci.len() implies {
            let off = size_at(source, ci[j].span.start as int);
            &&& (#[trigger] fi[j]).range.start == off
            &&& fi[j].range.end == off + 4
            &&& fi[j].bytes@ == u32_bytes((u32_at(source, off) + delta) as u32)
        } by {
            assert(fi[j] == f[j] && ci[j] == chain[j]);
        }
        assert(f.last() == f[f.len() - 1] && chain.last() == chain[chain.len() - 1]);
        lemma_size_patched(fi, source, ci, delta, p);
    }
}

/// Where the value of the property whose tag starts at `start` begins.
pub open spec fn value_start_at(source: Seq<u8>, start: int, g: bool) -> int {
    if is_none_marker(source, start) {
        fstring_end(source, start)->0
    } else {
        tag_end(source, start, g)->0
    }
}

/// Why `replace_property_value` refuses to put `new_value` into the last property of
/// the non-empty `chain`: a chain entry that does not contain the next, an unreadable
/// tag or `size` field, or a `size` field that the change in length would move out of
/// range.
pub open spec fn replace_error(source: Seq<u8>, chain: Seq<&PropertyEntry>, new_value: Seq<u8>, g: bool, e: EditError) -> bool {
    let leaf = *chain.last();
    let vs = value_start_at(source, leaf.span.start as int, g);
    let delta = (new_value.len() as int - (leaf.span.end as int - vs)) as i64;
    match e {
        EditError::EmptyChain => false,
        EditError::NotNested { outer, inner } => exists|i: int|
            first_unnested(chain, i) && outer == chain[i].span && inner == chain[i + 1].span,
        EditError::Gvas(_) => all_nested(chain) && (!tag_readable(source, leaf.span.start as int, g) || (delta != 0
            && exists|j: int| first_failed_fixup(source, chain, delta, j) && fixup_outcome(source, chain[j].span.start as int, delta) == 1)),
        _ => all_nested(chain) && tag_readable(source, leaf.span.start as int, g) && fixup_error(e, source, chain, delta),
    }
}

/// Why applying the start-sorted splices `s` to a source of `n` bytes is refused: the
/// first two that overlap, or the last one running past the end.
pub open spec fn apply_refused(s: Seq<Splice>, n: int, e: EditError) -> bool {
    match e {
        EditError::OverlappingSplices { first, second } => exists|i: int|
            first_overlap(s, i) && first == s[i].range && second == s[i + 1].range,
        EditError::SpliceOutOfBounds { range, source_len } => {
            &&& no_overlap(s)
            &&& s.len() > 0
            &&& s.last().range.end > n
            &&& range == s.last().range
            &&& source_len == n
        },
        _ => false,
    }
}

/// Replaces one property's entire value region and patches the `size` field of that
/// property's own tag plus every ancestor's.
///
/// `chain` runs outermost-first and must end with the property being edited. Each
/// entry must physically contain the next; that's checked, not assumed.
pub fn replace_property_value(
    source: &[u8],
    chain: &[&PropertyEntry],
    new_value: Vec<u8>,
    has_property_guid: bool,
) -> (r: Result<SpliceSet, EditError>)
    requires
        source@.len() + 8 <= usize::MAX,
        source@.len() <= i64::MAX,
        new_value@.len() <= i64::MAX,
        chain@.len() > 0 && all_nested(chain@) && tag_readable(source@, chain@.last().span.start as int, has_property_guid)
            ==> value_start_at(source@, chain@.last().span.start as int, has_property_guid) <= chain@.last().span.end,
    ensures
        chain@.len() == 0 ==> r == Err::<SpliceSet, EditError>(EditError::EmptyChain),
        chain@.len() > 0 ==> match r {
            Ok(_) => true,
            Err(e) => replace_error(source@, chain@, new_value@, has_property_guid, e),
        },
        chain@.len() > 0 ==> {
            let leaf = *chain@.last();
            let g = has_property_guid;
            let vs = value_start_at(source@, leaf.span.start as int, g);
            let delta = (new_value@.len() as int - (leaf.span.end as int - vs)) as i64;
            match r {
                Ok(set) => {
                    &&& all_nested(chain@)
                    &&& tag_readable(source@, leaf.span.start as int, g)
                    &&& set.splices_view().len() >= 1
                    &&& set.splices_view()[0].range == ((vs as usize)..leaf.span.end)
                    &&& set.splices_view()[0].bytes@ == new_value@
                    &&& delta == 0 ==> set.splices_view().len() == 1
                    &&& delta != 0 ==> are_size_fixups(set.splices_view().skip(1), source@, chain@, delta)
                },
                Err(EditError::EmptyChain) => false,
                Err(EditError::NotNested { outer, inner }) => exists|i: int|
                    first_unnested(chain@, i) && outer == chain@[i].span && inner == chain@[i + 1].span,
                Err(EditError::Gvas(_)) => all_nested(chain@) && (!tag_readable(source@, leaf.span.start as int, g)
                    || (delta != 0 && exists|j: int| first_failed_fixup(source@, chain@, delta, j)
                        && fixup_outcome(source@, chain@[j].span.start as int, delta) == 1)),
                Err(e) => all_nested(chain@) && tag_readable(source@, leaf.span.start as int, g) && fixup_error(
                    e,
                    source@,
                    chain@,
                    delta,
                ),
            }
        },
{
    if chain.len() == 0 {
        return Err(EditError::EmptyChain);
    }
    let leaf = chain[chain.len() - 1];
    check_nesting(chain)?;
    let value_start = match value_offset(source, leaf.span.start, has_property_guid) {
        Ok(v) => v,
        Err(e) => {
            return Err(gvas(e));
        },
    };
    let old_value_len = leaf.span.end - value_start;
    let delta = (new_value.len() as i128 - old_value_len as i128) as i64;
    let mut set = SpliceSet::new();
    set.replace(value_start..leaf.span.end, new_value);
    let fixups = size_fixups(source, chain, delta);
    match fixups {
        Ok(f) => {
            let ghost fs = f.splices_view();
            set.merge(f);
            assert(set.splices_view().skip(1) =~= fs);
            Ok(set)
        },
        Err(e) => {
            proof {
                if e is Gvas {
                    let j = choose|j: int| first_failed_fixup(source@, chain@, delta, j) && {
                        let off = size_at(source@, chain@[j].span.start as int);
                        let outcome = fixup_outcome(source@, chain@[j].span.start as int, delta);
                        if outcome == 1 {
                            e is Gvas
                        } else if outcome == 2 {
                            e == EditError::SpliceOutOfBounds {
                                range: (off as usize)..((off + 4) as usize),
                                source_len: source@.len() as usize,
                            }
                        } else {
                            e == EditError::SizeOutOfRange { offset: off as usize, old_size: u32_at(source@, off), delta }
                        }
                    };
                    assert(fixup_outcome(source@, chain@[j].span.start as int, delta) == 1);
                }
            }
            Err(e)
        },
    }
}


// ---------------------------------------------------------------------------
// Map entries
// ---------------------------------------------------------------------------

/// The raw bytes of one map entry — a key immediately followed by its value, exactly
/// as they sit on the wire. This is the unit that moves between saves.
#[derive(Debug, Clone, PartialEq, Eq)]
pub struct MapEntryBytes(pub Vec<u8>);

/// Offset of the entry count of the map property whose tag starts at `s`.
pub open spec fn map_count_offset(source: Seq<u8>, s: int, path: Seq<char>, lwc: bool, g: bool) -> int {
    match tag_view_at(source, s, g).extra {
        TagExtraView::MapOf { key_type, .. } => map_removed_end(
            source,
            tag_end(source, s, g)->0,
            key_type,
            map_defaults(path).0,
            lwc,
            g,
        )->0,
        _ => 0,
    }
}

/// The number of entries the map property at `s` declares.
pub open spec fn map_entry_count(source: Seq<u8>, s: int, path: Seq<char>, lwc: bool, g: bool) -> nat {
    u32_at(source, map_count_offset(source, s, path, lwc, g)) as nat
}

/// Where the first `i` entries of the map property at `s` end.
pub open spec fn map_entry_bound(source: Seq<u8>, s: int, path: Seq<char>, lwc: bool, g: bool, i: nat) -> int {
    match tag_view_at(source, s, g).extra {
        TagExtraView::MapOf { key_type, value_type } => entries_end(
            source,
            map_count_offset(source, s, path, lwc, g) + 4,
            i,
            key_type,
            map_defaults(path).0,
            value_type,
            map_defaults(path).1,
            lwc,
            g,
        )->0,
        _ => 0,
    }
}

/// The map property `map` walks to exactly its declared end.
pub open spec fn map_walks(source: Seq<u8>, map: PropertyEntry, path: Seq<char>, lwc: bool, g: bool) -> bool {
    layout_map_end(source, map.span.start as int, path, lwc, g) == Some(map.span.end as int)
}

/// What `map_layout` tells about a map that walks: its count offset and entry spans.
proof fn lemma_layout_facts(source: Seq<u8>, map: PropertyEntry, path: Seq<char>, lwc: bool, g: bool, l: MapLayout)
    requires
        map_walks(source, map, path, lwc, g),
        tag_view_at(source, map.span.start as int, g).extra matches TagExtraView::MapOf { key_type, value_type } && {
            let (kd, vd) = map_defaults(path);
            let q = map_removed_end(source, tag_end(source, map.span.start as int, g)->0, key_type, kd, lwc, g)->0;
            &&& l.entry_count_offset == q
            &&& entry_spans_at(l.entries@, source, q + 4, u32_at(source, q) as nat, key_type, kd, value_type, vd, lwc, g)
        },
    ensures
        l.entry_count_offset == map_count_offset(source, map.span.start as int, path, lwc, g),
        l.entries@.len() == map_entry_count(source, map.span.start as int, path, lwc, g),
        forall|i: int|
            0 <= i < l.entries@.len() ==> (#[trigger] l.entries@[i]).start == map_entry_bound(
                source,
                map.span.start as int,
                path,
                lwc,
                g,
                i as nat,
            ) && l.entries@[i].end == map_entry_bound(source, map.span.start as int, path, lwc, g, (i + 1) as nat),
{
}

/// Extracts one entry's bytes so it can be inserted into another save.
pub fn map_entry_bytes(
    source: &[u8],
    map: &PropertyEntry,
    index: usize,
    engine_major: u16,
    has_property_guid: bool,
    path: &str,
) -> (r: Result<MapEntryBytes, EditError>)
    requires
        entry_readable(source@, *map, has_property_guid),
    ensures
        ({
            let lwc = large_world_coordinates(engine_major);
            let g = has_property_guid;
            let s = map.span.start as int;
            let n = map_entry_count(source@, s, path@, lwc, g);
            match r {
                Ok(b) => map_walks(source@, *map, path@, lwc, g) && index < n && b.0@ == source@.subrange(
                    map_entry_bound(source@, s, path@, lwc, g, index as nat),
                    map_entry_bound(source@, s, path@, lwc, g, (index + 1) as nat),
                ),
                Err(EditError::MapEntryOutOfRange { index: i, count }) => map_walks(source@, *map, path@, lwc, g)
                    && i == index && count == n && index >= n,
                Err(EditError::Gvas(_)) => !map_walks(source@, *map, path@, lwc, g),
                Err(_) => false,
            }
        }),
{
    let layout = match map_layout(source, map, engine_major, has_property_guid, path) {
        Ok(l) => l,
        Err(e) => {
            return Err(gvas(e));
        },
    };
    proof {
        lemma_layout_facts(source@, *map, path@, large_world_coordinates(engine_major), has_property_guid, layout);
    }
    if index >= layout.entries.len() {
        return Err(EditError::MapEntryOutOfRange { index, count: layout.entries.len() });
    }
    let span = &layout.entries[index];
    proof {
        lemma_entry_span_inside(source@, *map, path@, large_world_coordinates(engine_major), has_property_guid, layout, index as int);
    }
    Ok(MapEntryBytes(copy_range(source, span.start, span.end)))
}

/// Entry spans lie in order inside the map's value.
proof fn lemma_entry_span_inside(source: Seq<u8>, map: PropertyEntry, path: Seq<char>, lwc: bool, g: bool, l: MapLayout, i: int)
    requires
        map_walks(source, map, path, lwc, g),
        entry_readable(source, map, g),
        0 <= i < l.entries@.len(),
        tag_view_at(source, map.span.start as int, g).extra matches TagExtraView::MapOf { key_type, value_type } && {
            let (kd, vd) = map_defaults(path);
            let q = map_removed_end(source, tag_end(source, map.span.start as int, g)->0, key_type, kd, lwc, g)->0;
            &&& l.entry_count_offset == q
            &&& entry_spans_at(l.entries@, source, q + 4, u32_at(source, q) as nat, key_type, kd, value_type, vd, lwc, g)
        },
    ensures
        l.entries@[i].start <= l.entries@[i].end <= source.len(),
{
    let s = map.span.start as int;
    let t = tag_view_at(source, s, g);
    match t.extra {
        TagExtraView::MapOf { key_type, value_type } => {
            let (kd, vd) = map_defaults(path);
            let q = map_removed_end(source, tag_end(source, s, g)->0, key_type, kd, lwc, g)->0;
            let n = u32_at(source, q) as nat;
            lemma_entries_monotone(source, q + 4, i as nat, n, key_type, kd, value_type, vd, lwc, g);
            lemma_entries_monotone(source, q + 4, (i + 1) as nat, n, key_type, kd, value_type, vd, lwc, g);
            lemma_entries_step(source, q + 4, i as nat, key_type, kd, value_type, vd, lwc, g);
        },
        _ => {},
    }
}

/// The end of a prefix of entries is no later than the end of all of them.
proof fn lemma_entries_monotone(
    source: Seq<u8>,
    p: int,
    m: nat,
    n: nat,
    kt: FStringView,
    kd: crate::gvas::value::StructKind,
    vt: FStringView,
    vd: crate::gvas::value::StructKind,
    lwc: bool,
    g: bool,
)
    requires
        m <= n,
        entries_end(source, p, n, kt, kd, vt, vd, lwc, g) is Some,
    ensures
        entries_end(source, p, m, kt, kd, vt, vd, lwc, g) is Some,
        entries_end(source, p, m, kt, kd, vt, vd, lwc, g)->0 <= entries_end(source, p, n, kt, kd, vt, vd, lwc, g)->0,
    decreases n - m,
{
    if m < n {
        lemma_entries_monotone(source, p, m + 1, n, kt, kd, vt, vd, lwc, g);
        lemma_entries_step(source, p, m, kt, kd, vt, vd, lwc, g);
    }
}

proof fn lemma_entries_step(
    source: Seq<u8>,
    p: int,
    m: nat,
    kt: FStringView,
    kd: crate::gvas::value::StructKind,
    vt: FStringView,
    vd: crate::gvas::value::StructKind,
    lwc: bool,
    g: bool,
)
    requires
        entries_end(source, p, m + 1, kt, kd, vt, vd, lwc, g) is Some,
    ensures
        entries_end(source, p, m, kt, kd, vt, vd, lwc, g) is Some,
        entries_end(source, p, m, kt, kd, vt, vd, lwc, g)->0 <= entries_end(source, p, m + 1, kt, kd, vt, vd, lwc, g)->0,
        entries_end(source, p, m + 1, kt, kd, vt, vd, lwc, g)->0 <= source.len(),
{
    let q = entries_end(source, p, m, kt, kd, vt, vd, lwc, g)->0;
    crate::gvas::value::lemma_by_type_end_forward(source, q, kt, kd, lwc, g);
    let r = crate::gvas::value::by_type_end(source, q, kt, kd, lwc, g)->0;
    crate::gvas::value::lemma_by_type_end_forward(source, r, vt, vd, lwc, g);
}

/// Law: the entry count `map_layout_entry_count` reports for a world map is never
/// below the number of entries `world::open_map` yields for it. A map value that
/// decodes walks, holds exactly the count's number of entries, and `open_map` keeps
/// those of them whose values are property lists.
pub proof fn entry_count_covers_open_map(
    source: Seq<u8>,
    map: PropertyEntry,
    path: Seq<char>,
    engine_major: u16,
    has_property_guid: bool,
    v: Value,
    es: Seq<crate::world::MapEntry>,
)
    requires
        crate::world::decoded_as(source, map, path, engine_major, has_property_guid, v),
        v matches Value::MapEntries(raw) && crate::world::entries_are(es, crate::world::struct_entries(raw@)),
    ensures
        map_walks(source, map, path, large_world_coordinates(engine_major), has_property_guid),
        es.len() <= map_entry_count(
            source,
            map.span.start as int,
            path,
            large_world_coordinates(engine_major),
            has_property_guid,
        ),
{
    reveal(crate::world::decoded_as);
    let raw = v->MapEntries_0;
    lemma_struct_entries_len(raw@);
}

proof fn lemma_struct_entries_len(raw: Seq<(Value, Value)>)
    ensures
        crate::world::struct_entries(raw).len() <= raw.len(),
    decreases raw.len(),
{
    if raw.len() > 0 {
        lemma_struct_entries_len(raw.drop_last());
    }
}

/// How many entries a map holds, counted from its wire layout; 0 when the layout
/// does not walk.
pub fn map_layout_entry_count(source: &[u8], map: &PropertyEntry, engine_major: u16, has_property_guid: bool, path: &str) -> (r: usize)
    requires
        entry_readable(source@, *map, has_property_guid),
    ensures
        r == if map_walks(source@, *map, path@, large_world_coordinates(engine_major), has_property_guid) {
            map_entry_count(source@, map.span.start as int, path@, large_world_coordinates(engine_major), has_property_guid)
        } else {
            0
        },
{
    match map_layout(source, map, engine_major, has_property_guid, path) {
        Ok(l) => {
            proof {
                lemma_layout_facts(source@, *map, path@, large_world_coordinates(engine_major), has_property_guid, l);
            }
            l.entries.len()
        },
        Err(_) => 0,
    }
}

/// The pending-removal count the map property at `start` records is readable.
pub open spec fn removed_count_readable(source: Seq<u8>, start: int, g: bool) -> bool {
    tag_readable(source, start, g) && fits(source, value_start_at(source, start, g), 4)
}

/// Refuses a map that records pending key removals, before the layout walk.
fn reject_removed_keys(source: &[u8], map: &PropertyEntry, has_property_guid: bool) -> (r: Result<(), EditError>)
    requires
        source@.len() + 8 <= usize::MAX,
    ensures
        ({
            let s = map.span.start as int;
            let vs = value_start_at(source@, s, has_property_guid);
            match r {
                Ok(()) => removed_count_readable(source@, s, has_property_guid) && u32_at(source@, vs) == 0,
                Err(EditError::Gvas(_)) => !tag_readable(source@, s, has_property_guid),
                Err(EditError::SpliceOutOfBounds { range, source_len }) => tag_readable(source@, s, has_property_guid)
                    && !fits(source@, vs, 4) && range == ((vs as usize)..((vs + 4) as usize)) && source_len == source@.len(),
                Err(EditError::MapHasRemovedKeys { count }) => removed_count_readable(source@, s, has_property_guid)
                    && count == u32_at(source@, vs) && count != 0,
                Err(_) => false,
            }
        }),
{
    let value_start = match value_offset(source, map.span.start, has_property_guid) {
        Ok(v) => v,
        Err(e) => {
            return Err(gvas(e));
        },
    };
    if source.len() < 4 || value_start > source.len() - 4 {
        return Err(EditError::SpliceOutOfBounds { range: value_start..value_start + 4, source_len: source.len() });
    }
    let count = vstd::bytes::u32_from_le_bytes(slice_subrange(source, value_start, value_start + 4));
    if count != 0 {
        return Err(EditError::MapHasRemovedKeys { count });
    }
    Ok(())
}

/// The chain's last entry is a map property the layout walk can be run on.
pub open spec fn map_chain_ok(source: Seq<u8>, chain: Seq<&PropertyEntry>, g: bool) -> bool {
    chain.len() > 0 ==> {
        let map = *chain.last();
        &&& !is_none_marker(source, map.span.start as int)
        &&& tag_readable(source, map.span.start as int, g) ==> tag_end(source, map.span.start as int, g)->0
            <= map.span.end <= source.len()
    }
}

/// Appends an entry to a `MapProperty`, patching the entry count and enclosing sizes.
///
/// Three things change, and there is no fourth: the entry's bytes go in at the end of
/// the map's value region, the u32 entry count goes up by one, and every enclosing
/// `size` grows by the entry's length. Duplicate keys are not checked here.
pub fn insert_map_entry(
    source: &[u8],
    chain: &[&PropertyEntry],
    entry: &MapEntryBytes,
    engine_major: u16,
    has_property_guid: bool,
    path: &str,
) -> (r: Result<SpliceSet, EditError>)
    requires
        source@.len() + 8 <= usize::MAX,
        entry.0@.len() <= i64::MAX,
        map_chain_ok(source@, chain@, has_property_guid),
    ensures
        chain@.len() == 0 ==> r == Err::<SpliceSet, EditError>(EditError::EmptyChain),
        chain@.len() > 0 ==> {
            let map = *chain@.last();
            let g = has_property_guid;
            let lwc = large_world_coordinates(engine_major);
            let s = map.span.start as int;
            let n = map_entry_count(source@, s, path@, lwc, g);
            let co = map_count_offset(source@, s, path@, lwc, g);
            let delta = entry.0@.len() as i64;
            match r {
                Ok(set) => {
                    &&& all_nested(chain@)
                    &&& removed_count_readable(source@, s, g) && u32_at(source@, value_start_at(source@, s, g)) == 0
                    &&& map_walks(source@, map, path@, lwc, g)
                    &&& n + 1 <= u32::MAX
                    &&& set.splices_view().len() >= 2
                    &&& set.splices_view()[0].range == (map.span.end..map.span.end)
                    &&& set.splices_view()[0].bytes@ == entry.0@
                    &&& set.splices_view()[1].range == ((co as usize)..((co + 4) as usize))
                    &&& set.splices_view()[1].bytes@ == u32_bytes((n + 1) as u32)
                    &&& delta == 0 ==> set.splices_view().len() == 2
                    &&& delta != 0 ==> are_size_fixups(set.splices_view().skip(2), source@, chain@, delta)
                },
                Err(EditError::EmptyChain) => false,
                Err(EditError::NotNested { .. }) => !all_nested(chain@),
                Err(EditError::MapHasRemovedKeys { count }) => all_nested(chain@) && removed_count_readable(source@, s, g)
                    && count == u32_at(source@, value_start_at(source@, s, g)) && count != 0,
                Err(EditError::Gvas(_)) => all_nested(chain@) && (!tag_readable(source@, s, g) || !map_walks(
                    source@,
                    map,
                    path@,
                    lwc,
                    g,
                ) || (delta != 0 && exists|j: int| first_failed_fixup(source@, chain@, delta, j)
                    && fixup_outcome(source@, chain@[j].span.start as int, delta) == 1)),
                Err(EditError::SizeOutOfRange { offset, old_size, delta: d }) if map_walks(source@, map, path@, lwc, g)
                    && n + 1 > u32::MAX => offset == co && d == 1,
                Err(e) => all_nested(chain@) && (fixup_error(e, source@, chain@, delta) || (e is SpliceOutOfBounds
                    && tag_readable(source@, s, g) && !fits(source@, value_start_at(source@, s, g), 4))),
            }
        },
{
    if chain.len() == 0 {
        return Err(EditError::EmptyChain);
    }
    let map = chain[chain.len() - 1];
    check_nesting(chain)?;
    reject_removed_keys(source, map, has_property_guid)?;
    proof {
        assert(tag_end(source@, map.span.start as int, has_property_guid)->0 <= map.span.end <= source@.len());
    }
    let layout = match map_layout(source, map, engine_major, has_property_guid, path) {
        Ok(l) => l,
        Err(e) => {
            return Err(gvas(e));
        },
    };
    proof {
        lemma_layout_facts(source@, *map, path@, large_world_coordinates(engine_major), has_property_guid, layout);
    }
    if layout.entries.len() >= 0xffff_ffff {
        return Err(EditError::SizeOutOfRange {
            offset: layout.entry_count_offset,
            old_size: layout.entries.len() as u32,
            delta: 1,
        });
    }
    let new_count = (layout.entries.len() + 1) as u32;
    let mut set = SpliceSet::new();
    // Zero-length range at the map's end: pure insertion, nothing overwritten.
    set.replace(map.span.end..map.span.end, bytes_to_vec(entry.0.as_slice()));
    let mut count_bytes: Vec<u8> = Vec::new();
    write_u32_le(&mut count_bytes, new_count);
    if layout.entry_count_offset > usize::MAX - 4 {
        proof {
            assert(false);
        }
        return Err(EditError::VerificationFailed);
    }
    set.replace(layout.entry_count_offset..layout.entry_count_offset + 4, count_bytes);
    let ghost two = set.splices_view();
    let fixups = size_fixups(source, chain, entry.0.len() as i64)?;
    let ghost fs = fixups.splices_view();
    set.merge(fixups);
    assert(set.splices_view().skip(2) =~= fs);
    Ok(set)
}

/// Removes one entry from a `MapProperty`. The inverse of [`insert_map_entry`].
pub fn remove_map_entry(
    source: &[u8],
    chain: &[&PropertyEntry],
    index: usize,
    engine_major: u16,
    has_property_guid: bool,
    path: &str,
) -> (r: Result<SpliceSet, EditError>)
    requires
        source@.len() + 8 <= usize::MAX,
        map_chain_ok(source@, chain@, has_property_guid),
    ensures
        chain@.len() == 0 ==> r == Err::<SpliceSet, EditError>(EditError::EmptyChain),
        chain@.len() > 0 ==> {
            let map = *chain@.last();
            let g = has_property_guid;
            let lwc = large_world_coordinates(engine_major);
            let s = map.span.start as int;
            let n = map_entry_count(source@, s, path@, lwc, g);
            let co = map_count_offset(source@, s, path@, lwc, g);
            let lo = map_entry_bound(source@, s, path@, lwc, g, index as nat);
            let hi = map_entry_bound(source@, s, path@, lwc, g, (index + 1) as nat);
            let delta = (-(hi - lo)) as i64;
            match r {
                Ok(set) => {
                    &&& all_nested(chain@)
                    &&& removed_count_readable(source@, s, g) && u32_at(source@, value_start_at(source@, s, g)) == 0
                    &&& map_walks(source@, map, path@, lwc, g)
                    &&& index < n
                    &&& set.splices_view().len() >= 2
                    &&& set.splices_view()[0].range == ((lo as usize)..(hi as usize))
                    &&& set.splices_view()[0].bytes@ == Seq::<u8>::empty()
                    &&& set.splices_view()[1].range == ((co as usize)..((co + 4) as usize))
                    &&& set.splices_view()[1].bytes@ == u32_bytes((n - 1) as u32)
                    &&& delta == 0 ==> set.splices_view().len() == 2
                    &&& delta != 0 ==> are_size_fixups(set.splices_view().skip(2), source@, chain@, delta)
                },
                Err(EditError::EmptyChain) => false,
                Err(EditError::NotNested { .. }) => !all_nested(chain@),
                Err(EditError::MapHasRemovedKeys { count }) => all_nested(chain@) && removed_count_readable(source@, s, g)
                    && count == u32_at(source@, value_start_at(source@, s, g)) && count != 0,
                Err(EditError::MapEntryOutOfRange { index: i, count }) => all_nested(chain@) && map_walks(source@, map, path@, lwc, g)
                    && i == index && count == n && index >= n,
                Err(EditError::Gvas(_)) => all_nested(chain@) && (!tag_readable(source@, s, g) || !map_walks(
                    source@,
                    map,
                    path@,
                    lwc,
                    g,
                ) || (delta != 0 && exists|j: int| first_failed_fixup(source@, chain@, delta, j)
                    && fixup_outcome(source@, chain@[j].span.start as int, delta) == 1)),
                Err(e) => all_nested(chain@) && (fixup_error(e, source@, chain@, delta) || (e is SpliceOutOfBounds
                    && tag_readable(source@, s, g) && !fits(source@, value_start_at(source@, s, g), 4))),
            }
        },
{
    if chain.len() == 0 {
        return Err(EditError::EmptyChain);
    }
    let map = chain[chain.len() - 1];
    check_nesting(chain)?;
    reject_removed_keys(source, map, has_property_guid)?;
    let layout = match map_layout(source, map, engine_major, has_property_guid, path) {
        Ok(l) => l,
        Err(e) => {
            return Err(gvas(e));
        },
    };
    proof {
        lemma_layout_facts(source@, *map, path@, large_world_coordinates(engine_major), has_property_guid, layout);
    }
    if index >= layout.entries.len() {
        return Err(EditError::MapEntryOutOfRange { index, count: layout.entries.len() });
    }
    let span_start = layout.entries[index].start;
    let span_end = layout.entries[index].end;
    let span_len: usize = if span_end >= span_start { span_end - span_start } else { 0 };
    proof {
        lemma_entry_span_inside(source@, *map, path@, large_world_coordinates(engine_major), has_property_guid, layout, index as int);
    }
    let mut set = SpliceSet::new();
    set.replace(span_start..span_end, Vec::new());
    let mut count_bytes: Vec<u8> = Vec::new();
    write_u32_le(&mut count_bytes, (layout.entries.len() - 1) as u32);
    if layout.entry_count_offset > usize::MAX - 4 {
        proof {
            assert(false);
        }
        return Err(EditError::VerificationFailed);
    }
    set.replace(layout.entry_count_offset..layout.entry_count_offset + 4, count_bytes);
    let delta = (0 - (span_len as i128)) as i64;
    let fixups = size_fixups(source, chain, delta)?;
    let ghost fs = fixups.splices_view();
    set.merge(fixups);
    assert(set.splices_view().skip(2) =~= fs);
    Ok(set)
}

// ---------------------------------------------------------------------------
// Scalars
// ---------------------------------------------------------------------------

/// A value to write into an existing scalar property of the same declared type.
#[derive(Debug, Clone, PartialEq, Eq)]
pub enum Scalar {
    Byte(u8),
    Int(i32),
    Int64(i64),
    /// An f32, as its IEEE-754 bit pattern.
    Float(u32),
    /// Encoded as an `FString`; ASCII gets the 1-byte form, anything else UTF-16LE.
    Text(String),
}

impl Scalar {
    pub open spec fn kind_spec(&self) -> &'static str {
        match self {
            Scalar::Byte(_) => "byte",
            Scalar::Int(_) => "int",
            Scalar::Int64(_) => "int64",
            Scalar::Float(_) => "float",
            Scalar::Text(_) => "string",
        }
    }

    fn kind(&self) -> (r: &'static str)
        ensures
            r == self.kind_spec(),
    {
        match self {
            Scalar::Byte(_) => "byte",
            Scalar::Int(_) => "int",
            Scalar::Int64(_) => "int64",
            Scalar::Float(_) => "float",
            Scalar::Text(_) => "string",
        }
    }
}

/// The UTF-16 code units of one character.
pub open spec fn utf16_of_char(c: char) -> Seq<u16> {
    let v = c as u32;
    if v < 0x10000 {
        seq![v as u16]
    } else {
        let w = (v - 0x10000) as u32;
        seq![(0xD800 + (w >> 10u32)) as u16, (0xDC00 + (w & 0x3FFu32)) as u16]
    }
}

/// A text's UTF-16 encoding.
pub open spec fn utf16_encode(text: Seq<char>) -> Seq<u16>
    decreases text.len(),
{
    if text.len() == 0 {
        Seq::empty()
    } else {
        utf16_encode(text.drop_last()) + utf16_of_char(text.last())
    }
}

/// The text encoded as UTF-16, character by character.
fn utf16_units(text: &str) -> (r: Vec<u16>)
    ensures
        r@ == utf16_encode(text@),
{
    let n = text.unicode_len();
    let mut out: Vec<u16> = Vec::new();
    let mut i: usize = 0;
    while i < n
        invariant
            n == text@.len(),
            i <= n,
            out@ == utf16_encode(text@.subrange(0, i as int)),
        decreases n - i,
    {
        proof {
            assert(text@.subrange(0, i + 1).drop_last() =~= text@.subrange(0, i as int));
        }
        let c = text.get_char(i);
        let v: u32 = c as u32;
        let ghost before = out@;
        if v < 0x10000 {
            out.push(v as u16);
        } else {
            let w: u32 = v - 0x10000;
            assert(w >> 10u32 <= 0x3FF && w & 0x3FFu32 <= 0x3FF) by (bit_vector)
                requires
                    w <= 0xFFFFF,
            ;
            out.push((0xD800 + (w >> 10u32)) as u16);
            out.push((0xDC00 + (w & 0x3FFu32)) as u16);
        }
        assert(out@ =~= before + utf16_of_char(c));
        i = i + 1;
    }
    assert(text@.subrange(0, n as int) =~= text@);
    out
}

/// The FString a text is written as: empty, the 1-byte form for ASCII, UTF-16
/// otherwise; both non-empty forms carry their NUL terminator.
pub open spec fn text_fstring(text: Seq<char>) -> FStringView {
    if text.len() == 0 {
        FStringView::Empty
    } else if vstd::utf8::is_ascii_chars(text) {
        FStringView::Ascii { content: vstd::utf8::encode_utf8(text), trailing: seq![0u8] }
    } else {
        FStringView::Utf16 { content: utf16_encode(text), trailing: seq![0u8, 0u8] }
    }
}

proof fn lemma_utf16_encode_front(t: Seq<char>)
    requires
        t.len() > 0,
    ensures
        utf16_encode(t) == utf16_of_char(t[0]) + utf16_encode(t.drop_first()),
    decreases t.len(),
{
    if t.len() == 1 {
        assert(t.drop_last() =~= Seq::<char>::empty());
        assert(t.drop_first() =~= Seq::<char>::empty());
        assert(t.last() == t[0]);
        assert(utf16_encode(Seq::<char>::empty()) == Seq::<u16>::empty());
        assert(utf16_encode(t) == utf16_encode(t.drop_last()) + utf16_of_char(t.last()));
        assert(utf16_encode(t) =~= utf16_of_char(t[0]));
        assert(utf16_of_char(t[0]) + utf16_encode(t.drop_first()) =~= utf16_of_char(t[0]));
    } else {
        lemma_utf16_encode_front(t.drop_last());
        assert(t.drop_last().drop_first() =~= t.drop_first().drop_last());
        assert(t.drop_first().last() == t.last());
        assert(t.drop_last()[0] == t[0]);
        assert(utf16_encode(t) =~= utf16_of_char(t[0]) + utf16_encode(t.drop_first()));
    }
}

proof fn lemma_decode_one_char(c: char, rest: Seq<u16>)
    ensures
        crate::gvas::primitives::lossy_utf16(utf16_of_char(c) + rest) == seq![c] + crate::gvas::primitives::lossy_utf16(rest),
{
    reveal(crate::gvas::primitives::lossy_utf16);
    let v = c as u32;
    let units = utf16_of_char(c) + rest;
    if v < 0x10000 {
        assert(!(0xD800 <= v < 0xE000));
        assert(units[0] == v as u16);
        assert((v as u16) as u32 == v);
        assert(units.subrange(1, units.len() as int) =~= rest);
        assert(((v as u16) as char) == c);
    } else {
        let w = (v - 0x10000) as u32;
        assert(w <= 0xFFFFF);
        assert((w >> 10u32) <= 0x3FF && (w & 0x3FFu32) <= 0x3FF && (w >> 10u32) * 0x400 + (w & 0x3FFu32) == w)
            by (bit_vector)
            requires
                w <= 0xFFFFF,
        ;
        let hi = (0xD800 + (w >> 10u32)) as u16;
        let lo = (0xDC00 + (w & 0x3FFu32)) as u16;
        assert(hi == 0xD800 + (w >> 10u32));
        assert(lo == 0xDC00 + (w & 0x3FFu32));
        assert(units[0] == hi && units[1] == lo);
        assert(units.subrange(2, units.len() as int) =~= rest);
        assert(0x10000 + (hi - 0xD800) * 0x400 + (lo - 0xDC00) == v);
        assert(((0x10000 + (hi - 0xD800) * 0x400 + (lo - 0xDC00)) as char) == c);
    }
}

proof fn lemma_utf16_reads_back(t: Seq<char>)
    ensures
        crate::gvas::primitives::lossy_utf16(utf16_encode(t)) == t,
    decreases t.len(),
{
    if t.len() == 0 {
        reveal(crate::gvas::primitives::lossy_utf16);
        assert(utf16_encode(t) =~= Seq::<u16>::empty());
        assert(t =~= Seq::<char>::empty());
    } else {
        lemma_utf16_encode_front(t);
        lemma_utf16_reads_back(t.drop_first());
        lemma_decode_one_char(t[0], utf16_encode(t.drop_first()));
        assert(seq![t[0]] + t.drop_first() =~= t);
    }
}

/// Law: a text written as an FString reads back as itself. A non-ASCII text is
/// stored as UTF-16 code units that display (each surrogate pair as the character it
/// encodes) as exactly the text; an ASCII text is stored as its UTF-8 bytes, which
/// decode to exactly the text; the empty text is the empty FString.
pub proof fn text_fstring_reads_back(t: Seq<char>)
    ensures
        t.len() == 0 ==> text_fstring(t).display() == t,
        t.len() > 0 && !vstd::utf8::is_ascii_chars(t) ==> text_fstring(t) is Utf16 && text_fstring(t).display() == t,
        t.len() > 0 && vstd::utf8::is_ascii_chars(t) ==> (text_fstring(t) matches FStringView::Ascii { content, .. }
            && vstd::utf8::decode_utf8(content) == t),
{
    lemma_utf16_reads_back(t);
    vstd::utf8::encode_utf8_decode_utf8(t);
}

/// ASCII uses the 1-byte-per-char form, anything else UTF-16LE; both carry the NUL
/// terminator the format counts in its length field.
pub fn encode_text(text: &str) -> (r: FString)
    ensures
        r@ == text_fstring(text@),
{
    if text.is_empty() {
        FString::Empty
    } else if text.is_ascii() {
        let mut trailing: Vec<u8> = Vec::new();
        trailing.push(0);
        assert(trailing@ =~= seq![0u8]);
        FString::Ascii { content: bytes_to_vec(text.as_bytes()), trailing }
    } else {
        let mut trailing: Vec<u8> = Vec::new();
        trailing.push(0);
        trailing.push(0);
        assert(trailing@ =~= seq![0u8, 0u8]);
        FString::Utf16 { content: utf16_units(text), trailing }
    }
}

/// What encoding `value` as a property declared `declared` yields: the bytes, or why
/// not (1 type mismatch, 2 unsupported declared type, 3 an enum-labelled byte).
pub open spec fn scalar_outcome(declared: Seq<char>, extra: TagExtraView, value: Scalar) -> (int, Seq<u8>) {
    if declared == "ByteProperty"@ {
        match (extra, value) {
            (TagExtraView::Byte { enum_type }, Scalar::Byte(v)) => if names(enum_type, "None") {
                (0, seq![v])
            } else {
                (3, Seq::empty())
            },
            _ => (1, Seq::empty()),
        }
    } else if declared == "IntProperty"@ {
        match value {
            Scalar::Int(v) => (0, i32_bytes(v)),
            _ => (1, Seq::empty()),
        }
    } else if declared == "Int64Property"@ {
        match value {
            Scalar::Int64(v) => (0, i64_bytes(v)),
            _ => (1, Seq::empty()),
        }
    } else if declared == "FloatProperty"@ {
        match value {
            Scalar::Float(v) => (0, u32_bytes(v)),
            _ => (1, Seq::empty()),
        }
    } else if declared == "StrProperty"@ || declared == "NameProperty"@ {
        match value {
            Scalar::Text(t) => (0, text_fstring(t@).bytes()),
            _ => (1, Seq::empty()),
        }
    } else {
        (2, Seq::empty())
    }
}

/// Encodes `value` as the property's **declared** type, taken from the tag on disk.
/// The type is never inferred from the caller's `Scalar` — a mismatch is an error.
pub fn encode_scalar(tag: &PropertyTag, value: &Scalar) -> (r: Result<Vec<u8>, EditError>)
    ensures
        ({
            let declared = tag.property_type@.display();
            let property = tag.name@.display();
            let (outcome, bytes) = scalar_outcome(declared, tag.extra@, *value);
            match r {
                Ok(out) => outcome == 0 && out@ == bytes,
                Err(EditError::TypeMismatch { property: p, declared: d, given }) => outcome == 1 && p@ == property
                    && d@ == declared && given == value.kind_spec(),
                Err(EditError::UnsupportedPropertyType { property: p, declared: d }) => p@ == property && (
                (outcome == 2 && d@ == declared) || (outcome == 3 && d@ == declared + " (enum-labelled)"@)),
                Err(_) => false,
            }
        }),
{
    let property = tag.name.display_lossy();
    let declared = tag.property_type.display_lossy();
    let mut out: Vec<u8> = Vec::new();
    if declared == String::from_str("ByteProperty") {
        match (&tag.extra, value) {
            (TagExtra::Byte { enum_type }, Scalar::Byte(v)) => {
                if enum_type.is_ascii_text("None") {
                    out.push(*v);
                    assert(out@ =~= seq![*v]);
                } else {
                    let mut d = declared.clone();
                    d.append(" (enum-labelled)");
                    return Err(EditError::UnsupportedPropertyType { property, declared: d });
                }
            },
            _ => {
                return Err(EditError::TypeMismatch { property, declared, given: value.kind() });
            },
        }
    } else if declared == String::from_str("IntProperty") {
        match value {
            Scalar::Int(v) => write_i32_le(&mut out, *v),
            _ => {
                return Err(EditError::TypeMismatch { property, declared, given: value.kind() });
            },
        }
    } else if declared == String::from_str("Int64Property") {
        match value {
            Scalar::Int64(v) => write_i64_le(&mut out, *v),
            _ => {
                return Err(EditError::TypeMismatch { property, declared, given: value.kind() });
            },
        }
    } else if declared == String::from_str("FloatProperty") {
        match value {
            Scalar::Float(v) => write_u32_le(&mut out, *v),
            _ => {
                return Err(EditError::TypeMismatch { property, declared, given: value.kind() });
            },
        }
    } else if declared == String::from_str("StrProperty") || declared == String::from_str("NameProperty") {
        match value {
            Scalar::Text(v) => {
                let fs = encode_text(v.as_str());
                write_fstring(&mut out, &fs);
            },
            _ => {
                return Err(EditError::TypeMismatch { property, declared, given: value.kind() });
            },
        }
    } else {
        // BoolProperty stores its value in the tag, so it needs a different splice.
        return Err(EditError::UnsupportedPropertyType { property, declared });
    }
    Ok(out)
}

/// Structural verification for an edited buffer: it must re-parse, and the parse must
/// partition it exactly — which holds only if every `size` field agrees with the real
/// byte layout.
pub fn verify_reparses(bytes: &[u8]) -> (r: Result<(), EditError>)
    ensures
        r is Ok <==> parses(bytes@),
        !parses(bytes@) ==> r == Err::<(), EditError>(EditError::Gvas(crate::gvas::parse_failure(bytes@))),
{
    let file = match GvasFile::parse(bytes) {
        Ok(f) => f,
        Err(e) => {
            return Err(gvas(e));
        },
    };
    let written = file.write();
    if !crate::gvas::primitives::bytes_equal(written.as_slice(), bytes) {
        proof {
            assert(false);
        }
        return Err(EditError::VerificationFailed);
    }
    Ok(())
}

} // verus!
