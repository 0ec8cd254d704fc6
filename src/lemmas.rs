//! Facts about the lookups, proved over the spec functions of `cmap`.

use vstd::prelude::*;
use crate::parser::{fits, be_u16, be_u24, be_u32, be_i16};
use crate::cmap::{
    Error, GlyphId, VariationLookup, byte_encoding_glyph, counted_table_fits, cmap_glyph, cmap_variation, default_uvs_offset,
    end_code, first_group, format_of, glyph_from, glyph_result, group_count, group_end, group_glyph,
    group_start, high_byte_glyph, id_delta, id_range_offset, max_sub_header_index, non_default_uvs_offset,
    record_glyph, record_offset, record_variation, seg_count, segment_delta_glyph,
    end_code_search, segmented_coverage_glyph, selector_count, start_code, sub_header_key, subtable_at,
    subtable_glyph, u24_key_search, variation_from, variation_lookup, variation_result, wrap16,
};

verus! {

/// The first `n` end codes of a format 4 subtable ascend.
pub open spec fn end_codes_ascend(d: Seq<u8>, n: int) -> bool {
    forall|j: int, k: int| 0 <= j < k < n ==> #[trigger] end_code(d, j) <= #[trigger] end_code(d, k)
}

/// Records whose 24-bit keys strictly ascend.
pub open spec fn u24_keys_ascending(d: Seq<u8>, base: int, stride: int, num: int) -> bool {
    forall|j: int, k: int|
        0 <= j < k < num ==> #[trigger] be_u24(d, base + stride * j) < #[trigger] be_u24(d, base + stride * k)
}

proof fn lemma_end_code_search_bounds(d: Seq<u8>, cp: int, n: int, lo: int, hi: int)
    requires
        end_codes_ascend(d, n),
        0 <= lo <= hi <= n,
        forall|j: int| 0 <= j < lo ==> #[trigger] end_code(d, j) < cp,
        forall|j: int| hi <= j < n ==> #[trigger] end_code(d, j) >= cp,
    ensures
        lo <= end_code_search(d, cp, lo, hi) <= hi,
        forall|j: int| 0 <= j < end_code_search(d, cp, lo, hi) ==> #[trigger] end_code(d, j) < cp,
        forall|j: int| end_code_search(d, cp, lo, hi) <= j < n ==> #[trigger] end_code(d, j) >= cp,
    decreases hi - lo,
{
    if lo < hi {
        let mid = (lo + hi) / 2;
        if end_code(d, mid) >= cp {
            assert forall|j: int| mid <= j < n implies #[trigger] end_code(d, j) >= cp by {
                if mid < j && j < hi {
                    assert(end_code(d, mid) <= end_code(d, j));
                }
            }
            lemma_end_code_search_bounds(d, cp, n, lo, mid);
        } else {
            assert forall|j: int| 0 <= j < mid + 1 implies #[trigger] end_code(d, j) < cp by {
                if lo <= j && j < mid {
                    assert(end_code(d, j) <= end_code(d, mid));
                }
            }
            lemma_end_code_search_bounds(d, cp, n, mid + 1, hi);
        }
    }
}

proof fn lemma_u24_key_search_finds(d: Seq<u8>, base: int, stride: int, num: int, target: int, lo: int, hi: int, k: int)
    requires
        u24_keys_ascending(d, base, stride, num),
        0 <= lo <= k < hi <= num,
        be_u24(d, base + stride * k) == target,
    ensures
        u24_key_search(d, base, stride, target, lo, hi) == Some(k),
    decreases hi - lo,
{
    let mid = (lo + hi) / 2;
    if k < mid {
        assert(be_u24(d, base + stride * k) < be_u24(d, base + stride * mid));
        lemma_u24_key_search_finds(d, base, stride, num, target, lo, mid, k);
    } else if k > mid {
        assert(be_u24(d, base + stride * mid) < be_u24(d, base + stride * k));
        lemma_u24_key_search_finds(d, base, stride, num, target, mid + 1, hi, k);
    }
}

proof fn lemma_first_group_skips(d: Seq<u8>, num: int, cp: int, j: int, g: int)
    requires
        0 <= j <= g < num,
        group_start(d, g) <= cp <= group_end(d, g),
        forall|i: int| 0 <= i < g ==> !(group_start(d, i) <= cp <= #[trigger] group_end(d, i)),
    ensures
        first_group(d, num, cp, j) == Some(g),
    decreases g - j,
{
    if j < g {
        lemma_first_group_skips(d, num, cp, j + 1, g);
    }
}

/// A lookup depends on the table's bytes and the query alone: equal tables
/// answer every query alike.
pub proof fn lookups_depend_on_bytes_alone(a: Seq<u8>, b: Seq<u8>, cp: int, vs: int)
    requires
        a == b,
    ensures
        cmap_glyph(a, cp) == cmap_glyph(b, cp),
        variation_result(a, cp, vs) == variation_result(b, cp, vs),
{
}

/// A table too short to hold one encoding record maps nothing.
pub proof fn short_table_maps_nothing(cmap: Seq<u8>, cp: int, vs: int)
    requires
        cmap.len() < 12,
    ensures
        cmap_glyph(cmap, cp) is None,
        variation_result(cmap, cp, vs) == Err::<GlyphId, Error>(Error::NoGlyph),
{
}

/// A table whose directory counts no encoding records maps nothing.
pub proof fn empty_directory_maps_nothing(cmap: Seq<u8>, cp: int, vs: int)
    requires
        fits(cmap, 0, 4),
        be_u16(cmap, 2) == 0,
    ensures
        cmap_glyph(cmap, cp) is None,
        variation_result(cmap, cp, vs) == Err::<GlyphId, Error>(Error::NoGlyph),
{
}

/// A subtable with an unknown format code changes no answer: the walk goes on
/// to the next record as if it were not there.
pub proof fn unknown_subtable_is_skipped(cmap: Seq<u8>, cp: int, vs: int, num: int, t: int)
    requires
        0 <= t < num,
        fits(cmap, 4 + 8 * t, 8),
        record_offset(cmap, t) <= cmap.len(),
        fits(subtable_at(cmap, record_offset(cmap, t)), 0, 2),
        format_of(be_u16(subtable_at(cmap, record_offset(cmap, t)), 0)) is None,
    ensures
        glyph_from(cmap, cp, num, t) == glyph_from(cmap, cp, num, t + 1),
        variation_from(cmap, cp, vs, num, t) == variation_from(cmap, cp, vs, num, t + 1),
{
    reveal(subtable_glyph);
    reveal(record_variation);
}

/// Once a subtable gives a nonzero glyph, the subtables after it change nothing.
pub proof fn matching_subtable_hides_later_ones(cmap: Seq<u8>, cp: int, num: int, t: int)
    requires
        0 <= t < num,
        fits(cmap, 4 + 8 * t, 8),
        record_glyph(cmap, t, cp) is Some,
        record_glyph(cmap, t, cp).unwrap() != 0,
    ensures
        glyph_from(cmap, cp, num, t) == record_glyph(cmap, t, cp),
{
}

/// When the end codes of a format 4 subtable ascend, its search lands on the
/// least segment whose `endCode` reaches `cp`, or on `n` when none does.
pub proof fn end_code_search_finds_first(d: Seq<u8>, cp: int, n: int)
    requires
        0 <= n,
        end_codes_ascend(d, n),
    ensures
        0 <= end_code_search(d, cp, 0, n) <= n,
        forall|j: int| 0 <= j < end_code_search(d, cp, 0, n) ==> #[trigger] end_code(d, j) < cp,
        end_code_search(d, cp, 0, n) < n ==> end_code(d, end_code_search(d, cp, 0, n)) >= cp,
{
    lemma_end_code_search_bounds(d, cp, n, 0, n);
}

/// In a format 4 subtable with ascending end codes and no glyph array in use,
/// a code point maps to itself plus `idDelta[k]`, modulo 65536, where `k` is the
/// first segment whose `endCode` reaches it, provided `startCode[k]` does not
/// pass it.
pub proof fn delta_segments_add_delta(d: Seq<u8>, cp: int, k: int)
    requires
        fits(d, 0, 16 + 8 * seg_count(d)),
        0 <= cp <= 0xFFFF,
        end_codes_ascend(d, seg_count(d)),
        forall|j: int| 0 <= j < seg_count(d) ==> #[trigger] id_range_offset(d, seg_count(d), j) == 0,
        0 <= k < seg_count(d),
        end_code(d, k) >= cp,
        forall|j: int| 0 <= j < k ==> #[trigger] end_code(d, j) < cp,
        start_code(d, seg_count(d), k) <= cp,
    ensures
        segment_delta_glyph(d, cp) == Some(wrap16(cp + id_delta(d, seg_count(d), k))),
{
    let n = seg_count(d);
    end_code_search_finds_first(d, cp, n);
    let r = end_code_search(d, cp, 0, n);
    if r < k {
        assert(end_code(d, r) < cp);
    } else if r > k {
        assert(end_code(d, k) < cp);
    }
    assert(id_range_offset(d, n, k) == 0);
}

/// In a format 4 subtable with ascending end codes, a code point maps to nothing
/// when no `endCode` reaches it, or when the first segment whose `endCode`
/// reaches it (segment `k`) starts above it.
pub proof fn segment_gap_maps_nothing(d: Seq<u8>, cp: int, k: int)
    requires
        end_codes_ascend(d, seg_count(d)),
        0 <= k <= seg_count(d),
        forall|j: int| 0 <= j < k ==> #[trigger] end_code(d, j) < cp,
        k < seg_count(d) ==> end_code(d, k) >= cp && start_code(d, seg_count(d), k) > cp,
    ensures
        segment_delta_glyph(d, cp) is None,
{
    let n = seg_count(d);
    end_code_search_finds_first(d, cp, n);
    let r = end_code_search(d, cp, 0, n);
    if r < k {
        assert(end_code(d, r) < cp);
    } else if r > k {
        assert(end_code(d, k) < cp);
    }
}

/// In a format 12 subtable, a code point inside group `g`, and inside no group
/// before it, maps to `startGlyphId + (cp - startCharCode)` of that group,
/// truncated to 16 bits.
pub proof fn sequential_group_offsets_glyph(d: Seq<u8>, cp: int, g: int)
    requires
        fits(d, 0, 16),
        fits(d, 16, 12 * group_count(d)),
        0 <= g < group_count(d),
        group_start(d, g) <= cp <= group_end(d, g),
        forall|i: int| 0 <= i < g ==> !(group_start(d, i) <= cp <= #[trigger] group_end(d, i)),
    ensures
        segmented_coverage_glyph(d, cp, false) == Some(wrap16(group_glyph(d, g) + (cp - group_start(d, g)))),
{
    lemma_first_group_skips(d, group_count(d), cp, 0, g);
}

/// A variation sequence that a format 14 subtable calls default takes exactly
/// the glyph that the plain lookup gives its base code point.
pub proof fn default_sequence_takes_plain_glyph(cmap: Seq<u8>, cp: int, vs: int)
    requires
        cmap_variation(cmap, cp, vs) == Some(VariationLookup::UseDefault),
    ensures
        variation_result(cmap, cp, vs) == glyph_result(cmap_glyph(cmap, cp)),
{
}

/// Formats 0, 2 and 4 map no code point above 0xFFFF.
pub proof fn wide_code_points_miss_sixteen_bit_formats(d: Seq<u8>, cp: int)
    requires
        cp > 0xFFFF,
    ensures
        byte_encoding_glyph(d, cp) is None,
        high_byte_glyph(d, cp) is None,
        segment_delta_glyph(d, cp) is None,
{
}

/// In a format 2 subtable, a code point whose high byte has key 0 is served by
/// sub-header 0: a low byte in `[firstCode, firstCode + entryCount)` maps to the
/// nonzero glyph array entry plus `idDelta`, modulo 65536.
pub proof fn zero_key_uses_first_sub_header(d: Seq<u8>, cp: int)
    requires
        0 <= cp <= 0xFFFF,
        fits(d, 0, 518),
        fits(d, 518, 8 * (max_sub_header_index(d, 256) + 1)),
        sub_header_key(d, cp / 256) == 0,
        be_u16(d, 518) <= cp % 256 < be_u16(d, 518) + be_u16(d, 520),
        fits(d, 524 + be_u16(d, 524) + 2 * (cp % 256 - be_u16(d, 518)), 2),
        be_u16(d, 524 + be_u16(d, 524) + 2 * (cp % 256 - be_u16(d, 518))) != 0,
    ensures
        high_byte_glyph(d, cp) == Some(
            wrap16(be_u16(d, 524 + be_u16(d, 524) + 2 * (cp % 256 - be_u16(d, 518))) + be_i16(d, 522)),
        ),
{
}

/// A format 14 selector that has neither a Default nor a Non-Default UVS table
/// resolves nothing.
pub proof fn selector_without_tables_resolves_nothing(d: Seq<u8>, cp: int, vs: int, k: int)
    requires
        fits(d, 0, 10),
        fits(d, 10, 11 * selector_count(d)),
        u24_keys_ascending(d, 10, 11, selector_count(d)),
        0 <= k < selector_count(d),
        be_u24(d, 10 + 11 * k) == vs,
        default_uvs_offset(d, k) == 0,
        non_default_uvs_offset(d, k) == 0,
    ensures
        variation_lookup(d, cp, vs) == Some(VariationLookup::Absent),
{
    lemma_u24_key_search_finds(d, 10, 11, selector_count(d), vs, 0, selector_count(d), k);
}

/// In a format 14 subtable whose selectors ascend, selector `k` equal to `vs`,
/// with no Default UVS table and a Non-Default UVS table whose code points
/// ascend, resolves the code point of mapping `m` to that mapping's glyph.
pub proof fn listed_sequence_takes_its_glyph(d: Seq<u8>, cp: int, vs: int, k: int, m: int)
    requires
        fits(d, 0, 10),
        fits(d, 10, 11 * selector_count(d)),
        u24_keys_ascending(d, 10, 11, selector_count(d)),
        0 <= k < selector_count(d),
        be_u24(d, 10 + 11 * k) == vs,
        default_uvs_offset(d, k) == 0,
        non_default_uvs_offset(d, k) != 0,
        counted_table_fits(d, non_default_uvs_offset(d, k), 5),
        u24_keys_ascending(d, non_default_uvs_offset(d, k) + 4, 5, be_u32(d, non_default_uvs_offset(d, k))),
        0 <= m < be_u32(d, non_default_uvs_offset(d, k)),
        be_u24(d, non_default_uvs_offset(d, k) + 4 + 5 * m) == cp,
    ensures
        variation_lookup(d, cp, vs) == Some(
            VariationLookup::Glyph(be_u16(d, non_default_uvs_offset(d, k) + 4 + 5 * m + 3) as u16),
        ),
{
    let noff = non_default_uvs_offset(d, k);
    lemma_u24_key_search_finds(d, 10, 11, selector_count(d), vs, 0, selector_count(d), k);
    lemma_u24_key_search_finds(d, noff + 4, 5, be_u32(d, noff), cp, 0, be_u32(d, noff), m);
}

/// Record `p` of `b` points at a subtable whose format the plain lookup does
/// not map through: an unknown code, or 6, 8, 10 or 14.
pub open spec fn silent_record(b: Seq<u8>, p: int) -> bool {
    let off = record_offset(b, p);
    let code = be_u16(subtable_at(b, off), 0);
    &&& off <= b.len()
    &&& fits(subtable_at(b, off), 0, 2)
    &&& !(code == 0 || code == 2 || code == 4 || code == 12 || code == 13)
}

/// Table `b` is table `a` with one record inserted at index `p`, every other
/// record resolving `cp` (and `cp` with selector `vs`) as its counterpart in `a`.
pub open spec fn inserted_record(a: Seq<u8>, b: Seq<u8>, p: int, cp: int, vs: int) -> bool {
    &&& fits(a, 0, 4)
    &&& fits(b, 0, 4)
    &&& be_u16(b, 2) == be_u16(a, 2) + 1
    &&& 0 <= p <= be_u16(a, 2)
    &&& fits(a, 4, 8 * be_u16(a, 2))
    &&& fits(b, 4, 8 * be_u16(b, 2))
    &&& forall|t: int| 0 <= t < p ==> #[trigger] record_glyph(b, t, cp) == record_glyph(a, t, cp)
    &&& forall|t: int| p <= t < be_u16(a, 2) ==> #[trigger] record_glyph(b, t + 1, cp) == record_glyph(a, t, cp)
    &&& forall|t: int| 0 <= t < p ==> #[trigger] record_variation(b, t, cp, vs) == record_variation(a, t, cp, vs)
    &&& forall|t: int| p <= t < be_u16(a, 2) ==> #[trigger] record_variation(b, t + 1, cp, vs)
        == record_variation(a, t, cp, vs)
}

proof fn lemma_walk_after_insertion(a: Seq<u8>, b: Seq<u8>, p: int, cp: int, vs: int, t: int)
    requires
        inserted_record(a, b, p, cp, vs),
        p <= t <= be_u16(a, 2),
    ensures
        glyph_from(a, cp, be_u16(a, 2), t) == glyph_from(b, cp, be_u16(b, 2), t + 1),
        variation_from(a, cp, vs, be_u16(a, 2), t) == variation_from(b, cp, vs, be_u16(b, 2), t + 1),
    decreases be_u16(a, 2) - t,
{
    if t < be_u16(a, 2) {
        assert(record_glyph(b, t + 1, cp) == record_glyph(a, t, cp));
        assert(record_variation(b, t + 1, cp, vs) == record_variation(a, t, cp, vs));
        lemma_walk_after_insertion(a, b, p, cp, vs, t + 1);
    }
}

proof fn lemma_walk_before_insertion(a: Seq<u8>, b: Seq<u8>, p: int, cp: int, vs: int, t: int)
    requires
        inserted_record(a, b, p, cp, vs),
        silent_record(b, p),
        0 <= t <= p,
    ensures
        glyph_from(a, cp, be_u16(a, 2), t) == glyph_from(b, cp, be_u16(b, 2), t),
        be_u16(subtable_at(b, record_offset(b, p)), 0) != 14 ==> variation_from(a, cp, vs, be_u16(a, 2), t)
            == variation_from(b, cp, vs, be_u16(b, 2), t),
    decreases p - t,
{
    if t < p {
        assert(record_glyph(b, t, cp) == record_glyph(a, t, cp));
        assert(record_variation(b, t, cp, vs) == record_variation(a, t, cp, vs));
        lemma_walk_before_insertion(a, b, p, cp, vs, t + 1);
    } else {
        lemma_walk_after_insertion(a, b, p, cp, vs, p);
        reveal(subtable_glyph);
        reveal(record_variation);
    }
}

/// Inserting, anywhere in the directory, a record whose subtable the plain
/// lookup does not map through changes no plain lookup; when that subtable is
/// not of format 14 either, it changes no variation lookup.
pub proof fn inserted_silent_record_changes_nothing(a: Seq<u8>, b: Seq<u8>, p: int, cp: int, vs: int)
    requires
        inserted_record(a, b, p, cp, vs),
        silent_record(b, p),
    ensures
        cmap_glyph(b, cp) == cmap_glyph(a, cp),
        be_u16(subtable_at(b, record_offset(b, p)), 0) != 14 ==> variation_result(b, cp, vs)
            == variation_result(a, cp, vs),
{
    lemma_walk_before_insertion(a, b, p, cp, vs, 0);
}

} // verus!
