//! The `cmap` table: directory walk, subtable formats and the two public lookups.

use vstd::prelude::*;
use crate::parser::{Stream, fits, be_u16, be_u24, be_u32, be_i16, read_u8_at, read_u16_at, read_i16_at, read_u24_at, read_u32_at};

verus! {

/// A glyph index inside the font.
#[derive(Clone, Copy, Debug, PartialEq, Eq, Structural)]
pub struct GlyphId(pub u16);

/// Why a lookup produced no glyph.
#[derive(Clone, Copy, Debug, PartialEq, Eq, Structural)]
pub enum Error {
    NoGlyph,
}

/// Subtable formats that the directory walk recognises.
#[derive(Clone, Copy, Debug, PartialEq, Eq, Structural)]
pub enum Format {
    ByteEncodingTable,
    HighByteMappingThroughTable,
    SegmentMappingToDeltaValues,
    TrimmedTableMapping,
    MixedCoverage,
    TrimmedArray,
    SegmentedCoverage,
    ManyToOneRangeMappings,
    UnicodeVariationSequences,
}

pub open spec fn format_of(v: int) -> Option<Format> {
    if v == 0 {
        Some(Format::ByteEncodingTable)
    } else if v == 2 {
        Some(Format::HighByteMappingThroughTable)
    } else if v == 4 {
        Some(Format::SegmentMappingToDeltaValues)
    } else if v == 6 {
        Some(Format::TrimmedTableMapping)
    } else if v == 8 {
        Some(Format::MixedCoverage)
    } else if v == 10 {
        Some(Format::TrimmedArray)
    } else if v == 12 {
        Some(Format::SegmentedCoverage)
    } else if v == 13 {
        Some(Format::ManyToOneRangeMappings)
    } else if v == 14 {
        Some(Format::UnicodeVariationSequences)
    } else {
        None
    }
}

/// A value reduced to 16 bits, as wrapping arithmetic leaves it.
pub open spec fn wrap16(x: int) -> u16 {
    (x % 65536) as u16
}

// ---- format 0 ----

/// Format 0: a 256-entry byte array after `format`, `length` and `language`,
/// consulted for code points below both 256 and `length`.
pub open spec fn byte_encoding_glyph(d: Seq<u8>, cp: int) -> Option<u16> {
    if !fits(d, 0, 6) {
        None
    } else if cp < 256 && cp < be_u16(d, 2) && fits(d, 6 + cp, 1) {
        Some(d[6 + cp] as u16)
    } else {
        None
    }
}

// ---- formats 12 and 13 ----

pub open spec fn group_count(d: Seq<u8>) -> int {
    be_u32(d, 12)
}

pub open spec fn group_start(d: Seq<u8>, j: int) -> int {
    be_u32(d, 16 + 12 * j)
}

pub open spec fn group_end(d: Seq<u8>, j: int) -> int {
    be_u32(d, 16 + 12 * j + 4)
}

pub open spec fn group_glyph(d: Seq<u8>, j: int) -> int {
    be_u32(d, 16 + 12 * j + 8)
}

/// The first group at or after `j` (and before `num`) whose inclusive range holds `cp`.
pub open spec fn first_group(d: Seq<u8>, num: int, cp: int, j: int) -> Option<int>
    decreases num - j,
{
    if j >= num {
        None
    } else if group_start(d, j) <= cp && cp <= group_end(d, j) {
        Some(j)
    } else {
        first_group(d, num, cp, j + 1)
    }
}

/// Formats 12 and 13: `numGroups` at byte 12, then 12-byte groups
/// `{startCharCode, endCharCode, startGlyphId}`.
pub open spec fn segmented_coverage_glyph(d: Seq<u8>, cp: int, many_to_one: bool) -> Option<u16> {
    if !fits(d, 0, 16) || !fits(d, 16, 12 * group_count(d)) {
        None
    } else {
        match first_group(d, group_count(d), cp, 0) {
            Some(j) => Some(
                if many_to_one {
                    wrap16(group_glyph(d, j))
                } else {
                    wrap16(group_glyph(d, j) + (cp - group_start(d, j)))
                },
            ),
            None => None,
        }
    }
}

pub fn parse_format(v: u16) -> (r: Option<Format>)
    ensures
        r == format_of(v as int),
{
    match v {
        0 => Some(Format::ByteEncodingTable),
        2 => Some(Format::HighByteMappingThroughTable),
        4 => Some(Format::SegmentMappingToDeltaValues),
        6 => Some(Format::TrimmedTableMapping),
        8 => Some(Format::MixedCoverage),
        10 => Some(Format::TrimmedArray),
        12 => Some(Format::SegmentedCoverage),
        13 => Some(Format::ManyToOneRangeMappings),
        14 => Some(Format::UnicodeVariationSequences),
        _ => None,
    }
}

/// Looks `code_point` up in a format 0 subtable.
pub fn parse_byte_encoding_table(data: &[u8], code_point: u32) -> (r: Option<u16>)
    ensures
        r == byte_encoding_glyph(data@, code_point as int),
{
    let length = match read_u16_at(data, 2) {
        Some(v) => v,
        None => return None,
    };
    if read_u16_at(data, 4).is_none() {
        return None;
    }
    if code_point < 256 && code_point < length as u32 {
        match read_u8_at(data, 6 + code_point as usize) {
            Some(b) => Some(b as u16),
            None => None,
        }
    } else {
        None
    }
}

/// A group of formats 12 and 13: an inclusive range of code points and a glyph.
pub struct SequentialMapGroup {
    pub start_char: u32,
    pub end_char: u32,
    pub start_glyph_id: u32,
}

impl SequentialMapGroup {
    pub fn parse(data: &[u8], pos: usize) -> (r: Option<SequentialMapGroup>)
        ensures
            match r {
                Some(g) => fits(data@, pos as int, 12) && g.start_char as int == be_u32(data@, pos as int)
                    && g.end_char as int == be_u32(data@, pos + 4) && g.start_glyph_id as int
                    == be_u32(data@, pos + 8),
                None => !fits(data@, pos as int, 12),
            },
    {
        if pos > data.len() || data.len() - pos < 12 {
            return None;
        }
        let start_char = read_u32_at(data, pos).unwrap();
        let end_char = read_u32_at(data, pos + 4).unwrap();
        let start_glyph_id = read_u32_at(data, pos + 8).unwrap();
        Some(SequentialMapGroup { start_char, end_char, start_glyph_id })
    }
}

proof fn lemma_record_fits(base: int, stride: int, num: int, j: int, len: int)
    requires
        0 <= base,
        0 < stride,
        0 <= j < num,
        base + stride * num <= len,
    ensures
        base + stride * j + stride <= len,
{
    assert(stride * j + stride <= stride * num) by (nonlinear_arith)
        requires
            0 < stride,
            0 <= j < num,
    ;
}

/// Looks `code_point` up in a format 12 subtable, or in a format 13 one when
/// `format` says so.
pub fn parse_segmented_coverage(data: &[u8], code_point: u32, format: Format) -> (r: Option<u16>)
    ensures
        r == segmented_coverage_glyph(
            data@,
            code_point as int,
            format == Format::ManyToOneRangeMappings,
        ),
{
    let num_groups = match read_u32_at(data, 12) {
        Some(v) => v as usize,
        None => return None,
    };
    if (data.len() - 16) / 12 < num_groups {
        assert(!fits(data@, 16, 12 * num_groups)) by (nonlinear_arith)
            requires
                (data@.len() - 16) / 12 < num_groups,
                data@.len() >= 16,
        ;
        return None;
    }
    assert(fits(data@, 16, 12 * num_groups)) by (nonlinear_arith)
        requires
            (data@.len() - 16) / 12 >= num_groups,
            data@.len() >= 16,
    ;
    let ghost d = data@;
    let len = data.len();
    let mut j: usize = 0;
    while j < num_groups
        invariant
            d == data@,
            len == d.len(),
            j <= num_groups,
            num_groups as int == group_count(d),
            fits(d, 0, 16),
            fits(d, 16, 12 * num_groups),
            first_group(d, num_groups as int, code_point as int, 0) == first_group(
                d,
                num_groups as int,
                code_point as int,
                j as int,
            ),
        decreases num_groups - j,
    {
        proof {
            lemma_record_fits(16, 12, num_groups as int, j as int, d.len() as int);
        }
        let group = SequentialMapGroup::parse(data, 16 + 12 * j).unwrap();
        if group.start_char <= code_point && code_point <= group.end_char {
            let glyph: u64 = if format == Format::ManyToOneRangeMappings {
                group.start_glyph_id as u64 % 65536
            } else {
                (group.start_glyph_id as u64 + (code_point - group.start_char) as u64) % 65536
            };
            return Some(glyph as u16);
        }
        j = j + 1;
    }
    None
}

// ---- format 2 ----

pub open spec fn sub_header_key(d: Seq<u8>, b: int) -> int {
    be_u16(d, 6 + 2 * b)
}

/// The largest sub-header index among the first `k` entries of `subHeaderKeys`.
pub open spec fn max_sub_header_index(d: Seq<u8>, k: int) -> int
    decreases k,
{
    if k <= 0 {
        0
    } else if sub_header_key(d, k - 1) / 8 > max_sub_header_index(d, k - 1) {
        sub_header_key(d, k - 1) / 8
    } else {
        max_sub_header_index(d, k - 1)
    }
}

/// The sub-header that serves `cp`: sub-header 0 for single-byte codes,
/// else the one that `subHeaderKeys[high byte]` names.
pub open spec fn sub_header_index(d: Seq<u8>, cp: int) -> int {
    if cp < 0xFF {
        0
    } else {
        sub_header_key(d, cp / 256) / 8
    }
}

/// Format 2: `subHeaderKeys[256]` at byte 6, then the 8-byte sub-headers
/// `{firstCode, entryCount, idDelta, idRangeOffset}` at byte 518. A sub-header
/// covers the low bytes `[firstCode, firstCode + entryCount)`; its `idRangeOffset`
/// counts bytes from its own position to the glyph of `firstCode`.
pub open spec fn high_byte_glyph(d: Seq<u8>, cp: int) -> Option<u16> {
    if cp > 0xFFFF || !fits(d, 0, 518) || !fits(d, 518, 8 * (max_sub_header_index(d, 256) + 1)) {
        None
    } else {
        let h = 518 + 8 * sub_header_index(d, cp);
        let first = be_u16(d, h);
        let low = cp % 256;
        let pos = h + 6 + be_u16(d, h + 6) + 2 * (low - first);
        if low < first || low >= first + be_u16(d, h + 2) {
            None
        } else if !fits(d, pos, 2) || be_u16(d, pos) == 0 {
            None
        } else {
            Some(wrap16(be_u16(d, pos) + be_i16(d, h + 4)))
        }
    }
}

proof fn lemma_max_sub_header_index(d: Seq<u8>, k: int, b: int)
    requires
        0 <= b < k,
    ensures
        sub_header_key(d, b) / 8 <= max_sub_header_index(d, k),
        0 <= max_sub_header_index(d, k),
    decreases k,
{
    if b < k - 1 {
        lemma_max_sub_header_index(d, k - 1, b);
    } else if k - 1 > 0 {
        lemma_max_sub_header_index(d, k - 1, 0);
    }
}

/// A format 2 sub-header record.
pub struct SubHeaderRecord {
    pub first_code: u16,
    pub entry_count: u16,
    pub id_delta: i16,
    pub id_range_offset: u16,
}

impl SubHeaderRecord {
    pub fn parse(data: &[u8], pos: usize) -> (r: Option<SubHeaderRecord>)
        ensures
            match r {
                Some(h) => fits(data@, pos as int, 8) && h.first_code as int == be_u16(data@, pos as int)
                    && h.entry_count as int == be_u16(data@, pos + 2) && h.id_delta as int
                    == be_i16(data@, pos + 4) && h.id_range_offset as int == be_u16(data@, pos + 6),
                None => !fits(data@, pos as int, 8),
            },
    {
        if pos > data.len() || data.len() - pos < 8 {
            return None;
        }
        let first_code = read_u16_at(data, pos).unwrap();
        let entry_count = read_u16_at(data, pos + 2).unwrap();
        let id_delta = read_i16_at(data, pos + 4).unwrap();
        let id_range_offset = read_u16_at(data, pos + 6).unwrap();
        Some(SubHeaderRecord { first_code, entry_count, id_delta, id_range_offset })
    }
}

/// Looks `code_point` up in a format 2 subtable.
pub fn parse_high_byte_mapping_through_table(data: &[u8], code_point: u32) -> (r: Option<u16>)
    ensures
        r == high_byte_glyph(data@, code_point as int),
{
    if code_point > 0xFFFF || data.len() < 518 {
        return None;
    }
    let ghost d = data@;
    let mut max_index: u16 = 0;
    let mut b: usize = 0;
    while b < 256
        invariant
            d == data@,
            d.len() >= 518,
            b <= 256,
            max_index as int == max_sub_header_index(d, b as int),
        decreases 256 - b,
    {
        let key = read_u16_at(data, 6 + 2 * b).unwrap();
        if key / 8 > max_index {
            max_index = key / 8;
        }
        b = b + 1;
    }
    let count = max_index as usize + 1;
    if (data.len() - 518) / 8 < count {
        assert(!fits(d, 518, 8 * count)) by (nonlinear_arith)
            requires
                (d.len() - 518) / 8 < count,
                d.len() >= 518,
        ;
        return None;
    }
    assert(fits(d, 518, 8 * count)) by (nonlinear_arith)
        requires
            (d.len() - 518) / 8 >= count,
            d.len() >= 518,
    ;
    let i: usize = if code_point < 0xFF {
        0
    } else {
        let key = read_u16_at(data, 6 + 2 * (code_point / 256) as usize).unwrap();
        (key / 8) as usize
    };
    proof {
        if code_point >= 0xFF {
            lemma_max_sub_header_index(d, 256, code_point as int / 256);
        }
        lemma_record_fits(518, 8, count as int, i as int, d.len() as int);
    }
    let h = 518 + 8 * i;
    let header = SubHeaderRecord::parse(data, h).unwrap();
    let low = (code_point % 256) as u16;
    if low < header.first_code || low as u32 >= header.first_code as u32 + header.entry_count as u32 {
        return None;
    }
    let pos = h + 6 + header.id_range_offset as usize + 2 * (low - header.first_code) as usize;
    let glyph = match read_u16_at(data, pos) {
        Some(g) => g,
        None => return None,
    };
    if glyph == 0 {
        return None;
    }
    let sum: i32 = glyph as i32 + header.id_delta as i32 + 65536;
    assert((sum as int) % 65536 == (glyph as int + header.id_delta as int) % 65536) by (nonlinear_arith)
        requires
            sum as int == glyph as int + header.id_delta as int + 65536,
    ;
    Some((sum as u32 % 65536) as u16)
}

// ---- format 4 ----

pub open spec fn seg_count(d: Seq<u8>) -> int {
    be_u16(d, 6) / 2
}

pub open spec fn end_code(d: Seq<u8>, j: int) -> int {
    be_u16(d, 14 + 2 * j)
}

pub open spec fn start_code(d: Seq<u8>, n: int, j: int) -> int {
    be_u16(d, 16 + 2 * n + 2 * j)
}

pub open spec fn id_delta(d: Seq<u8>, n: int, j: int) -> int {
    be_i16(d, 16 + 4 * n + 2 * j)
}

/// Byte position of `idRangeOffset[0]`.
pub open spec fn id_range_offsets_pos(n: int) -> int {
    16 + 6 * n
}

pub open spec fn id_range_offset(d: Seq<u8>, n: int, j: int) -> int {
    be_u16(d, id_range_offsets_pos(n) + 2 * j)
}

/// Binary search over `[lo, hi)` for the first segment whose `endCode` reaches
/// `cp`: a segment that ends at or after `cp` sends the search left, one that
/// ends before it sends the search right. The result is `hi` when none reaches it.
/// When the end codes ascend this is the least such index (see `lemmas`).
pub open spec fn end_code_search(d: Seq<u8>, cp: int, lo: int, hi: int) -> int
    decreases hi - lo,
{
    if lo >= hi {
        lo
    } else {
        let mid = (lo + hi) / 2;
        if end_code(d, mid) >= cp {
            end_code_search(d, cp, lo, mid)
        } else {
            end_code_search(d, cp, mid + 1, hi)
        }
    }
}

/// Format 4: `segCountX2` at byte 6, then `endCode[n]` at byte 14, a pad,
/// `startCode[n]`, `idDelta[n]` and `idRangeOffset[n]`. The segment consulted is
/// the one that the search on `endCode` lands on; if it starts above `cp` there
/// is no match. A segment with a zero `idRangeOffset` maps by adding `idDelta`;
/// another reads the glyph array at a 16-bit position counted from its own
/// `idRangeOffset` field.
pub open spec fn segment_delta_glyph(d: Seq<u8>, cp: int) -> Option<u16> {
    if cp > 0xFFFF || !fits(d, 0, 14) || !fits(d, 0, 16 + 8 * seg_count(d)) {
        None
    } else {
        let n = seg_count(d);
        let k = end_code_search(d, cp, 0, n);
        let delta = id_delta(d, n, k);
        let range_offset = id_range_offset(d, n, k);
        let pos = (id_range_offsets_pos(n) + 2 * k + 2 * (cp - start_code(d, n, k)) + range_offset)
            % 65536;
        if k >= n || start_code(d, n, k) > cp {
            None
        } else if range_offset == 0 {
            Some(wrap16(cp + delta))
        } else if !fits(d, pos, 2) || be_u16(d, pos) == 0 {
            None
        } else {
            Some(wrap16(be_u16(d, pos) + delta))
        }
    }
}

proof fn lemma_end_code_search_range(d: Seq<u8>, cp: int, lo: int, hi: int)
    requires
        lo <= hi,
    ensures
        lo <= end_code_search(d, cp, lo, hi) <= hi,
    decreases hi - lo,
{
    if lo < hi {
        let mid = (lo + hi) / 2;
        lemma_end_code_search_range(d, cp, lo, mid);
        lemma_end_code_search_range(d, cp, mid + 1, hi);
    }
}

/// Looks `code_point` up in a format 4 subtable.
pub fn parse_segment_mapping_to_delta_values(data: &[u8], code_point: u32) -> (r: Option<u16>)
    ensures
        r == segment_delta_glyph(data@, code_point as int),
{
    if code_point > 0xFFFF {
        return None;
    }
    let seg_count_x2 = match read_u16_at(data, 6) {
        Some(v) => v as usize,
        None => return None,
    };
    if data.len() < 14 {
        return None;
    }
    let n = seg_count_x2 / 2;
    if data.len() < 16 + 8 * n {
        return None;
    }
    let ghost d = data@;
    let cp = code_point as u16;
    let id_range_offsets_start = 16 + 6 * n;
    let mut lo: usize = 0;
    let mut hi: usize = n;
    while lo < hi
        invariant
            d == data@,
            n as int == seg_count(d),
            n < 32768,
            fits(d, 0, 16 + 8 * n),
            cp as int == code_point as int,
            id_range_offsets_start == 16 + 6 * n,
            lo <= hi <= n,
            end_code_search(d, code_point as int, 0, n as int) == end_code_search(
                d,
                code_point as int,
                lo as int,
                hi as int,
            ),
        decreases hi - lo,
    {
        let mid = (lo + hi) / 2;
        let end_value = read_u16_at(data, 14 + 2 * mid).unwrap();
        if end_value >= cp {
            hi = mid;
        } else {
            lo = mid + 1;
        }
    }
    proof {
        lemma_end_code_search_range(d, code_point as int, lo as int, hi as int);
    }
    if lo >= n {
        return None;
    }
    let index = lo;
    let start_value = read_u16_at(data, 16 + 2 * n + 2 * index).unwrap();
    if start_value > cp {
        return None;
    }
    let delta = read_i16_at(data, 16 + 4 * n + 2 * index).unwrap();
    let range_offset = read_u16_at(data, id_range_offsets_start + 2 * index).unwrap();
    if range_offset == 0 {
        let sum: i32 = cp as i32 + delta as i32 + 65536;
        assert((sum as int) % 65536 == (cp as int + delta as int) % 65536) by (nonlinear_arith)
            requires
                sum as int == cp as int + delta as int + 65536,
        ;
        return Some((sum as u32 % 65536) as u16);
    }
    let pos = (id_range_offsets_start + 2 * index + 2 * (cp - start_value) as usize
        + range_offset as usize) % 65536;
    let glyph = match read_u16_at(data, pos) {
        Some(g) => g,
        None => return None,
    };
    if glyph == 0 {
        return None;
    }
    let sum: i32 = glyph as i32 + delta as i32 + 65536;
    assert((sum as int) % 65536 == (glyph as int + delta as int) % 65536) by (nonlinear_arith)
        requires
            sum as int == glyph as int + delta as int + 65536,
    ;
    Some((sum as u32 % 65536) as u16)
}

// ---- format 14 ----

/// What a variation sequence resolves to inside a format 14 subtable.
#[derive(Clone, Copy, Debug, PartialEq, Eq, Structural)]
pub enum VariationLookup {
    /// The sequence takes the base code point's ordinary glyph.
    UseDefault,
    /// The sequence has a glyph of its own.
    Glyph(u16),
    /// The subtable does not know the sequence.
    Absent,
}

/// Binary search over `[lo, hi)` of records `stride` bytes apart from `base`
/// for one whose leading 24-bit key equals `target`.
pub open spec fn u24_key_search(d: Seq<u8>, base: int, stride: int, target: int, lo: int, hi: int) -> Option<int>
    decreases hi - lo,
{
    if lo >= hi {
        None
    } else {
        let mid = (lo + hi) / 2;
        let key = be_u24(d, base + stride * mid);
        if key == target {
            Some(mid)
        } else if key < target {
            u24_key_search(d, base, stride, target, mid + 1, hi)
        } else {
            u24_key_search(d, base, stride, target, lo, mid)
        }
    }
}

pub open spec fn selector_count(d: Seq<u8>) -> int {
    be_u32(d, 6)
}

pub open spec fn default_uvs_offset(d: Seq<u8>, k: int) -> int {
    be_u32(d, 10 + 11 * k + 3)
}

pub open spec fn non_default_uvs_offset(d: Seq<u8>, k: int) -> int {
    be_u32(d, 10 + 11 * k + 7)
}

/// A table at `off` made of a 32-bit count and that many `size`-byte records.
pub open spec fn counted_table_fits(d: Seq<u8>, off: int, size: int) -> bool {
    fits(d, off, 4) && fits(d, off + 4, size * be_u32(d, off))
}

/// Range `j` of the Default UVS table at `off` holds `cp`:
/// `start <= cp <= start + additionalCount`.
pub open spec fn default_range_holds(d: Seq<u8>, off: int, j: int, cp: int) -> bool {
    let p = off + 4 + 4 * j;
    be_u24(d, p) <= cp <= be_u24(d, p) + d[p + 3]
}

/// Some range among `[j, num)` of the Default UVS table at `off` holds `cp`.
pub open spec fn default_ranges_hold(d: Seq<u8>, off: int, num: int, cp: int, j: int) -> bool
    decreases num - j,
{
    if j >= num {
        false
    } else {
        default_range_holds(d, off, j, cp) || default_ranges_hold(d, off, num, cp, j + 1)
    }
}

/// Format 14: `numVarSelectorRecords` at byte 6, then 11-byte records
/// `{varSelector: u24, defaultUVSOffset, nonDefaultUVSOffset}` sorted by selector.
/// The Default UVS table is consulted before the Non-Default one; `None` means
/// that a table the lookup needed lies outside the subtable.
pub open spec fn variation_lookup(d: Seq<u8>, cp: int, vs: int) -> Option<VariationLookup> {
    if !fits(d, 0, 10) || !fits(d, 10, 11 * selector_count(d)) {
        None
    } else {
        match u24_key_search(d, 10, 11, vs, 0, selector_count(d)) {
            None => Some(VariationLookup::Absent),
            Some(k) => {
                let doff = default_uvs_offset(d, k);
                let noff = non_default_uvs_offset(d, k);
                if doff != 0 && !counted_table_fits(d, doff, 4) {
                    None
                } else if doff != 0 && default_ranges_hold(d, doff, be_u32(d, doff), cp, 0) {
                    Some(VariationLookup::UseDefault)
                } else if noff == 0 {
                    Some(VariationLookup::Absent)
                } else if !counted_table_fits(d, noff, 5) {
                    None
                } else {
                    match u24_key_search(d, noff + 4, 5, cp, 0, be_u32(d, noff)) {
                        Some(m) => Some(VariationLookup::Glyph(be_u16(d, noff + 4 + 5 * m + 3) as u16)),
                        None => Some(VariationLookup::Absent),
                    }
                }
            },
        }
    }
}

/// Binary search over `count` records `stride` bytes apart from `base` for one
/// whose leading 24-bit key is `target`; returns its index.
fn search_u24_keys(data: &[u8], base: usize, stride: usize, count: usize, target: u32) -> (r: Option<usize>)
    requires
        3 <= stride,
        fits(data@, base as int, stride * count),
    ensures
        match r {
            Some(k) => Some(k as int) == u24_key_search(data@, base as int, stride as int, target as int, 0, count as int),
            None => u24_key_search(data@, base as int, stride as int, target as int, 0, count as int).is_none(),
        },
{
    let ghost d = data@;
    let len = data.len();
    let mut lo: usize = 0;
    let mut hi: usize = count;
    while lo < hi
        invariant
            d == data@,
            len == d.len(),
            3 <= stride,
            fits(d, base as int, stride * count),
            lo <= hi <= count,
            u24_key_search(d, base as int, stride as int, target as int, 0, count as int)
                == u24_key_search(d, base as int, stride as int, target as int, lo as int, hi as int),
        decreases hi - lo,
    {
        let mid = lo + (hi - lo) / 2;
        proof {
            lemma_record_fits(base as int, stride as int, count as int, mid as int, d.len() as int);
        }
        let key = read_u24_at(data, base + stride * mid).unwrap();
        if key == target {
            return Some(mid);
        } else if key < target {
            lo = mid + 1;
        } else {
            hi = mid;
        }
    }
    None
}

/// Reads the 32-bit count of a table at `off` and checks that `size`-byte
/// records of that count follow it.
fn read_counted_table(data: &[u8], off: usize, size: usize) -> (r: Option<usize>)
    requires
        1 <= size <= 11,
    ensures
        match r {
            Some(n) => counted_table_fits(data@, off as int, size as int) && n as int == be_u32(data@, off as int),
            None => !counted_table_fits(data@, off as int, size as int),
        },
{
    let count = match read_u32_at(data, off) {
        Some(v) => v as usize,
        None => return None,
    };
    if (data.len() - off - 4) / size < count {
        assert(!fits(data@, off + 4, size * count)) by (nonlinear_arith)
            requires
                (data@.len() - off - 4) / (size as int) < count,
                data@.len() >= off + 4,
                size >= 1,
        ;
        return None;
    }
    assert(fits(data@, off + 4, size * count)) by (nonlinear_arith)
        requires
            (data@.len() - off - 4) / (size as int) >= count,
            data@.len() >= off + 4,
            size >= 1,
    ;
    Some(count)
}

/// A format 14 record: a selector and its two optional table offsets.
pub struct VariationSelectorRecord {
    pub variation: u32,
    pub default_uvs_offset: Option<u32>,
    pub non_default_uvs_offset: Option<u32>,
}

pub open spec fn optional_offset(v: int) -> Option<u32> {
    if v == 0 {
        None
    } else {
        Some(v as u32)
    }
}

impl VariationSelectorRecord {
    pub fn parse(data: &[u8], pos: usize) -> (r: Option<VariationSelectorRecord>)
        ensures
            match r {
                Some(v) => fits(data@, pos as int, 11) && v.variation as int == be_u24(data@, pos as int)
                    && v.default_uvs_offset == optional_offset(be_u32(data@, pos + 3))
                    && v.non_default_uvs_offset == optional_offset(be_u32(data@, pos + 7)),
                None => !fits(data@, pos as int, 11),
            },
    {
        if pos > data.len() || data.len() - pos < 11 {
            return None;
        }
        let variation = read_u24_at(data, pos).unwrap();
        let default_offset = read_u32_at(data, pos + 3).unwrap();
        let non_default_offset = read_u32_at(data, pos + 7).unwrap();
        Some(VariationSelectorRecord {
            variation,
            default_uvs_offset: if default_offset == 0 { None } else { Some(default_offset) },
            non_default_uvs_offset: if non_default_offset == 0 { None } else { Some(non_default_offset) },
        })
    }
}

/// A Default UVS range: `[start_unicode_value, start_unicode_value + additional_count]`.
pub struct UnicodeRangeRecord {
    pub start_unicode_value: u32,
    pub additional_count: u8,
}

impl UnicodeRangeRecord {
    pub fn parse(data: &[u8], pos: usize) -> (r: Option<UnicodeRangeRecord>)
        ensures
            match r {
                Some(u) => fits(data@, pos as int, 4) && u.start_unicode_value as int == be_u24(data@, pos as int)
                    && u.additional_count == data@[pos + 3],
                None => !fits(data@, pos as int, 4),
            },
    {
        if pos > data.len() || data.len() - pos < 4 {
            return None;
        }
        let start_unicode_value = read_u24_at(data, pos).unwrap();
        let additional_count = read_u8_at(data, pos + 3).unwrap();
        Some(UnicodeRangeRecord { start_unicode_value, additional_count })
    }

    pub fn contains(&self, code_point: u32) -> (r: bool)
        ensures
            r == (self.start_unicode_value <= code_point && code_point as int
                <= self.start_unicode_value as int + self.additional_count as int),
    {
        self.start_unicode_value <= code_point && code_point as u64 <= self.start_unicode_value as u64
            + self.additional_count as u64
    }
}

/// A Non-Default UVS mapping: a code point and its glyph.
pub struct UVSMappingRecord {
    pub unicode_value: u32,
    pub glyph: GlyphId,
}

impl UVSMappingRecord {
    pub fn parse(data: &[u8], pos: usize) -> (r: Option<UVSMappingRecord>)
        ensures
            match r {
                Some(m) => fits(data@, pos as int, 5) && m.unicode_value as int == be_u24(data@, pos as int)
                    && m.glyph.0 as int == be_u16(data@, pos + 3),
                None => !fits(data@, pos as int, 5),
            },
    {
        if pos > data.len() || data.len() - pos < 5 {
            return None;
        }
        let unicode_value = read_u24_at(data, pos).unwrap();
        let glyph = read_u16_at(data, pos + 3).unwrap();
        Some(UVSMappingRecord { unicode_value, glyph: GlyphId(glyph) })
    }
}

/// Resolves the sequence `code_point` + `variation` in a format 14 subtable.
pub fn parse_unicode_variation_sequences(data: &[u8], code_point: u32, variation: u32) -> (r: Option<VariationLookup>)
    ensures
        r == variation_lookup(data@, code_point as int, variation as int),
{
    let ghost d = data@;
    let len = data.len();
    let count = match read_counted_table(data, 6, 11) {
        Some(n) => n,
        None => return None,
    };
    let k = match search_u24_keys(data, 10, 11, count, variation) {
        Some(k) => k,
        None => return Some(VariationLookup::Absent),
    };
    proof {
        lemma_u24_key_search_range(d, 10, 11, variation as int, 0, count as int);
        lemma_record_fits(10, 11, count as int, k as int, d.len() as int);
    }
    let record = VariationSelectorRecord::parse(data, 10 + 11 * k).unwrap();
    if let Some(offset) = record.default_uvs_offset {
        let off = offset as usize;
        let ranges = match read_counted_table(data, off, 4) {
            Some(n) => n,
            None => return None,
        };
        let mut j: usize = 0;
        while j < ranges
            invariant
                d == data@,
                len == d.len(),
                fits(d, 0, 10),
                fits(d, 10, 11 * count),
                count as int == selector_count(d),
                u24_key_search(d, 10, 11, variation as int, 0, count as int) == Some(k as int),
                default_uvs_offset(d, k as int) == off,
                off != 0,
                j <= ranges,
                counted_table_fits(d, off as int, 4),
                ranges as int == be_u32(d, off as int),
                default_ranges_hold(d, off as int, ranges as int, code_point as int, 0)
                    == default_ranges_hold(d, off as int, ranges as int, code_point as int, j as int),
            decreases ranges - j,
        {
            proof {
                lemma_record_fits(off + 4, 4, ranges as int, j as int, d.len() as int);
            }
            let range = UnicodeRangeRecord::parse(data, off + 4 + 4 * j).unwrap();
            if range.contains(code_point) {
                return Some(VariationLookup::UseDefault);
            }
            j = j + 1;
        }
    }
    if let Some(offset) = record.non_default_uvs_offset {
        let off = offset as usize;
        let mappings = match read_counted_table(data, off, 5) {
            Some(n) => n,
            None => return None,
        };
        match search_u24_keys(data, off + 4, 5, mappings, code_point) {
            Some(m) => {
                proof {
                    lemma_u24_key_search_range(d, off + 4, 5, code_point as int, 0, mappings as int);
                    lemma_record_fits(off + 4, 5, mappings as int, m as int, d.len() as int);
                }
                let mapping = UVSMappingRecord::parse(data, off + 4 + 5 * m).unwrap();
                Some(VariationLookup::Glyph(mapping.glyph.0))
            },
            None => Some(VariationLookup::Absent),
        }
    } else {
        Some(VariationLookup::Absent)
    }
}

proof fn lemma_u24_key_search_range(d: Seq<u8>, base: int, stride: int, target: int, lo: int, hi: int)
    ensures
        match u24_key_search(d, base, stride, target, lo, hi) {
            Some(k) => lo <= k < hi && be_u24(d, base + stride * k) == target,
            None => true,
        },
    decreases hi - lo,
{
    if lo < hi {
        let mid = (lo + hi) / 2;
        lemma_u24_key_search_range(d, base, stride, target, lo, mid);
        lemma_u24_key_search_range(d, base, stride, target, mid + 1, hi);
    }
}

// ---- directory walk ----

/// The bytes of the cmap table from a subtable's offset to the end.
pub open spec fn subtable_at(cmap: Seq<u8>, off: int) -> Seq<u8> {
    cmap.subrange(off, cmap.len() as int)
}

/// What one subtable maps `cp` to; format 14 and the formats that are only
/// recognised map nothing here.
#[verifier::opaque]
pub open spec fn subtable_glyph(d: Seq<u8>, cp: int) -> Option<u16> {
    if !fits(d, 0, 2) {
        None
    } else {
        match format_of(be_u16(d, 0)) {
            Some(Format::ByteEncodingTable) => byte_encoding_glyph(d, cp),
            Some(Format::HighByteMappingThroughTable) => high_byte_glyph(d, cp),
            Some(Format::SegmentMappingToDeltaValues) => segment_delta_glyph(d, cp),
            Some(Format::SegmentedCoverage) => segmented_coverage_glyph(d, cp, false),
            Some(Format::ManyToOneRangeMappings) => segmented_coverage_glyph(d, cp, true),
            _ => None,
        }
    }
}

/// The subtable offset of encoding record `t`.
pub open spec fn record_offset(cmap: Seq<u8>, t: int) -> int {
    be_u32(cmap, 4 + 8 * t + 4)
}

/// What encoding record `t` maps `cp` to, if its subtable lies inside the table.
pub open spec fn record_glyph(cmap: Seq<u8>, t: int, cp: int) -> Option<u16> {
    if record_offset(cmap, t) <= cmap.len() {
        subtable_glyph(subtable_at(cmap, record_offset(cmap, t)), cp)
    } else {
        None
    }
}

/// The first nonzero glyph that the encoding records `[t, num)` give `cp`, in
/// file order; the walk stops at a record that lies past the end of the table.
pub open spec fn glyph_from(cmap: Seq<u8>, cp: int, num: int, t: int) -> Option<u16>
    decreases num - t,
{
    if t >= num || !fits(cmap, 4 + 8 * t, 8) {
        None
    } else {
        match record_glyph(cmap, t, cp) {
            Some(g) if g != 0 => Some(g),
            _ => glyph_from(cmap, cp, num, t + 1),
        }
    }
}

/// The glyph that the cmap table `cmap` gives code point `cp`.
pub open spec fn cmap_glyph(cmap: Seq<u8>, cp: int) -> Option<u16> {
    if !fits(cmap, 0, 4) {
        None
    } else {
        glyph_from(cmap, cp, be_u16(cmap, 2), 0)
    }
}

/// What encoding record `t` resolves a variation sequence to, when its subtable
/// is a well-formed format 14 one.
#[verifier::opaque]
pub open spec fn record_variation(cmap: Seq<u8>, t: int, cp: int, vs: int) -> Option<VariationLookup> {
    let off = record_offset(cmap, t);
    let d = subtable_at(cmap, off);
    if off <= cmap.len() && fits(d, 0, 2) && be_u16(d, 0) == 14 {
        variation_lookup(d, cp, vs)
    } else {
        None
    }
}

/// The resolution given by the first well-formed format 14 subtable among the
/// encoding records `[t, num)`.
pub open spec fn variation_from(cmap: Seq<u8>, cp: int, vs: int, num: int, t: int) -> Option<VariationLookup>
    decreases num - t,
{
    if t >= num || !fits(cmap, 4 + 8 * t, 8) {
        None
    } else {
        match record_variation(cmap, t, cp, vs) {
            Some(v) => Some(v),
            None => variation_from(cmap, cp, vs, num, t + 1),
        }
    }
}

pub open spec fn cmap_variation(cmap: Seq<u8>, cp: int, vs: int) -> Option<VariationLookup> {
    if !fits(cmap, 0, 4) {
        None
    } else {
        variation_from(cmap, cp, vs, be_u16(cmap, 2), 0)
    }
}

pub open spec fn glyph_result(g: Option<u16>) -> Result<GlyphId, Error> {
    match g {
        Some(v) => Ok(GlyphId(v)),
        None => Err(Error::NoGlyph),
    }
}

/// The answer to a variation query: a default sequence takes the base code
/// point's ordinary glyph.
pub open spec fn variation_result(cmap: Seq<u8>, cp: int, vs: int) -> Result<GlyphId, Error> {
    match cmap_variation(cmap, cp, vs) {
        Some(VariationLookup::UseDefault) => glyph_result(cmap_glyph(cmap, cp)),
        Some(VariationLookup::Glyph(g)) => Ok(GlyphId(g)),
        _ => Err(Error::NoGlyph),
    }
}

/// Looks `code_point` up in one subtable.
fn subtable_glyph_index(data: &[u8], code_point: u32) -> (r: Option<u16>)
    ensures
        r == subtable_glyph(data@, code_point as int),
{
    reveal(subtable_glyph);
    let format = match read_u16_at(data, 0) {
        Some(v) => parse_format(v),
        None => return None,
    };
    match format {
        Some(Format::ByteEncodingTable) => parse_byte_encoding_table(data, code_point),
        Some(Format::HighByteMappingThroughTable) => parse_high_byte_mapping_through_table(data, code_point),
        Some(Format::SegmentMappingToDeltaValues) => parse_segment_mapping_to_delta_values(data, code_point),
        Some(Format::SegmentedCoverage) => parse_segmented_coverage(data, code_point, Format::SegmentedCoverage),
        Some(Format::ManyToOneRangeMappings) => parse_segmented_coverage(data, code_point, Format::ManyToOneRangeMappings),
        _ => None,
    }
}

/// The bytes of `cmap` from `offset` on, if `offset` lies inside it.
fn subtable_from<'b>(cmap: &'b [u8], offset: u32) -> (r: Option<&'b [u8]>)
    ensures
        match r {
            Some(d) => offset <= cmap@.len() && d@ == subtable_at(cmap@, offset as int),
            None => offset > cmap@.len(),
        },
{
    let offset = offset as usize;
    if offset > cmap.len() {
        None
    } else {
        Some(&cmap[offset..cmap.len()])
    }
}

/// A font, seen through the bytes of its `cmap` table.
pub struct Font<'a> {
    cmap: &'a [u8],
}

impl<'a> View for Font<'a> {
    type V = Seq<u8>;

    closed spec fn view(&self) -> Seq<u8> {
        self.cmap@
    }
}

impl<'a> Font<'a> {
    /// A font whose `cmap` table is `cmap`.
    pub fn from_cmap(cmap: &'a [u8]) -> (r: Font<'a>)
        ensures
            r@ == cmap@,
    {
        Font { cmap }
    }

    /// Resolves the glyph of `c` through the subtables of formats 0, 2, 4, 12
    /// and 13, in file order; a zero glyph counts as none.
    pub fn glyph_index(&self, c: char) -> (r: Result<GlyphId, Error>)
        ensures
            r == glyph_result(cmap_glyph(self@, c as u32 as int)),
    {
        let cmap = self.cmap;
        let code_point = c as u32;
        let mut s = Stream::new(cmap);
        s.skip(2);  // version
        let num_tables = match s.read_u16() {
            Some(n) => n as usize,
            None => return Err(Error::NoGlyph),
        };
        let mut t: usize = 0;
        while t < num_tables
            invariant
                cmap@ == self@,
                s.data@ == cmap@,
                s.offset == 4 + 8 * t,
                code_point == c as u32,
                fits(cmap@, 0, 4),
                num_tables as int == be_u16(cmap@, 2),
                t <= num_tables,
                num_tables <= 0xFFFF,
                cmap_glyph(cmap@, code_point as int) == glyph_from(cmap@, code_point as int, num_tables as int, t as int),
            decreases num_tables - t,
        {
            s.skip(4);  // platform and encoding ids
            let offset = match s.read_u32() {
                Some(v) => v,
                None => return Err(Error::NoGlyph),
            };
            let glyph = match subtable_from(cmap, offset) {
                Some(d) => subtable_glyph_index(d, code_point),
                None => None,
            };
            if let Some(g) = glyph {
                if g != 0 {
                    return Ok(GlyphId(g));
                }
            }
            t = t + 1;
        }
        Err(Error::NoGlyph)
    }

    /// Resolves the glyph of the variation sequence `c` + `variation` through
    /// the first well-formed format 14 subtable.
    pub fn glyph_variation_index(&self, c: char, variation: char) -> (r: Result<GlyphId, Error>)
        ensures
            r == variation_result(self@, c as u32 as int, variation as u32 as int),
    {
        let cmap = self.cmap;
        let code_point = c as u32;
        let mut s = Stream::new(cmap);
        s.skip(2);  // version
        let num_tables = match s.read_u16() {
            Some(n) => n as usize,
            None => return Err(Error::NoGlyph),
        };
        let mut t: usize = 0;
        while t < num_tables
            invariant
                cmap@ == self@,
                s.data@ == cmap@,
                s.offset == 4 + 8 * t,
                code_point == c as u32,
                fits(cmap@, 0, 4),
                num_tables as int == be_u16(cmap@, 2),
                t <= num_tables,
                num_tables <= 0xFFFF,
                cmap_variation(cmap@, code_point as int, variation as u32 as int) == variation_from(
                    cmap@,
                    code_point as int,
                    variation as u32 as int,
                    num_tables as int,
                    t as int,
                ),
            decreases num_tables - t,
        {
            s.skip(4);  // platform and encoding ids
            let offset = match s.read_u32() {
                Some(v) => v,
                None => return Err(Error::NoGlyph),
            };
            let found = match subtable_from(cmap, offset) {
                Some(d) => {
                    if read_u16_at(d, 0) == Some(14u16) {
                        parse_unicode_variation_sequences(d, code_point, variation as u32)
                    } else {
                        None
                    }
                },
                None => None,
            };
            assert(found == record_variation(cmap@, t as int, code_point as int, variation as u32 as int)) by {
                reveal(record_variation);
            }
            match found {
                Some(VariationLookup::UseDefault) => return self.glyph_index(c),
                Some(VariationLookup::Glyph(g)) => return Ok(GlyphId(g)),
                Some(VariationLookup::Absent) => return Err(Error::NoGlyph),
                None => {},
            }
            t = t + 1;
        }
        Err(Error::NoGlyph)
    }
}

} // verus!
