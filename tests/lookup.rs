use ttf_cmap::cmap::{
    parse_byte_encoding_table, parse_high_byte_mapping_through_table, parse_segment_mapping_to_delta_values,
    parse_segmented_coverage, parse_unicode_variation_sequences, Error, Font, Format, GlyphId, VariationLookup,
};

fn push16(v: &mut Vec<u8>, x: u16) {
    v.extend_from_slice(&x.to_be_bytes());
}

fn push24(v: &mut Vec<u8>, x: u32) {
    v.extend_from_slice(&x.to_be_bytes()[1..]);
}

fn push32(v: &mut Vec<u8>, x: u32) {
    v.extend_from_slice(&x.to_be_bytes());
}

fn ch(cp: u32) -> char {
    char::from_u32(cp).unwrap()
}

/// A cmap table whose encoding records point at `subtables`, laid out in order.
fn cmap_with(subtables: &[Vec<u8>]) -> Vec<u8> {
    let mut v = Vec::new();
    push16(&mut v, 0);
    push16(&mut v, subtables.len() as u16);
    let mut offset = 4 + 8 * subtables.len() as u32;
    for s in subtables {
        push16(&mut v, 0);
        push16(&mut v, 3);
        push32(&mut v, offset);
        offset += s.len() as u32;
    }
    for s in subtables {
        v.extend_from_slice(s);
    }
    v
}

/// Format 4 with segments `(start, end, delta, range_offset)` and a glyph array.
fn format4(segments: &[(u16, u16, i16, u16)], glyphs: &[u16]) -> Vec<u8> {
    let n = segments.len() as u16;
    let mut v = Vec::new();
    push16(&mut v, 4);
    push16(&mut v, 16 + 8 * n + 2 * glyphs.len() as u16);
    push16(&mut v, 0);
    push16(&mut v, 2 * n);
    push16(&mut v, 0);
    push16(&mut v, 0);
    push16(&mut v, 0);
    for s in segments {
        push16(&mut v, s.1);
    }
    push16(&mut v, 0);
    for s in segments {
        push16(&mut v, s.0);
    }
    for s in segments {
        push16(&mut v, s.2 as u16);
    }
    for s in segments {
        push16(&mut v, s.3);
    }
    for g in glyphs {
        push16(&mut v, *g);
    }
    v
}

/// Format 12 or 13 with groups `(start, end, glyph)`.
fn format12(format: u16, groups: &[(u32, u32, u32)]) -> Vec<u8> {
    let mut v = Vec::new();
    push16(&mut v, format);
    push16(&mut v, 0);
    push32(&mut v, 16 + 12 * groups.len() as u32);
    push32(&mut v, 0);
    push32(&mut v, groups.len() as u32);
    for g in groups {
        push32(&mut v, g.0);
        push32(&mut v, g.1);
        push32(&mut v, g.2);
    }
    v
}

/// Format 14 with selector records, each with optional Default ranges
/// `(start, additional)` and Non-Default mappings `(code point, glyph)`.
fn format14(records: &[(u32, Option<Vec<(u32, u8)>>, Option<Vec<(u32, u16)>>)]) -> Vec<u8> {
    let mut tables = Vec::new();
    let mut offsets = Vec::new();
    let mut next = 10 + 11 * records.len() as u32;
    for r in records {
        let d = match &r.1 {
            Some(ranges) => {
                let at = next;
                push32(&mut tables, ranges.len() as u32);
                for x in ranges {
                    push24(&mut tables, x.0);
                    tables.push(x.1);
                }
                next = 10 + 11 * records.len() as u32 + tables.len() as u32;
                at
            }
            None => 0,
        };
        let n = match &r.2 {
            Some(maps) => {
                let at = next;
                push32(&mut tables, maps.len() as u32);
                for x in maps {
                    push24(&mut tables, x.0);
                    push16(&mut tables, x.1);
                }
                next = 10 + 11 * records.len() as u32 + tables.len() as u32;
                at
            }
            None => 0,
        };
        offsets.push((d, n));
    }
    let mut v = Vec::new();
    push16(&mut v, 14);
    push32(&mut v, next);
    push32(&mut v, records.len() as u32);
    for (r, o) in records.iter().zip(offsets.iter()) {
        push24(&mut v, r.0);
        push32(&mut v, o.0);
        push32(&mut v, o.1);
    }
    v.extend_from_slice(&tables);
    v
}

/// Format 0 mapping the bytes given as `(code, glyph)`.
fn format0(pairs: &[(u8, u8)]) -> Vec<u8> {
    let mut v = Vec::new();
    push16(&mut v, 0);
    push16(&mut v, 262);
    push16(&mut v, 0);
    let mut table = vec![0u8; 256];
    for p in pairs {
        table[p.0 as usize] = p.1;
    }
    v.extend_from_slice(&table);
    v
}

/// A format 2 subtable with the given keys, sub-headers
/// `(first, count, delta, range_offset)` and glyph array.
fn format2(keys: &[(usize, u16)], headers: &[(u16, u16, i16, u16)], glyphs: &[u16]) -> Vec<u8> {
    let mut v = Vec::new();
    push16(&mut v, 2);
    push16(&mut v, 0);
    push16(&mut v, 0);
    let mut all = vec![0u16; 256];
    for k in keys {
        all[k.0] = k.1;
    }
    for k in all {
        push16(&mut v, k);
    }
    for h in headers {
        push16(&mut v, h.0);
        push16(&mut v, h.1);
        push16(&mut v, h.2 as u16);
        push16(&mut v, h.3);
    }
    for g in glyphs {
        push16(&mut v, *g);
    }
    v
}

fn letter_a_font() -> Vec<u8> {
    cmap_with(&[format4(&[(0x41, 0x41, -29, 0), (0xFFFF, 0xFFFF, 1, 0)], &[])])
}

fn unknown_subtable() -> Vec<u8> {
    let mut v = Vec::new();
    push16(&mut v, 7);
    push16(&mut v, 8);
    push32(&mut v, 0);
    v
}

fn digits_font() -> Vec<u8> {
    cmap_with(&[
        format4(&[(0x30, 0x39, -31, 0), (0xFFFF, 0xFFFF, 1, 0)], &[]),
        format14(&[
            (0xFE00, Some(vec![(0x30, 9), (0x41, 0)]), None),
            (0xFE01, None, Some(vec![(0x8FBB, 4321), (0x9000, 17)])),
            (0xFE02, None, None),
        ]),
    ])
}

fn shift_jis_subtable() -> Vec<u8> {
    let glyphs: Vec<u16> = (0..0xBDu16).map(|i| 600 + i).collect();
    format2(&[(0x81, 8)], &[(0, 256, 0, 0), (0x40, 0xBD, 0, 2)], &glyphs)
}

#[test]
fn format4_maps_letter_a() {
    let data = letter_a_font();
    let font = Font::from_cmap(&data);
    assert_eq!(font.glyph_index('A'), Ok(GlyphId(36)));
}

#[test]
fn format4_gap_has_no_glyph() {
    let data = letter_a_font();
    let font = Font::from_cmap(&data);
    assert_eq!(font.glyph_index('B'), Err(Error::NoGlyph));
    assert_eq!(font.glyph_index('@'), Err(Error::NoGlyph));
}

#[test]
fn format4_terminal_segment_wraps() {
    let data = letter_a_font();
    let font = Font::from_cmap(&data);
    assert_eq!(font.glyph_index(ch(0xFFFE)), Err(Error::NoGlyph));
    let sub = format4(&[(0x41, 0x41, -29, 0), (0xFFFF, 0xFFFF, 1, 0)], &[]);
    assert_eq!(parse_segment_mapping_to_delta_values(&sub, 0xFFFE), None);
    // 0xFFFF + 1 wraps to glyph 0, which the walk treats as no glyph.
    assert_eq!(parse_segment_mapping_to_delta_values(&sub, 0xFFFF), Some(0));
    assert_eq!(font.glyph_index(ch(0xFFFF)), Err(Error::NoGlyph));
}

#[test]
fn format4_delta_only_segments_add_delta() {
    let sub = format4(&[(0x20, 0x2F, -0x1F, 0), (0x41, 0x5A, 3, 0), (0xFFFF, 0xFFFF, 1, 0)], &[]);
    assert_eq!(parse_segment_mapping_to_delta_values(&sub, 0x20), Some(1));
    assert_eq!(parse_segment_mapping_to_delta_values(&sub, 0x2F), Some(16));
    assert_eq!(parse_segment_mapping_to_delta_values(&sub, 0x41), Some(0x44));
    assert_eq!(parse_segment_mapping_to_delta_values(&sub, 0x5A), Some(0x5D));
    assert_eq!(parse_segment_mapping_to_delta_values(&sub, 0x30), None);
}

#[test]
fn format4_reads_glyph_array() {
    // Segment 0 reads the glyph array: idRangeOffset[0] sits 4 bytes before it.
    let sub = format4(&[(0x61, 0x63, 5, 4), (0xFFFF, 0xFFFF, 1, 0)], &[70, 0, 72]);
    assert_eq!(parse_segment_mapping_to_delta_values(&sub, 0x61), Some(75));
    assert_eq!(parse_segment_mapping_to_delta_values(&sub, 0x62), None);
    assert_eq!(parse_segment_mapping_to_delta_values(&sub, 0x63), Some(77));
    let data = cmap_with(&[sub]);
    let font = Font::from_cmap(&data);
    assert_eq!(font.glyph_index('a'), Ok(GlyphId(75)));
    assert_eq!(font.glyph_index('b'), Err(Error::NoGlyph));
}

#[test]
fn format12_offsets_from_group_start() {
    let data = cmap_with(&[format12(12, &[(0x1F600, 0x1F64F, 200)])]);
    let font = Font::from_cmap(&data);
    assert_eq!(font.glyph_index(ch(0x1F60A)), Ok(GlyphId(210)));
    assert_eq!(font.glyph_index(ch(0x1F600)), Ok(GlyphId(200)));
    assert_eq!(font.glyph_index(ch(0x1F64F)), Ok(GlyphId(279)));
    assert_eq!(font.glyph_index(ch(0x1F650)), Err(Error::NoGlyph));
}

#[test]
fn format12_uses_containing_group() {
    let sub = format12(12, &[(0x100, 0x10F, 10), (0x200, 0x2FF, 0x1FFFF)]);
    assert_eq!(parse_segmented_coverage(&sub, 0x105, Format::SegmentedCoverage), Some(15));
    // 0x1FFFF + 1 truncated to 16 bits.
    assert_eq!(parse_segmented_coverage(&sub, 0x201, Format::SegmentedCoverage), Some(0));
    assert_eq!(parse_segmented_coverage(&sub, 0x202, Format::SegmentedCoverage), Some(1));
    assert_eq!(parse_segmented_coverage(&sub, 0x1FF, Format::SegmentedCoverage), None);
}

#[test]
fn format13_maps_range_to_one_glyph() {
    let data = cmap_with(&[format12(13, &[(0x100, 0x1FF, 7)])]);
    let font = Font::from_cmap(&data);
    assert_eq!(font.glyph_index(ch(0x150)), Ok(GlyphId(7)));
    assert_eq!(font.glyph_index(ch(0x1FF)), Ok(GlyphId(7)));
    assert_eq!(font.glyph_index(ch(0x200)), Err(Error::NoGlyph));
}

#[test]
fn format0_maps_single_bytes() {
    let sub = format0(&[(0x41, 5), (0xFF, 9)]);
    assert_eq!(parse_byte_encoding_table(&sub, 0x41), Some(5));
    assert_eq!(parse_byte_encoding_table(&sub, 0x42), Some(0));
    assert_eq!(parse_byte_encoding_table(&sub, 0x10041), None);
    let data = cmap_with(&[sub]);
    let font = Font::from_cmap(&data);
    assert_eq!(font.glyph_index('A'), Ok(GlyphId(5)));
    assert_eq!(font.glyph_index(ch(0xFF)), Ok(GlyphId(9)));
    assert_eq!(font.glyph_index('B'), Err(Error::NoGlyph));
}

#[test]
fn zero_glyph_falls_through_to_next_subtable() {
    let data = cmap_with(&[format0(&[]), format4(&[(0x41, 0x41, -29, 0), (0xFFFF, 0xFFFF, 1, 0)], &[])]);
    let font = Font::from_cmap(&data);
    assert_eq!(font.glyph_index('A'), Ok(GlyphId(36)));
}

#[test]
fn format2_shift_jis_double_byte() {
    let sub = shift_jis_subtable();
    assert_eq!(parse_high_byte_mapping_through_table(&sub, 0x8140), Some(600));
    assert_eq!(parse_high_byte_mapping_through_table(&sub, 0x8145), Some(605));
    assert_eq!(parse_high_byte_mapping_through_table(&sub, 0x81FC), Some(600 + 0xBC));
    // firstCode + entryCount is past the end of the range.
    assert_eq!(parse_high_byte_mapping_through_table(&sub, 0x81FD), None);
    assert_eq!(parse_high_byte_mapping_through_table(&sub, 0x813F), None);
    let data = cmap_with(&[sub]);
    let font = Font::from_cmap(&data);
    assert_eq!(font.glyph_index(ch(0x8145)), Ok(GlyphId(605)));
}

#[test]
fn format2_zero_key_uses_first_sub_header() {
    let mut glyphs = vec![0u16; 16];
    glyphs[5] = 100;
    let sub = format2(&[], &[(0x20, 0x10, 2, 2)], &glyphs);
    assert_eq!(parse_high_byte_mapping_through_table(&sub, 0x0125), Some(102));
    assert_eq!(parse_high_byte_mapping_through_table(&sub, 0x25), Some(102));
    assert_eq!(parse_high_byte_mapping_through_table(&sub, 0x0124), None);
    assert_eq!(parse_high_byte_mapping_through_table(&sub, 0x0130), None);
    assert_eq!(parse_high_byte_mapping_through_table(&sub, 0x011F), None);
}

#[test]
fn format2_delta_wraps() {
    let sub = format2(&[], &[(0, 4, -3, 2)], &[1, 2, 3, 4]);
    assert_eq!(parse_high_byte_mapping_through_table(&sub, 0), Some(65534));
    assert_eq!(parse_high_byte_mapping_through_table(&sub, 3), Some(1));
}

#[test]
fn wide_code_points_miss_sixteen_bit_formats() {
    let f4 = format4(&[(0x0, 0xFFFE, 1, 0), (0xFFFF, 0xFFFF, 1, 0)], &[]);
    assert_eq!(parse_segment_mapping_to_delta_values(&f4, 0x1F600), None);
    assert_eq!(parse_segment_mapping_to_delta_values(&f4, 0x10000), None);
    let f0 = format0(&[(0x41, 5)]);
    assert_eq!(parse_byte_encoding_table(&f0, 0x10041), None);
    let f2 = shift_jis_subtable();
    assert_eq!(parse_high_byte_mapping_through_table(&f2, 0x18140), None);
    let data = cmap_with(&[f4, f0, f2]);
    let font = Font::from_cmap(&data);
    assert_eq!(font.glyph_index(ch(0x1F600)), Err(Error::NoGlyph));
}

#[test]
fn variation_default_range_uses_plain_glyph() {
    let data = digits_font();
    let font = Font::from_cmap(&data);
    assert_eq!(font.glyph_index(ch(0x35)), Ok(GlyphId(22)));
    assert_eq!(font.glyph_variation_index(ch(0x35), ch(0xFE00)), Ok(GlyphId(22)));
    assert_eq!(font.glyph_variation_index(ch(0x30), ch(0xFE00)), font.glyph_index(ch(0x30)));
    assert_eq!(font.glyph_variation_index(ch(0x39), ch(0xFE00)), font.glyph_index(ch(0x39)));
    // Default, but the plain lookup has no glyph for 'A'.
    assert_eq!(font.glyph_variation_index('A', ch(0xFE00)), Err(Error::NoGlyph));
    assert_eq!(font.glyph_variation_index(ch(0x3A), ch(0xFE00)), Err(Error::NoGlyph));
}

#[test]
fn variation_non_default_mapping() {
    let data = digits_font();
    let font = Font::from_cmap(&data);
    assert_eq!(font.glyph_variation_index(ch(0x8FBB), ch(0xFE01)), Ok(GlyphId(4321)));
    assert_eq!(font.glyph_variation_index(ch(0x9000), ch(0xFE01)), Ok(GlyphId(17)));
    assert_eq!(font.glyph_variation_index(ch(0x8FBC), ch(0xFE01)), Err(Error::NoGlyph));
    assert_eq!(font.glyph_variation_index(ch(0x8FBB), ch(0xFE03)), Err(Error::NoGlyph));
}

#[test]
fn variation_selector_without_tables() {
    let data = digits_font();
    let font = Font::from_cmap(&data);
    assert_eq!(font.glyph_variation_index(ch(0x35), ch(0xFE02)), Err(Error::NoGlyph));
    let sub = format14(&[(0xFE02, None, None)]);
    assert_eq!(parse_unicode_variation_sequences(&sub, 0x35, 0xFE02), Some(VariationLookup::Absent));
}

#[test]
fn variation_needs_format14() {
    let data = letter_a_font();
    let font = Font::from_cmap(&data);
    assert_eq!(font.glyph_variation_index('A', ch(0xFE00)), Err(Error::NoGlyph));
}

#[test]
fn variation_lookup_results() {
    let sub = format14(&[(0xFE00, Some(vec![(0x30, 9)]), Some(vec![(0x41, 8)]))]);
    assert_eq!(parse_unicode_variation_sequences(&sub, 0x31, 0xFE00), Some(VariationLookup::UseDefault));
    assert_eq!(parse_unicode_variation_sequences(&sub, 0x41, 0xFE00), Some(VariationLookup::Glyph(8)));
    assert_eq!(parse_unicode_variation_sequences(&sub, 0x42, 0xFE00), Some(VariationLookup::Absent));
    // A truncated subtable is malformed.
    assert_eq!(parse_unicode_variation_sequences(&sub[..12], 0x41, 0xFE00), None);
}

#[test]
fn empty_directory_has_no_glyph() {
    let data = vec![0u8, 0, 0, 0];
    let font = Font::from_cmap(&data);
    assert_eq!(font.glyph_index('A'), Err(Error::NoGlyph));
    assert_eq!(font.glyph_variation_index('A', ch(0xFE00)), Err(Error::NoGlyph));
}

#[test]
fn short_tables_have_no_glyph() {
    let code_points = [0u32, 0x41, 0xFF, 0x100, 0xFFFF, 0x1F600, 0x10FFFF];
    for pos in 0..4 {
        for byte in 0..=255u8 {
            let mut data = vec![0u8, 0, 0, 1];
            data[pos] = byte;
            let font = Font::from_cmap(&data);
            for cp in code_points {
                assert_eq!(font.glyph_index(ch(cp)), Err(Error::NoGlyph));
                assert_eq!(font.glyph_variation_index(ch(cp), ch(0xFE00)), Err(Error::NoGlyph));
            }
        }
    }
    let empty: Vec<u8> = Vec::new();
    assert_eq!(Font::from_cmap(&empty).glyph_index('A'), Err(Error::NoGlyph));
}

#[test]
fn unknown_subtables_change_nothing() {
    let plain = letter_a_font();
    let mixed = cmap_with(&[
        unknown_subtable(),
        format4(&[(0x41, 0x41, -29, 0), (0xFFFF, 0xFFFF, 1, 0)], &[]),
        unknown_subtable(),
    ]);
    for c in ['A', 'B', '@'] {
        assert_eq!(Font::from_cmap(&plain).glyph_index(c), Font::from_cmap(&mixed).glyph_index(c));
    }
    assert_eq!(Font::from_cmap(&mixed).glyph_index('A'), Ok(GlyphId(36)));
}

#[test]
fn out_of_range_offset_is_skipped() {
    let mut data = letter_a_font();
    // The only record points far past the table.
    data[8..12].copy_from_slice(&0xFFFF_0000u32.to_be_bytes());
    let font = Font::from_cmap(&data);
    assert_eq!(font.glyph_index('A'), Err(Error::NoGlyph));
    let good = cmap_with(&[unknown_subtable(), format4(&[(0x41, 0x41, -29, 0), (0xFFFF, 0xFFFF, 1, 0)], &[])]);
    let mut bad_first = good.clone();
    bad_first[8..12].copy_from_slice(&0xFFFF_0000u32.to_be_bytes());
    assert_eq!(Font::from_cmap(&bad_first).glyph_index('A'), Ok(GlyphId(36)));
}

#[test]
fn truncated_subtables_are_skipped() {
    let sub = format4(&[(0x41, 0x41, -29, 0), (0xFFFF, 0xFFFF, 1, 0)], &[]);
    assert_eq!(parse_segment_mapping_to_delta_values(&sub[..sub.len() - 1], 0x41), None);
    let groups = format12(12, &[(0x41, 0x41, 3)]);
    assert_eq!(parse_segmented_coverage(&groups[..groups.len() - 1], 0x41, Format::SegmentedCoverage), None);
    let f2 = shift_jis_subtable();
    assert_eq!(parse_high_byte_mapping_through_table(&f2[..530], 0x8140), None);
    assert_eq!(parse_byte_encoding_table(&format0(&[(0x41, 5)])[..5], 0x41), None);
}

#[test]
fn lookups_are_repeatable() {
    let data = digits_font();
    let font = Font::from_cmap(&data);
    let copy = data.clone();
    for cp in [0x30u32, 0x35, 0x41, 0x8FBB, 0xFFFF] {
        let first = font.glyph_index(ch(cp));
        assert_eq!(font.glyph_index(ch(cp)), first);
        assert_eq!(Font::from_cmap(&copy).glyph_index(ch(cp)), first);
        let v = font.glyph_variation_index(ch(cp), ch(0xFE01));
        assert_eq!(font.glyph_variation_index(ch(cp), ch(0xFE01)), v);
    }
    assert_eq!(data, copy);
}

#[test]
fn format4_overlapping_segments_use_first_reaching_end() {
    let sub = format4(&[(0x10, 0x50, 1, 0), (0x20, 0x60, 2, 0), (0xFFFF, 0xFFFF, 1, 0)], &[]);
    assert_eq!(parse_segment_mapping_to_delta_values(&sub, 0x30), Some(0x31));
    assert_eq!(parse_segment_mapping_to_delta_values(&sub, 0x10), Some(0x11));
    assert_eq!(parse_segment_mapping_to_delta_values(&sub, 0x55), Some(0x57));
    let data = cmap_with(&[sub]);
    assert_eq!(Font::from_cmap(&data).glyph_index('0'), Ok(GlyphId(0x31)));
}

#[test]
fn format4_first_reaching_segment_starting_above_is_no_match() {
    let sub = format4(&[(0x10, 0x20, 1, 0), (0x05, 0x60, 1, 0), (0xFFFF, 0xFFFF, 1, 0)], &[]);
    assert_eq!(parse_segment_mapping_to_delta_values(&sub, 0x08), None);
    assert_eq!(parse_segment_mapping_to_delta_values(&sub, 0x15), Some(0x16));
    assert_eq!(parse_segment_mapping_to_delta_values(&sub, 0x30), Some(0x31));
}

#[test]
fn format4_overlapping_segment_reads_glyph_array() {
    // idRangeOffset[0] sits at byte 34; the glyph array starts at byte 40.
    let sub = format4(&[(0x2F, 0x50, 0, 6), (0x20, 0x60, 0, 0), (0xFFFF, 0xFFFF, 1, 0)], &[5, 7]);
    assert_eq!(parse_segment_mapping_to_delta_values(&sub, 0x2F), Some(5));
    assert_eq!(parse_segment_mapping_to_delta_values(&sub, 0x30), Some(7));
    assert_eq!(parse_segment_mapping_to_delta_values(&sub, 0x55), Some(0x55));
}

#[test]
fn format0_covers_single_bytes_only() {
    let sub = format0(&[(0xFF, 9)]);
    // A format 4 subtable follows, so the bytes after the array are not zero.
    let data = cmap_with(&[sub.clone(), format4(&[(0x41, 0x41, -29, 0), (0xFFFF, 0xFFFF, 1, 0)], &[])]);
    assert_eq!(data[20 + 263], 4);
    let font = Font::from_cmap(&data);
    for cp in 0x100u32..=0x105 {
        assert_eq!(parse_byte_encoding_table(&data[20..], cp), None);
        assert_eq!(font.glyph_index(ch(cp)), Err(Error::NoGlyph));
    }
    assert_eq!(parse_byte_encoding_table(&sub, 0xFF), Some(9));
}
