//! Character-to-glyph mapping (`cmap`) lookups over a borrowed TrueType/OpenType table.
//!
//! `parser` reads big-endian integers from a byte buffer, `cmap` walks the
//! table's encoding records and resolves code points through subtable formats
//! 0, 2, 4, 12, 13 and 14, and `lemmas` proves facts about those lookups.

pub mod parser;
pub mod cmap;
pub mod lemmas;
