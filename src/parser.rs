//! Bounds-checked big-endian reads at a byte position of a borrowed buffer.

use vstd::prelude::*;

verus! {

/// `n` bytes starting at `p` lie inside `d`.
pub open spec fn fits(d: Seq<u8>, p: int, n: int) -> bool {
    0 <= p && 0 <= n && p + n <= d.len()
}

pub open spec fn be_u16(d: Seq<u8>, p: int) -> int {
    d[p] as int * 256 + d[p + 1] as int
}

pub open spec fn be_u24(d: Seq<u8>, p: int) -> int {
    d[p] as int * 65536 + d[p + 1] as int * 256 + d[p + 2] as int
}

pub open spec fn be_u32(d: Seq<u8>, p: int) -> int {
    d[p] as int * 16777216 + d[p + 1] as int * 65536 + d[p + 2] as int * 256 + d[p + 3] as int
}

/// Two's complement reading of a big-endian 16-bit field.
pub open spec fn be_i16(d: Seq<u8>, p: int) -> int {
    if be_u16(d, p) >= 32768 {
        be_u16(d, p) - 65536
    } else {
        be_u16(d, p)
    }
}

pub fn read_u8_at(data: &[u8], pos: usize) -> (r: Option<u8>)
    ensures
        match r {
            Some(v) => fits(data@, pos as int, 1) && v == data@[pos as int],
            None => !fits(data@, pos as int, 1),
        },
{
    if pos < data.len() {
        Some(data[pos])
    } else {
        None
    }
}

pub fn read_u16_at(data: &[u8], pos: usize) -> (r: Option<u16>)
    ensures
        match r {
            Some(v) => fits(data@, pos as int, 2) && v as int == be_u16(data@, pos as int),
            None => !fits(data@, pos as int, 2),
        },
{
    if pos < data.len() && data.len() - pos >= 2 {
        let hi = data[pos] as u16;
        let lo = data[pos + 1] as u16;
        Some(hi * 256 + lo)
    } else {
        None
    }
}

pub fn read_i16_at(data: &[u8], pos: usize) -> (r: Option<i16>)
    ensures
        match r {
            Some(v) => fits(data@, pos as int, 2) && v as int == be_i16(data@, pos as int),
            None => !fits(data@, pos as int, 2),
        },
{
    match read_u16_at(data, pos) {
        Some(v) => {
            if v >= 32768 {
                let w: i32 = v as i32 - 65536;
                Some(w as i16)
            } else {
                Some(v as i16)
            }
        },
        None => None,
    }
}

pub fn read_u24_at(data: &[u8], pos: usize) -> (r: Option<u32>)
    ensures
        match r {
            Some(v) => fits(data@, pos as int, 3) && v as int == be_u24(data@, pos as int),
            None => !fits(data@, pos as int, 3),
        },
{
    if pos < data.len() && data.len() - pos >= 3 {
        let b0 = data[pos] as u32;
        let b1 = data[pos + 1] as u32;
        let b2 = data[pos + 2] as u32;
        Some(b0 * 65536 + b1 * 256 + b2)
    } else {
        None
    }
}

pub fn read_u32_at(data: &[u8], pos: usize) -> (r: Option<u32>)
    ensures
        match r {
            Some(v) => fits(data@, pos as int, 4) && v as int == be_u32(data@, pos as int),
            None => !fits(data@, pos as int, 4),
        },
{
    if pos < data.len() && data.len() - pos >= 4 {
        let b0 = data[pos] as u32;
        let b1 = data[pos + 1] as u32;
        let b2 = data[pos + 2] as u32;
        let b3 = data[pos + 3] as u32;
        Some(b0 * 16777216 + b1 * 65536 + b2 * 256 + b3)
    } else {
        None
    }
}

/// A cursor over a borrowed byte buffer. Reads are big-endian; a read that
/// would pass the end of the buffer fails and leaves the cursor where it was.
pub struct Stream<'a> {
    pub data: &'a [u8],
    pub offset: usize,
}

impl<'a> Stream<'a> {
    pub fn new(data: &'a [u8]) -> (r: Stream<'a>)
        ensures
            r.data@ == data@,
            r.offset == 0,
    {
        Stream { data, offset: 0 }
    }

    /// Moves the cursor `n` bytes on; a cursor at `usize::MAX` stays there.
    pub fn skip(&mut self, n: usize)
        ensures
            final(self).data == old(self).data,
            final(self).offset as int == if old(self).offset + n <= usize::MAX {
                old(self).offset + n
            } else {
                usize::MAX as int
            },
    {
        self.offset = self.offset.saturating_add(n);
    }

    pub fn read_u16(&mut self) -> (r: Option<u16>)
        ensures
            final(self).data == old(self).data,
            match r {
                Some(v) => fits(old(self).data@, old(self).offset as int, 2) && v as int == be_u16(
                    old(self).data@,
                    old(self).offset as int,
                ) && final(self).offset == old(self).offset + 2,
                None => !fits(old(self).data@, old(self).offset as int, 2) && final(self).offset
                    == old(self).offset,
            },
    {
        if self.offset < self.data.len() && self.data.len() - self.offset >= 2 {
            let v = read_u16_at(self.data, self.offset).unwrap();
            self.offset = self.offset + 2;
            Some(v)
        } else {
            None
        }
    }

    pub fn read_u32(&mut self) -> (r: Option<u32>)
        ensures
            final(self).data == old(self).data,
            match r {
                Some(v) => fits(old(self).data@, old(self).offset as int, 4) && v as int == be_u32(
                    old(self).data@,
                    old(self).offset as int,
                ) && final(self).offset == old(self).offset + 4,
                None => !fits(old(self).data@, old(self).offset as int, 4) && final(self).offset
                    == old(self).offset,
            },
    {
        if self.offset < self.data.len() && self.data.len() - self.offset >= 4 {
            let v = read_u32_at(self.data, self.offset).unwrap();
            self.offset = self.offset + 4;
            Some(v)
        } else {
            None
        }
    }
}

} // verus!
