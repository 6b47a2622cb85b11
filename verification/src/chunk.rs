//! Looking at the palette of a PNG file without decoding the file.
//!
//! After its eight bytes of signature a PNG file is a run of chunks. Each
//! chunk says its own length in four bytes and its kind in four more; then
//! come the data and four bytes of checksum. The palette is the data of the
//! chunk of kind `PLTE`: three bytes for each of at most 256 colours. This
//! module walks the chunks to tell files with a palette of another length
//! from the others before any decoding is tried.

use vstd::prelude::*;

verus! {

/// Whether `bytes` begins with the signature of a PNG file.
pub open spec fn has_png_signature(bytes: Seq<u8>) -> bool {
    &&& bytes.len() >= 8
    &&& bytes[0] == 0x89
    &&& bytes[1] == 0x50
    &&& bytes[2] == 0x4E
    &&& bytes[3] == 0x47
    &&& bytes[4] == 0x0D
    &&& bytes[5] == 0x0A
    &&& bytes[6] == 0x1A
    &&& bytes[7] == 0x0A
}

/// The length that the chunk beginning at `pos` says it has.
pub open spec fn chunk_length(bytes: Seq<u8>, pos: int) -> int {
    bytes[pos] * 0x100_0000 + bytes[pos + 1] * 0x1_0000 + bytes[pos + 2] * 0x100 + bytes[pos + 3]
}

/// Whether the chunk beginning at `pos` says it is a palette.
pub open spec fn is_palette_chunk(bytes: Seq<u8>, pos: int) -> bool {
    &&& bytes[pos + 4] == 0x50
    &&& bytes[pos + 5] == 0x4C
    &&& bytes[pos + 6] == 0x54
    &&& bytes[pos + 7] == 0x45
}

/// Whether `n` bytes are a palette: three bytes for each of at most 256
/// colours.
pub open spec fn is_palette_length(n: int) -> bool {
    n % 3 == 0 && n <= 768
}

/// Whether, among the chunks of `bytes` from the one beginning at `pos` on,
/// there is a palette whose length is not that of a palette. The walk goes
/// from chunk to chunk by the lengths they say, as far as the bytes reach.
pub open spec fn odd_palette_from(bytes: Seq<u8>, pos: int) -> bool
    decreases bytes.len() - pos,
{
    if pos < 0 || pos + 8 > bytes.len() {
        false
    } else if is_palette_chunk(bytes, pos) && !is_palette_length(chunk_length(bytes, pos)) {
        true
    } else if pos + chunk_length(bytes, pos) + 20 > bytes.len() {
        false
    } else {
        odd_palette_from(bytes, pos + chunk_length(bytes, pos) + 12)
    }
}

/// Whether `bytes` is a PNG file with a palette whose length is not that of
/// a palette.
pub open spec fn has_odd_palette(bytes: Seq<u8>) -> bool {
    has_png_signature(bytes) && odd_palette_from(bytes, 8)
}

/// Tells whether `bytes` is a PNG file with a palette whose length is not
/// that of a palette.
pub fn finds_odd_palette(bytes: &[u8]) -> (odd: bool)
    ensures
        odd == has_odd_palette(bytes@),
{
    let n = bytes.len();
    if n < 8 || bytes[0] != 0x89 || bytes[1] != 0x50 || bytes[2] != 0x4E || bytes[3] != 0x47
        || bytes[4] != 0x0D || bytes[5] != 0x0A || bytes[6] != 0x1A || bytes[7] != 0x0A {
        return false;
    }
    let mut pos: usize = 8;
    while n - pos >= 8
        invariant
            n == bytes@.len(),
            8 <= pos <= n,
            has_odd_palette(bytes@) == odd_palette_from(bytes@, pos as int),
        decreases n - pos,
    {
        let length: u32 = (bytes[pos] as u32) * 0x100_0000 + (bytes[pos + 1] as u32) * 0x1_0000 + (
        bytes[pos + 2] as u32) * 0x100 + (bytes[pos + 3] as u32);
        let palette = bytes[pos + 4] == 0x50 && bytes[pos + 5] == 0x4C && bytes[pos + 6] == 0x54
            && bytes[pos + 7] == 0x45;
        if palette && (length % 3 != 0 || length > 768) {
            return true;
        }
        if n - pos < 20 || length as usize > n - pos - 20 {
            return false;
        }
        pos = pos + length as usize + 12;
    }
    false
}

} // verus!
