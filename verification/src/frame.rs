//! Finding the frame header of a JPEG file without decoding the file.
//!
//! A JPEG file is a run of segments, each begun by a marker: the byte `FF`
//! and a byte that says what the segment is. The frame header is the
//! segment that says how the picture is coded. This module walks the
//! segments as a decoder walks them, up to the first frame header, to tell
//! pictures of the lossless kind from the others before any decoding is
//! tried.

use vstd::prelude::*;

verus! {

/// The marker that opens a JPEG file.
pub const START_OF_IMAGE: u8 = 0xD8;

/// The marker of the frame header of a lossless picture with Huffman
/// coding.
pub const LOSSLESS_FRAME: u8 = 0xC3;

/// Whether the marker `m` begins a frame header.
pub open spec fn is_frame_marker(m: u8) -> bool {
    0xC0 <= m <= 0xCF && m != 0xC4 && m != 0xC8 && m != 0xCC
}

/// Whether the marker `m` begins a segment that may stand before the frame
/// header and is passed over on the way to it: quantization tables, Huffman
/// tables, the restart interval, a comment, or application data.
pub open spec fn is_passed_over(m: u8) -> bool {
    m == 0xDB || m == 0xC4 || m == 0xDD || m == 0xFE || 0xE0 <= m <= 0xEF
}

/// The marker of the first frame header met when the segments of `bytes`
/// are walked from `pos` on, where a marker is expected at `pos`.
///
/// Bytes before the next `FF` are passed over, and so are further `FF`
/// bytes and the pair `FF 00`. A segment that is passed over says its own
/// length in its first two bytes. Any other marker ends the walk, and so
/// does the end of the bytes, also where a segment reaches to it: then
/// there is no frame header.
pub open spec fn frame_marker_from(bytes: Seq<u8>, pos: int) -> Option<u8>
    decreases bytes.len() - pos,
{
    if pos < 0 || pos + 1 >= bytes.len() {
        None
    } else if bytes[pos] != 0xFF {
        frame_marker_from(bytes, pos + 1)
    } else {
        let m = bytes[pos + 1];
        if m == 0xFF {
            frame_marker_from(bytes, pos + 1)
        } else if m == 0x00 {
            frame_marker_from(bytes, pos + 2)
        } else if is_frame_marker(m) {
            Some(m)
        } else if is_passed_over(m) {
            if pos + 3 >= bytes.len() {
                None
            } else {
                let length = bytes[pos + 2] * 256 + bytes[pos + 3];
                if length < 2 || pos + 3 + length >= bytes.len() {
                    None
                } else {
                    frame_marker_from(bytes, pos + 2 + length)
                }
            }
        } else {
            None
        }
    }
}

/// The marker of the first frame header of the JPEG file `bytes`, or `None`
/// where `bytes` does not begin as a JPEG file or the walk through its
/// segments ends before a frame header.
pub open spec fn first_frame_marker(bytes: Seq<u8>) -> Option<u8> {
    if bytes.len() >= 2 && bytes[0] == 0xFF && bytes[1] == START_OF_IMAGE {
        frame_marker_from(bytes, 2)
    } else {
        None
    }
}

/// Whether `bytes` is a JPEG file whose first frame header is that of a
/// lossless picture.
pub open spec fn is_lossless_jpeg(bytes: Seq<u8>) -> bool {
    first_frame_marker(bytes) == Some(LOSSLESS_FRAME)
}

/// Finds the marker of the first frame header of a JPEG file.
pub fn find_frame_marker(bytes: &[u8]) -> (r: Option<u8>)
    ensures
        r == first_frame_marker(bytes@),
{
    let len = bytes.len();
    if len < 2 || bytes[0] != 0xFF || bytes[1] != START_OF_IMAGE {
        return None;
    }
    let mut pos: usize = 2;
    while len - pos > 1
        invariant
            len == bytes@.len(),
            2 <= pos <= len,
            first_frame_marker(bytes@) == frame_marker_from(bytes@, pos as int),
        decreases len - pos,
    {
        if bytes[pos] != 0xFF {
            pos += 1;
        } else {
            let m = bytes[pos + 1];
            if m == 0xFF {
                pos += 1;
            } else if m == 0x00 {
                pos += 2;
            } else if 0xC0 <= m && m <= 0xCF && m != 0xC4 && m != 0xC8 && m != 0xCC {
                return Some(m);
            } else if m == 0xDB || m == 0xC4 || m == 0xDD || m == 0xFE || (0xE0 <= m && m <= 0xEF) {
                if len - pos <= 3 {
                    return None;
                }
                let length: usize = (bytes[pos + 2] as usize) * 256 + (bytes[pos + 3] as usize);
                if length < 2 {
                    return None;
                }
                if length >= len - pos - 3 {
                    return None;
                }
                pos = pos + 2 + length;
            } else {
                return None;
            }
        }
    }
    None
}

/// Tells whether `bytes` is a JPEG file whose first frame header is that of
/// a lossless picture.
pub fn has_lossless_frame(bytes: &[u8]) -> (lossless: bool)
    ensures
        lossless == is_lossless_jpeg(bytes@),
{
    match find_frame_marker(bytes) {
        Some(m) => m == LOSSLESS_FRAME,
        None => false,
    }
}

} // verus!
