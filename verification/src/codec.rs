//! Decoding picture files into rasters and encoding rasters as PNG files.
//!
//! The codecs themselves come from the `image` crate. What they compute is
//! not proved here: the two private functions at the bottom of this file
//! call them, and the contracts of those two functions are taken on trust.

use vstd::prelude::*;
use crate::chunk::{finds_odd_palette, has_odd_palette};
use crate::frame::{has_lossless_frame, is_lossless_jpeg};
use crate::raster::{Picture, Raster};

verus! {

/// What the `image` crate decodes from the contents of a picture file whose
/// name ends in the given extension: the width, the height and the RGBA
/// samples, or `None` where the extension names no format or the contents
/// are no picture of that format that it can decode.
pub uninterp spec fn image_decoded(extension: Seq<char>, bytes: Seq<u8>) -> Option<
    (u32, u32, Seq<u8>),
>;

/// What the `image` crate writes when it encodes RGBA samples of the given
/// width and height as a PNG file, or `None` where it refuses to.
pub uninterp spec fn png_encoded(width: u32, height: u32, data: Seq<u8>) -> Option<Seq<u8>>;

/// Whether the contents of a file are kept from the decoder: a JPEG file
/// of the lossless kind, or a PNG file whose palette has not the length of
/// a palette. On some such files the decoder stops the program instead of
/// reporting a failure.
pub open spec fn is_kept_back(bytes: Seq<u8>) -> bool {
    is_lossless_jpeg(bytes) || has_odd_palette(bytes)
}

/// The picture that the contents of a file stand for, if any: what the
/// decoder gives for the extension of the file's name, provided that it
/// gives four samples for each pixel. A file that is kept from the decoder
/// stands for no picture.
pub open spec fn picture_of(extension: Seq<char>, bytes: Seq<u8>) -> Option<Picture> {
    if is_kept_back(bytes) {
        None
    } else {
        match image_decoded(extension, bytes) {
            Some((width, height, data)) => if data.len() == width * height * 4 {
                Some(Picture { width: width as nat, height: height as nat, data })
            } else {
                None
            },
            None => None,
        }
    }
}

/// The contents of the PNG file that holds the given picture, if the
/// encoder accepts it.
pub open spec fn png_of(p: Picture) -> Option<Seq<u8>> {
    png_encoded(p.width as u32, p.height as u32, p.data)
}

/// Decodes the contents of a picture file.
///
/// The format is the one that the extension of the file's name stands for,
/// not one guessed from the contents: a PNG picture in a file named `x.jpg`
/// is not decoded. Only PNG (`png`) and JPEG (`jpg`, `jpeg`) are built in,
/// in small or capital letters; a file of any other format is not decoded.
/// Nor is a JPEG file of the lossless kind, nor a PNG file whose palette
/// has not the length of a palette: the decoder cannot be trusted with
/// every such file, so none is handed to it.
pub fn decode(extension: &str, bytes: &[u8]) -> (r: Option<Raster>)
    ensures
        match r {
            Some(img) => img.wf() && picture_of(extension@, bytes@) == Some(img@),
            None => picture_of(extension@, bytes@) is None,
        },
{
    if has_lossless_frame(bytes) || finds_odd_palette(bytes) {
        return None;
    }
    match load_rgba8(extension, bytes) {
        Some((width, height, data)) => Raster::from_raw(width, height, data),
        None => None,
    }
}

/// Encodes a picture as the contents of a PNG file.
pub fn encode_png(img: &Raster) -> (r: Option<Vec<u8>>)
    ensures
        match r {
            Some(out) => png_of(img@) == Some(out@),
            None => png_of(img@) is None,
        },
{
    write_png(img.width(), img.height(), img.as_raw())
}

/// Trusted: finds the format with `image::ImageFormat::from_extension`,
/// decodes with `image::load_from_memory_with_format`, converts the picture
/// to RGBA with `DynamicImage::into_rgba8` and hands out its dimensions and
/// its raw buffer. The contract only gives the outcome its name,
/// `image_decoded`: that the outcome depends on nothing but the extension
/// and the bytes. This holds of the formats built in here: PNG is decoded
/// without loss, and the JPEG decoder is built with its
/// `platform_independent` feature, so that it runs the same integer code on
/// every machine.
///
/// The bytes must not be kept back. On a lossless JPEG file the decoder
/// may stop the program: it reports one byte for each sample of a picture
/// with fewer or more than eight bits to the sample, and then delivers two.
/// On a PNG file with a palette of a length that is no multiple of three,
/// or of more than 256 colours, it reads or writes beyond the palette.
///
/// Where the machine runs out of memory or of threads the decoder may fail
/// on bytes that it decodes otherwise; like running out of memory anywhere
/// else, this is left out of account.
#[verifier::external_body]
fn load_rgba8(extension: &str, bytes: &[u8]) -> (r: Option<(u32, u32, Vec<u8>)>)
    requires
        !is_kept_back(bytes@),
    ensures
        match r {
            Some((width, height, data)) => image_decoded(extension@, bytes@) == Some(
                (width, height, data@),
            ),
            None => image_decoded(extension@, bytes@) is None,
        },
{
    let format = image::ImageFormat::from_extension(extension)?;
    match image::load_from_memory_with_format(bytes, format) {
        Ok(img) => {
            let rgba = img.into_rgba8();
            Some((rgba.width(), rgba.height(), rgba.into_raw()))
        },
        Err(_) => None,
    }
}

/// Trusted: builds an `image::RgbaImage` from the samples with
/// `ImageBuffer::from_raw` and encodes it with `DynamicImage::write_to` as
/// PNG into a buffer in memory. The contract only gives the outcome its
/// name, `png_encoded`: encoding depends on nothing but the dimensions and
/// the samples.
#[verifier::external_body]
fn write_png(width: u32, height: u32, data: &Vec<u8>) -> (r: Option<Vec<u8>>)
    ensures
        match r {
            Some(out) => png_encoded(width, height, data@) == Some(out@),
            None => png_encoded(width, height, data@) is None,
        },
{
    let buffer: image::RgbaImage = image::ImageBuffer::from_raw(width, height, data.clone())?;
    let mut out = std::io::Cursor::new(Vec::new());
    match image::DynamicImage::ImageRgba8(buffer).write_to(&mut out, image::ImageOutputFormat::Png) {
        Ok(()) => Some(out.into_inner()),
        Err(_) => None,
    }
}

} // verus!
