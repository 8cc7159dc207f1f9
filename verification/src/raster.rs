//! Raster decoding through the `image` crate: the size of a source is
//! checked against the pixel limits before its pixels are decoded, and the
//! pixels are turned as the file's orientation asks.
use crate::codecs::{checked_dimensions, spec_checked_dimensions, CodecError, CodecErrorView};
use crate::i18n::{spec_t, t, Catalog};
use crate::pipeline::{orient, orientation_turns, turned_all, Image};
use image::{DynamicImage, ImageDecoder, ImageError, ImageReader, Limits};
use std::io::Cursor;
use vstd::prelude::*;

verus! {

/// The longest side that the image library is allowed to decode.
pub const MAX_SIDE: u32 = 32768;

/// The most memory that the image library may allocate for one image,
/// 512 MiB (also its own default).
pub const MAX_ALLOC: u64 = 536870912;

/// What `image` reports of a file's header: the width and height that its
/// decoder announces, or the text of its error, with the format taken
/// from the bytes and these limits on the sides and on memory.
pub uninterp spec fn raster_size(bytes: Seq<u8>, max_side: Option<u32>, max_alloc: Option<u64>) -> Result<
    (u32, u32),
    Seq<char>,
>;

/// What `image` decodes from a file: the width, height and RGBA channels
/// of its pixels, its EXIF orientation tag and its ICC profile, or the text
/// of its error, with the format taken from the bytes and these limits.
pub uninterp spec fn raster_decoded(bytes: Seq<u8>, max_side: Option<u32>, max_alloc: Option<u64>) -> Result<
    (u32, u32, Seq<u8>, u32, Option<Seq<u8>>),
    Seq<char>,
>;

/// A byte buffer as values, when there is one.
pub open spec fn opt_bytes(o: Option<Vec<u8>>) -> Option<Seq<u8>> {
    match o {
        Some(v) => Some(v@),
        None => None,
    }
}

/// The size reported by [`raster_dimensions`] as values.
pub open spec fn size_view(r: Result<(u32, u32), String>) -> Result<(u32, u32), Seq<char>> {
    match r {
        Ok(d) => Ok(d),
        Err(e) => Err(e@),
    }
}

/// The pixels returned by [`raster_pixels`] as values.
pub open spec fn pixels_view(r: Result<(u32, u32, Vec<u8>, u32, Option<Vec<u8>>), String>) -> Result<
    (u32, u32, Seq<u8>, u32, Option<Seq<u8>>),
    Seq<char>,
> {
    match r {
        Ok((w, h, px, tag, icc)) => Ok((w, h, px@, tag, opt_bytes(icc))),
        Err(e) => Err(e@),
    }
}

/// `image::guess_format` on the bytes, then `ImageReader::with_format` with
/// these limits, `into_decoder` and the decoder's `dimensions`; an error of
/// any step as its text. Nothing is decoded past the header.
#[verifier::external_body]
fn raster_dimensions(bytes: &[u8], max_side: Option<u32>, max_alloc: Option<u64>) -> (out: Result<(u32, u32), String>)
    ensures
        size_view(out) == raster_size(bytes@, max_side, max_alloc),
{
    let text = |e: ImageError| e.to_string();
    let mut reader = ImageReader::with_format(Cursor::new(bytes), image::guess_format(bytes).map_err(text)?);
    let mut limits = Limits::default();
    limits.max_image_width = max_side;
    limits.max_image_height = max_side;
    limits.max_alloc = max_alloc;
    reader.limits(limits);
    Ok(reader.into_decoder().map_err(text)?.dimensions())
}

/// `image::guess_format` on the bytes, `ImageReader::with_format` with these
/// limits and `into_decoder`; then the decoder's `orientation` (as its EXIF
/// tag) and `icc_profile`, `DynamicImage::from_decoder` and `to_rgba8`; an
/// error of any step as its text.
#[verifier::external_body]
fn raster_pixels(bytes: &[u8], max_side: Option<u32>, max_alloc: Option<u64>) -> (out: Result<
    (u32, u32, Vec<u8>, u32, Option<Vec<u8>>),
    String,
>)
    ensures
        pixels_view(out) == raster_decoded(bytes@, max_side, max_alloc),
{
    let text = |e: ImageError| e.to_string();
    let mut reader = ImageReader::with_format(Cursor::new(bytes), image::guess_format(bytes).map_err(text)?);
    let mut limits = Limits::default();
    limits.max_image_width = max_side;
    limits.max_image_height = max_side;
    limits.max_alloc = max_alloc;
    reader.limits(limits);
    let mut decoder = reader.into_decoder().map_err(text)?;
    let tag = decoder.orientation().map_err(text)?.to_exif();
    let icc = decoder.icc_profile().map_err(text)?;
    let image = DynamicImage::from_decoder(decoder).map_err(text)?.to_rgba8();
    Ok((image.width(), image.height(), image.into_raw(), tag as u32, icc))
}

/// Why the image library's decoding of a file was refused.
#[derive(Debug)]
pub enum RasterError {
    /// The image library refused the file: the text of its error.
    Decode(String),
    /// The image is outside the pixel limits.
    Codec(CodecError),
    /// The decoded channels do not fill the image.
    Short,
}

/// A [`RasterError`] as values.
pub enum RasterErrorView {
    Decode(Seq<char>),
    Codec(CodecErrorView),
    Short,
}

impl View for RasterError {
    type V = RasterErrorView;

    open spec fn view(&self) -> RasterErrorView {
        match self {
            RasterError::Decode(m) => RasterErrorView::Decode(m@),
            RasterError::Codec(c) => RasterErrorView::Codec(c@),
            RasterError::Short => RasterErrorView::Short,
        }
    }
}

impl RasterError {
    /// The text of the refusal in the catalog's language; the image
    /// library's own text as it is.
    pub fn message(&self, catalog: &Catalog) -> (out: String)
        ensures
            match self {
                RasterError::Decode(m) => out@ == m@,
                RasterError::Codec(c) => out@ == crate::codecs::spec_error_message(
                    c@,
                    catalog.spec_lang(),
                    catalog.spec_entries(),
                ),
                RasterError::Short => out@ == spec_t(
                    catalog.spec_lang(),
                    catalog.spec_entries(),
                    "Invalid image pixels"@,
                ),
            },
    {
        match self {
            RasterError::Decode(m) => m.clone(),
            RasterError::Codec(c) => c.message(catalog),
            RasterError::Short => t(catalog, "Invalid image pixels").to_owned(),
        }
    }
}

/// What decoding a source through the image library gives: its header's
/// error or a size outside the pixel limits stops it before any pixel is
/// decoded; then the decoder's error, pixels outside the limits or short of
/// their size; otherwise the pixels turned as the orientation tag asks,
/// with the ICC profile to apply.
pub open spec fn spec_decode_raster(bytes: Seq<u8>) -> Result<(int, int, Seq<u8>, Option<Seq<u8>>), RasterErrorView> {
    match raster_size(bytes, Some(MAX_SIDE), Some(MAX_ALLOC)) {
        Err(e) => Err(RasterErrorView::Decode(e)),
        Ok((w, h)) => match spec_checked_dimensions(w, h) {
            Err(c) => Err(RasterErrorView::Codec(c)),
            Ok(_) => match raster_decoded(bytes, Some(MAX_SIDE), Some(MAX_ALLOC)) {
                Err(e) => Err(RasterErrorView::Decode(e)),
                Ok((w2, h2, px, tag, icc)) => match spec_checked_dimensions(w2, h2) {
                    Err(c) => Err(RasterErrorView::Codec(c)),
                    Ok(_) => if px.len() < w2 * h2 * 4 {
                        Err(RasterErrorView::Short)
                    } else {
                        let (tw, th, data) = turned_all(
                            px.take(w2 * h2 * 4),
                            w2 as int,
                            h2 as int,
                            orientation_turns(tag),
                        );
                        Ok((tw, th, data, icc))
                    },
                },
            },
        },
    }
}

/// Decodes a source with the image library; see [`spec_decode_raster`].
/// Applying the ICC profile is left to the caller.
pub fn decode_raster(bytes: &[u8]) -> (out: Result<(Image, Option<Vec<u8>>), RasterError>)
    ensures
        match spec_decode_raster(bytes@) {
            Ok((w, h, data, icc)) => out matches Ok((img, p)) && img.spec_width() == w && img.spec_height()
                == h && img.bytes() == data && opt_bytes(p) == icc,
            Err(e) => out matches Err(x) && x@ == e,
        },
{
    let (w, h) = match raster_dimensions(bytes, Some(MAX_SIDE), Some(MAX_ALLOC)) {
        Ok(d) => d,
        Err(e) => return Err(RasterError::Decode(e)),
    };
    if let Err(c) = checked_dimensions(w, h) {
        return Err(RasterError::Codec(c));
    }
    let (w2, h2, px, tag, icc) = match raster_pixels(bytes, Some(MAX_SIDE), Some(MAX_ALLOC)) {
        Ok(r) => r,
        Err(e) => return Err(RasterError::Decode(e)),
    };
    let ghost pv = px@;
    if let Err(c) = checked_dimensions(w2, h2) {
        return Err(RasterError::Codec(c));
    }
    match Image::from_raw(w2, h2, px) {
        None => Err(RasterError::Short),
        Some(img) => {
            assert(img.bytes() == pv.take(w2 * h2 * 4));
            Ok((orient(img, tag), icc))
        },
    }
}

/// What decoding an encoded result back gives: the image library's error,
/// or its pixels, with no limit on the sides, the default limit on memory,
/// and neither orientation nor profile applied.
pub open spec fn spec_decode_output(bytes: Seq<u8>) -> Result<(u32, u32, Seq<u8>), RasterErrorView> {
    match raster_decoded(bytes, None, Some(MAX_ALLOC)) {
        Err(e) => Err(RasterErrorView::Decode(e)),
        Ok((w, h, px, _, _)) => if px.len() < w * h * 4 {
            Err(RasterErrorView::Short)
        } else {
            Ok((w, h, px.take(w * h * 4)))
        },
    }
}

/// Decodes an encoded PNG or WebP result back to show it; see
/// [`spec_decode_output`].
pub fn decode_output(bytes: &[u8]) -> (out: Result<Image, RasterError>)
    ensures
        match spec_decode_output(bytes@) {
            Ok((w, h, data)) => out matches Ok(img) && img.spec_width() == w && img.spec_height() == h
                && img.bytes() == data,
            Err(e) => out matches Err(x) && x@ == e,
        },
{
    match raster_pixels(bytes, None, Some(MAX_ALLOC)) {
        Err(e) => Err(RasterError::Decode(e)),
        Ok((w, h, px, _, _)) => match Image::from_raw(w, h, px) {
            None => Err(RasterError::Short),
            Some(img) => Ok(img),
        },
    }
}

} // verus!
