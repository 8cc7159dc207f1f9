use image::{ImageFormat, Rgba, RgbaImage};
use squoosh::raster::{decode_output, decode_raster, RasterError};
use std::io::Cursor;

fn png(w: u32, h: u32) -> Vec<u8> {
    let mut img = RgbaImage::new(w, h);
    for (x, y, p) in img.enumerate_pixels_mut() {
        *p = Rgba([x as u8, y as u8, 7, 255]);
    }
    let mut out = Cursor::new(Vec::new());
    img.write_to(&mut out, ImageFormat::Png).unwrap();
    out.into_inner()
}

#[test]
fn raster_sources_decode_to_their_pixels() {
    let (image, icc) = decode_raster(&png(3, 2)).unwrap();
    assert_eq!(image.dimensions(), (3, 2));
    assert_eq!(&image.as_raw()[..8], &[0, 0, 7, 255, 1, 0, 7, 255]);
    assert_eq!(icc, None);
    let back = decode_output(&png(2, 2)).unwrap();
    assert_eq!(back.dimensions(), (2, 2));
}

#[test]
fn unreadable_sources_are_refused() {
    assert!(matches!(decode_raster(b"not an image"), Err(RasterError::Decode(_))));
    assert!(matches!(decode_output(b""), Err(RasterError::Decode(_))));
    // A PNG header announcing more pixels than allowed is refused before decoding.
    let mut big = png(1, 1);
    big[16..20].copy_from_slice(&40_000u32.to_be_bytes());
    assert!(decode_raster(&big).is_err());
}
