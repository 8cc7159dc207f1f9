use squoosh::pipeline::file_extension;
use squoosh::codecs::{defaults, CodecError, Format};
use squoosh::i18n::{Catalog, Lang};
use squoosh::pipeline::{
    choose_decoder, crop, flatten, has_animation_chunk, hqx_factor, hqx_upscale, nearest_zx,
    orient, orient_jpeg, plan_convert, plan_load, rotate, source_warning, supported,
    supported_extension, target_dimensions, transform, unpremultiply, zx_block_colors, zx_blocks,
    zx_color, zx_pair, ConvertError, Decoder, Image, ImageKind, LoadError, PaletteStep,
    ResizeStep, Turn, MAX_FILE_BYTES,
};
use squoosh::pipeline::{decoded_image, encode_png, orient_avif, EncodeError, PixelsError};
use squoosh::settings::{Filter, Settings, Side};

/// A `w × h` image whose pixel `(x, y)` is `(x, y, x + y, 255)`.
fn gradient(w: u32, h: u32) -> Image {
    let mut data = Vec::new();
    for y in 0..h {
        for x in 0..w {
            data.extend_from_slice(&[x as u8, y as u8, (x + y) as u8, 255]);
        }
    }
    Image::from_raw(w, h, data).unwrap()
}

fn pixel(img: &Image, x: u32, y: u32) -> [u8; 4] {
    let i = ((y * img.width() + x) * 4) as usize;
    let raw = img.as_raw();
    [raw[i], raw[i + 1], raw[i + 2], raw[i + 3]]
}

#[test]
fn images_hold_exactly_their_pixels() {
    assert!(Image::from_raw(2, 2, vec![0; 15]).is_none());
    let img = Image::from_raw(2, 1, vec![1, 2, 3, 4, 5, 6, 7, 8, 9]).unwrap();
    assert_eq!(img.dimensions(), (2, 1));
    assert_eq!(img.into_raw(), vec![1, 2, 3, 4, 5, 6, 7, 8]);
    let blank = Image::new(3, 2).unwrap();
    assert_eq!(blank.as_raw(), &[0u8; 24][..]);
}

#[test]
fn rotations_move_pixels_clockwise() {
    let img = gradient(3, 2);
    let r = rotate(&img, 90);
    assert_eq!(r.dimensions(), (2, 3));
    assert_eq!(pixel(&r, 0, 0), pixel(&img, 0, 1));
    assert_eq!(pixel(&r, 1, 0), pixel(&img, 0, 0));
    let h = rotate(&img, 180);
    assert_eq!(pixel(&h, 0, 0), pixel(&img, 2, 1));
    let t = rotate(&img, 270);
    assert_eq!(t.dimensions(), (2, 3));
    assert_eq!(pixel(&t, 0, 0), pixel(&img, 2, 0));
    assert_eq!(rotate(&img, 45).as_raw(), img.as_raw());
}

#[test]
fn every_turn_is_undone() {
    let img = gradient(5, 3);
    let pairs = [
        (Turn::Rotate90, Turn::Rotate270),
        (Turn::Rotate180, Turn::Rotate180),
        (Turn::FlipHorizontal, Turn::FlipHorizontal),
        (Turn::FlipVertical, Turn::FlipVertical),
        (Turn::Identity, Turn::Identity),
    ];
    for (t, back) in pairs {
        let round = transform(&transform(&img, t), back);
        assert_eq!(round.dimensions(), img.dimensions());
        assert_eq!(round.as_raw(), img.as_raw());
    }
}

#[test]
fn exif_orientations() {
    let img = gradient(3, 2);
    assert_eq!(orient(gradient(3, 2), 1).as_raw(), img.as_raw());
    let six = orient(gradient(3, 2), 6);
    assert_eq!(six.dimensions(), (2, 3));
    assert_eq!(six.as_raw(), rotate(&img, 90).as_raw());
    let two = orient(gradient(3, 2), 2);
    assert_eq!(pixel(&two, 0, 0), pixel(&img, 2, 0));
    let five = orient(gradient(3, 2), 5);
    assert_eq!(five.dimensions(), (2, 3));
    assert_eq!(pixel(&five, 0, 0), pixel(&img, 0, 0));
    assert_eq!(orient(gradient(3, 2), 9).as_raw(), img.as_raw());
    assert_eq!(orient(gradient(3, 2), 262).as_raw(), rotate(&img, 90).as_raw());
}

#[test]
fn jpeg_exif_orientation_is_applied() {
    let exif = b"Exif\0\0II\x2a\0\x08\0\0\0\x01\0\x12\x01\x03\0\x01\0\0\0\x06\0\0\0\0\0\0\0";
    let mut bytes = vec![0xff, 0xd8, 0xff, 0xe1];
    bytes.extend_from_slice(&((exif.len() + 2) as u16).to_be_bytes());
    bytes.extend_from_slice(exif);
    bytes.extend_from_slice(&[0xff, 0xd9]);
    let turned = orient_jpeg(gradient(3, 2), &bytes);
    assert_eq!(turned.dimensions(), (2, 3));
    assert_eq!(turned.as_raw(), rotate(&gradient(3, 2), 90).as_raw());
    let plain = orient_jpeg(gradient(3, 2), &[0xff, 0xd8, 0xff, 0xd9]);
    assert_eq!(plain.dimensions(), (3, 2));
}

#[test]
fn jpeg_background_replaces_transparency() {
    let img = Image::from_raw(2, 1, vec![200, 100, 0, 0, 200, 100, 0, 128]).unwrap();
    let flat = flatten(img, [255, 255, 255]);
    assert_eq!(flat.as_raw(), &[255, 255, 255, 255, 227, 177, 127, 255][..]);
    let opaque = Image::from_raw(1, 1, vec![12, 34, 56, 255]).unwrap();
    assert_eq!(flatten(opaque, [0, 0, 0]).as_raw(), &[12, 34, 56, 255][..]);
}

#[test]
fn premultiplied_channels_are_straightened() {
    let mut data = vec![64, 32, 0, 128, 10, 20, 30, 0, 255, 255, 255, 255, 100, 0, 0, 50];
    unpremultiply(&mut data);
    assert_eq!(data, vec![128, 64, 0, 128, 10, 20, 30, 0, 255, 255, 255, 255, 255, 0, 0, 50]);
}

#[test]
fn animation_chunks() {
    assert!(has_animation_chunk(b"RIFF....WEBPVP8XANIM"));
    assert!(has_animation_chunk(b"\x89PNGacTL"));
    assert!(!has_animation_chunk(b"ANI"));
    assert!(!has_animation_chunk(b"anim acTl"));
}

#[test]
fn resize_dimensions() {
    let mut side = Side::default();
    assert_eq!(target_dimensions(32, 24, &side).unwrap(), (32, 24));
    side.resize.width = 16;
    assert_eq!(target_dimensions(32, 24, &side).unwrap(), (16, 12));
    side.resize.width = 0;
    side.resize.height = 12;
    assert_eq!(target_dimensions(32, 24, &side).unwrap(), (16, 12));
    side.resize.width = 10;
    side.resize.lock_ratio = false;
    assert_eq!(target_dimensions(32, 24, &side).unwrap(), (10, 12));
    side.resize.width = 1;
    side.resize.height = 0;
    assert_eq!(target_dimensions(1000, 1, &side).unwrap(), (1, 1));
    side.resize.width = 32768;
    assert!(matches!(
        target_dimensions(1, 32768, &side),
        Err(CodecError::Dimensions)
    ));
}

#[test]
fn hqx_scales_by_whole_factors() {
    assert_eq!(hqx_factor(64, 48, 32, 24), 2);
    assert_eq!(hqx_factor(65, 10, 32, 24), 3);
    assert_eq!(hqx_factor(1000, 10, 32, 24), 4);
    assert_eq!(hqx_factor(16, 12, 32, 24), 1);
    let img = Image::from_raw(2, 2, [10u8, 20, 30, 255].repeat(4)).unwrap();
    let up = hqx_upscale(&img, 2).unwrap();
    assert_eq!(up.dimensions(), (4, 4));
    assert_eq!(up.as_raw(), &[10u8, 20, 30, 255].repeat(16)[..]);
    let up3 = hqx_upscale(&img, 3).unwrap();
    assert_eq!(up3.dimensions(), (6, 6));
    let up4 = hqx_upscale(&img, 4).unwrap();
    assert_eq!(up4.dimensions(), (8, 8));
    assert_eq!(up4.as_raw(), &[10u8, 20, 30, 255].repeat(64)[..]);
}

#[test]
fn zx_blocks_take_two_colors() {
    assert_eq!(zx_color(9), [255, 0, 0, 255]);
    assert_eq!(nearest_zx(250, 10, 5), 9);
    assert_eq!(nearest_zx(0, 0, 0), 0);
    assert_eq!(nearest_zx(100, 100, 100), 0);
    assert_eq!(nearest_zx(120, 120, 120), 7);
    let mut counts = [0u32; 15];
    counts[9] = 40;
    counts[2] = 24;
    assert_eq!(zx_pair(&counts), (9, 0));
    let mut counts = [0u32; 15];
    counts[3] = 30;
    counts[10] = 20;
    counts[1] = 14;
    assert_eq!(zx_pair(&counts), (3, 1));
    let red = [255u8, 0, 0, 255].repeat(64);
    assert_eq!(zx_block_colors(&red), (9, 0));
    let img = Image::from_raw(10, 9, [0u8, 0, 215, 255].repeat(90)).unwrap();
    let blocks = zx_blocks(&img);
    assert_eq!(blocks.len(), 4);
    assert_eq!((blocks[1].x, blocks[1].y, blocks[1].width, blocks[1].height), (8, 0, 2, 8));
    assert_eq!((blocks[2].x, blocks[2].y, blocks[2].width, blocks[2].height), (0, 8, 8, 1));
    assert_eq!((blocks[3].first, blocks[3].second), (1, 0));
}

#[test]
fn crops_keep_the_chosen_rectangle() {
    let img = gradient(4, 3);
    let c = crop(&img, 1, 1, 2, 2);
    assert_eq!(c.dimensions(), (2, 2));
    assert_eq!(pixel(&c, 0, 0), pixel(&img, 1, 1));
    assert_eq!(pixel(&c, 1, 1), pixel(&img, 2, 2));
}

#[test]
fn input_files_by_extension() {
    assert!(supported("photos/a.PNG"));
    assert!(supported("b.jpeg"));
    assert!(supported("dir.d/c.TiF"));
    assert!(!supported("notes.txt"));
    assert!(!supported("png"));
    assert!(!supported(".png"));
    assert!(!supported("archive.png.zip"));
    assert!(supported_extension("WebP"));
    assert!(!supported_extension("heic"));
}

#[test]
fn decoders_by_content() {
    let png = b"\x89PNG\r\n\x1a\n0000";
    assert_eq!(plan_load("x.jpg", png), Ok(Decoder::Raster(ImageKind::Png)));
    assert_eq!(plan_load("x", &[0xff, 0xd8, 0xff, 0]), Ok(Decoder::Jpeg));
    assert_eq!(plan_load("x.SVG", b"<svg/>"), Ok(Decoder::Svg));
    assert_eq!(plan_load("x.png", b"GIF89a...."), Ok(Decoder::Raster(ImageKind::Gif)));
    assert_eq!(plan_load("x.png", b"hello"), Err(LoadError::Unrecognized));
    assert_eq!(
        plan_load("x.avif", b"\0\0\0\x20ftypavif...."),
        Ok(Decoder::Avif)
    );
    assert_eq!(
        choose_decoder(MAX_FILE_BYTES + 1, Some("svg"), None),
        Err(LoadError::TooLarge)
    );
    assert_eq!(choose_decoder(MAX_FILE_BYTES, Some("svg"), None), Ok(Decoder::Svg));
    assert_eq!(
        choose_decoder(10, None, Some(ImageKind::Other)),
        Ok(Decoder::Raster(ImageKind::Other))
    );
    let en = Catalog::empty(Lang::En);
    assert_eq!(LoadError::TooLarge.message(&en), "File larger than 512 MiB");
    assert_eq!(LoadError::Unrecognized.message(&en), "Unrecognized image format");
}

#[test]
fn first_frame_warnings() {
    let en = Catalog::empty(Lang::En);
    assert_eq!(
        source_warning(&en, Decoder::Raster(ImageKind::Gif), false, b"").as_deref(),
        Some("GIF: only the first frame will be converted")
    );
    assert_eq!(
        source_warning(&en, Decoder::Raster(ImageKind::Tiff), false, b"").as_deref(),
        Some("TIFF: only the first page will be converted")
    );
    assert_eq!(
        source_warning(&en, Decoder::Raster(ImageKind::WebP), false, b"xxANIMxx").as_deref(),
        Some("Animation: only the first frame will be converted")
    );
    assert_eq!(source_warning(&en, Decoder::Raster(ImageKind::Png), false, b"IDAT"), None);
    assert_eq!(
        source_warning(&en, Decoder::Avif, true, b"").as_deref(),
        Some("Animation: only the first frame will be converted")
    );
    assert_eq!(source_warning(&en, Decoder::Avif, false, b"ANIM"), None);
    assert_eq!(source_warning(&en, Decoder::Jpeg, true, b"ANIM"), None);
    let fr = Catalog::from_json(
        Lang::Fr,
        r#"{"{kind}: only the first frame will be converted": "{kind} : seule la première image sera convertie"}"#,
    )
    .unwrap();
    assert_eq!(
        source_warning(&fr, Decoder::Raster(ImageKind::Gif), false, b"").as_deref(),
        Some("GIF : seule la première image sera convertie")
    );
}

#[test]
fn conversion_plans() {
    let settings = Settings::default();
    let plan = plan_convert(&settings, 1, false, false, 32, 24).unwrap();
    assert_eq!(plan.format, Format::Avif);
    assert_eq!(plan.resize, ResizeStep::Keep);
    assert_eq!(plan.palette, PaletteStep::Keep);
    assert_eq!(plan.background, None);
    assert_eq!(plan.options.get("quality"), settings.sides[1].options.get("avif").unwrap().get("quality"));
    assert!(matches!(plan_convert(&settings, 0, false, false, 32, 24), Err(ConvertError::NoFormat)));
    assert!(matches!(plan_convert(&settings, 2, false, false, 32, 24), Err(ConvertError::Side)));
    assert!(matches!(plan_convert(&settings, 1, true, false, 32, 24), Err(ConvertError::Cancelled)));

    let mut s = Settings::default();
    s.rotation = 90;
    s.sides[1].format = Some(Format::Jpeg);
    s.sides[1].background = [1, 2, 3];
    s.sides[1].resize.enabled = true;
    s.sides[1].resize.width = 12;
    s.sides[1].resize.filter = Filter::Vector;
    s.sides[1].palette.enabled = true;
    s.sides[1].palette.colors = 16;
    let raster = plan_convert(&s, 1, false, false, 32, 24).unwrap();
    assert_eq!(raster.resize, ResizeStep::Raster { width: 12, height: 16 });
    assert_eq!(raster.background, Some([1, 2, 3]));
    assert_eq!(
        raster.palette,
        PaletteStep::Quantize { colors: 16, dither: 1.0f32.to_bits() }
    );
    let vector = plan_convert(&s, 1, false, true, 32, 24).unwrap();
    assert_eq!(vector.resize, ResizeStep::Vector { width: 16, height: 12, crop: false });
    s.sides[1].palette.zx = true;
    assert_eq!(
        plan_convert(&s, 1, false, false, 32, 24).unwrap().palette,
        PaletteStep::Zx { dither: 1.0f32.to_bits() }
    );
    s.sides[1].resize.width = 32768;
    s.sides[1].resize.height = 32768;
    s.sides[1].resize.lock_ratio = false;
    assert!(matches!(
        plan_convert(&s, 1, false, false, 32, 24),
        Err(ConvertError::Codec(CodecError::TooLarge))
    ));
    s.rotation = 10;
    assert!(matches!(plan_convert(&s, 1, false, false, 32, 24), Err(ConvertError::Settings(_))));
}

#[test]
fn png_encoding_keeps_pixels() {
    let img = gradient(7, 5);
    let mut options = defaults(Format::Png);
    options.insert("interlace".into(), 1);
    let bytes = encode_png(&img, &options).unwrap();
    assert_eq!(&bytes[..8], b"\x89PNG\r\n\x1a\n");
    let back = image::load_from_memory(&bytes).unwrap().to_rgba8();
    assert_eq!(back.dimensions(), (7, 5));
    assert_eq!(back.as_raw(), img.as_raw());
    let mut bad = defaults(Format::Png);
    bad.insert("level".into(), 9);
    assert!(matches!(encode_png(&img, &bad), Err(EncodeError::Codec(CodecError::Range { .. }))));
    let empty = Image::new(0, 3).unwrap();
    assert!(matches!(
        encode_png(&empty, &options),
        Err(EncodeError::Codec(CodecError::Dimensions))
    ));
}

#[test]
fn avif_properties_turn_the_image() {
    let img = gradient(3, 2);
    let r = orient_avif(gradient(3, 2), 1, -1);
    assert_eq!(r.as_raw(), rotate(&img, 270).as_raw());
    let m = orient_avif(gradient(3, 2), 0, 0);
    assert_eq!(pixel(&m, 0, 0), pixel(&img, 0, 1));
    let both = orient_avif(gradient(3, 2), 3, 1);
    assert_eq!(both.dimensions(), (2, 3));
    assert_eq!(both.as_raw(), transform(&rotate(&img, 90), Turn::FlipHorizontal).as_raw());
    assert_eq!(orient_avif(gradient(3, 2), 0, -1).as_raw(), img.as_raw());
}

#[test]
fn native_pixels_are_checked() {
    assert!(matches!(decoded_image(0, 1, vec![]), Err(PixelsError::Codec(CodecError::Dimensions))));
    assert!(matches!(decoded_image(2, 2, vec![0; 15]), Err(PixelsError::Short)));
    let img = decoded_image(1, 2, vec![1, 2, 3, 4, 5, 6, 7, 8, 9]).unwrap();
    assert_eq!(img.as_raw(), &[1, 2, 3, 4, 5, 6, 7, 8][..]);
}

#[test]
fn vector_filter_falls_back_on_raster_sources() {
    let mut s = Settings::default();
    s.sides[1].format = Some(Format::Png);
    s.sides[1].resize.enabled = true;
    s.sides[1].resize.width = 16;
    s.sides[1].resize.filter = Filter::Vector;
    let plan = plan_convert(&s, 1, false, false, 32, 24).unwrap();
    assert_eq!(plan.resize, ResizeStep::Raster { width: 16, height: 12 });
}

#[test]
fn every_raster_filter_resizes_the_rotated_image() {
    for filter in Filter::all().into_iter().filter(|f| *f != Filter::Vector) {
        let mut s = Settings::default();
        s.sides[1].format = Some(Format::Png);
        s.rotation = 90;
        s.sides[1].resize.enabled = true;
        s.sides[1].resize.width = 36;
        s.sides[1].resize.filter = filter;
        let plan = plan_convert(&s, 1, false, false, 32, 24).unwrap();
        assert_eq!(plan.resize, ResizeStep::Raster { width: 36, height: 48 }, "{filter:?}");
        assert_eq!(plan.rotation, 90);
    }
    let mut s = Settings::default();
    s.sides[1].format = Some(Format::Png);
    s.sides[1].resize.enabled = true;
    s.sides[1].resize.width = 20;
    s.sides[1].resize.height = 20;
    s.sides[1].resize.lock_ratio = false;
    s.sides[1].resize.crop = true;
    assert_eq!(
        plan_convert(&s, 1, false, false, 32, 24).unwrap().resize,
        ResizeStep::Raster { width: 20, height: 20 }
    );
    let mut svg = Settings::default();
    svg.sides[1].format = Some(Format::Png);
    svg.rotation = 90;
    svg.sides[1].resize.enabled = true;
    svg.sides[1].resize.width = 100;
    svg.sides[1].resize.filter = Filter::Vector;
    assert_eq!(
        plan_convert(&svg, 1, false, true, 20, 10).unwrap().resize,
        ResizeStep::Vector { width: 200, height: 100, crop: false }
    );
}

#[test]
fn conversion_refusals_have_messages() {
    let en = Catalog::empty(Lang::En);
    let settings = Settings::default();
    let no_format = plan_convert(&settings, 0, false, false, 32, 24).unwrap_err();
    assert_eq!(
        no_format.message(&en),
        "Choose an output format; the original side cannot be exported"
    );
    assert_eq!(ConvertError::Side.message(&en), "Invalid side");
    assert_eq!(ConvertError::Cancelled.message(&en), "Cancelled");
    let fr = Catalog::from_json(Lang::Fr, r#"{"Cancelled": "Annulé"}"#).unwrap();
    assert_eq!(ConvertError::Cancelled.message(&fr), "Annulé");
}

#[test]
fn file_extensions_follow_the_standard_library() {
    let ext = |p: &str| file_extension(p).map(|e| e.into_iter().collect::<String>());
    assert_eq!(ext("photos/a.PNG"), Some("PNG".to_string()));
    assert_eq!(ext("photo.png/."), Some("png".to_string()));
    assert_eq!(ext("a\\.svg"), Some("svg".to_string()));
    assert_eq!(ext("dir/x.PNG/"), Some("PNG".to_string()));
    assert_eq!(ext("photo."), Some(String::new()));
    assert_eq!(ext(".profile"), None);
    assert_eq!(ext("a/.."), None);
    assert_eq!(ext("."), None);
    assert!(supported("photo.png/."));
    assert!(!supported("a.png\\readme"));
    for p in [
        "", "/", ".", "..", "...", "a", "a.b", "a.b.c", "a.", ".a", "..a", "a..", "dir.d/noext",
        "archive.tar.gz", "a/./b.jpg", "./c.gif", "a//b.bmp//", "x/./.", "y.tif/./", "a.b\\c",
        "C:\\pics\\d.webp", "a/b/../c.avif", "a/b.svg/..", "/.hidden", "dir/.x.png", "./..",
    ] {
        let std = std::path::Path::new(p).extension().map(|e| e.to_string_lossy().into_owned());
        assert_eq!(ext(p), std, "{p:?}");
    }
}

#[test]
fn sources_are_recognized_by_their_signatures() {
    let kind = |b: &[u8]| plan_load("x", b);
    assert!(matches!(kind(b"\x89PNG\r\n\x1a\nrest"), Ok(Decoder::Raster(ImageKind::Png))));
    assert!(matches!(kind(&[0xff, 0xd8, 0xff, 0xe0]), Ok(Decoder::Jpeg)));
    assert!(matches!(kind(b"GIF87a.."), Ok(Decoder::Raster(ImageKind::Gif))));
    assert!(matches!(kind(b"RIFF\x01\x02\x03\x04WEBPVP8 "), Ok(Decoder::Raster(ImageKind::WebP))));
    assert!(matches!(kind(b"II*\x00...."), Ok(Decoder::Raster(ImageKind::Tiff))));
    assert!(matches!(kind(b"BMxx"), Ok(Decoder::Raster(ImageKind::Bmp))));
    assert!(matches!(kind(b"\0\0\0\x1cftypavif"), Ok(Decoder::Avif)));
    // The ICO signature comes first in the table.
    assert!(matches!(kind(b"\0\0\x01\0ftypavif"), Ok(Decoder::Raster(ImageKind::Other))));
    assert!(matches!(kind(b"P6\n1 1\n255\n"), Ok(Decoder::Raster(ImageKind::Other))));
    assert!(matches!(kind(b"RIFF\x01\x02\x03\x04WEB"), Err(LoadError::Unrecognized)));
    assert!(matches!(kind(b"hello"), Err(LoadError::Unrecognized)));
}
