//! The conversion pipeline: the RGBA image and its geometry (rotation,
//! flips, resize dimensions, crop), pixel arithmetic (transparency over a
//! background, straight alpha, ZX palette blocks, HQX packing), source
//! classification and the plan of a conversion.
use crate::codecs::{
    checked_dimensions, spec_checked_dimensions, spec_key, CodecError, CodecErrorView, Format, Options,
};
use crate::i18n::{format_from, spec_t, t, Catalog};
use crate::settings::{
    formats_problem, all_formats, settings_problem, side_problem, Filter, Palette, Resize, Settings, SettingsError,
    SettingsErrorView, SettingsView, Side,
};
use crate::text::assoc_get;
use crate::text::{chars_equal, chars_of, lower, lower_chars, string_of};
use vstd::prelude::*;

verus! {

/// An RGBA image with 8 bits per channel, rows top to bottom.
#[derive(Debug)]
pub struct Image {
    width: u32,
    height: u32,
    data: Vec<u8>,
}

impl Image {
    #[verifier::type_invariant]
    spec fn exact(self) -> bool {
        self.data@.len() == self.width * self.height * 4
    }

    /// The width in pixels.
    pub closed spec fn spec_width(&self) -> u32 {
        self.width
    }

    /// The height in pixels.
    pub closed spec fn spec_height(&self) -> u32 {
        self.height
    }

    /// The channels of every pixel, row by row.
    pub closed spec fn bytes(&self) -> Seq<u8> {
        self.data@
    }

    /// An image of the given size whose buffer holds exactly its pixels.
    pub open spec fn is_exact(&self) -> bool {
        self.bytes().len() == self.spec_width() * self.spec_height() * 4
    }

    /// The width in pixels.
    pub fn width(&self) -> (out: u32)
        ensures
            out == self.spec_width(),
            self.is_exact(),
    {
        proof {
            use_type_invariant(self);
        }
        self.width
    }

    /// The height in pixels.
    pub fn height(&self) -> (out: u32)
        ensures
            out == self.spec_height(),
            self.is_exact(),
    {
        proof {
            use_type_invariant(self);
        }
        self.height
    }

    /// The width and height.
    pub fn dimensions(&self) -> (out: (u32, u32))
        ensures
            out == (self.spec_width(), self.spec_height()),
    {
        (self.width, self.height)
    }

    /// The channels of every pixel, row by row.
    pub fn as_raw(&self) -> (out: &[u8])
        ensures
            out@ == self.bytes(),
            self.is_exact(),
    {
        proof {
            use_type_invariant(self);
        }
        self.data.as_slice()
    }

    /// The channels of every pixel, row by row.
    pub fn into_raw(self) -> (out: Vec<u8>)
        ensures
            out@ == self.bytes(),
    {
        self.data
    }

    /// An image from its channels, `None` when `data` is shorter than
    /// `4 * width * height` bytes; extra bytes are dropped.
    pub fn from_raw(width: u32, height: u32, data: Vec<u8>) -> (out: Option<Image>)
        ensures
            match out {
                Some(img) => data@.len() >= width * height * 4 && img.spec_width() == width
                    && img.spec_height() == height && img.bytes() == data@.take(
                    width * height * 4,
                ) && img.is_exact(),
                None => data@.len() < width * height * 4,
            },
    {
        let n = data.len() as u128;
        assert((width as u128) * (height as u128) <= 0xffff_ffff_ffff_ffffu128 * 0xffff_ffffu128)
            by (nonlinear_arith);
        let need = (width as u128) * (height as u128) * 4;
        if n < need {
            return None;
        }
        let mut data = data;
        data.truncate(need as usize);
        let out = Image { width, height, data };
        Some(out)
    }

    /// A transparent black image, or `None` when its buffer would not fit
    /// in memory addresses.
    pub fn new(width: u32, height: u32) -> (out: Option<Image>)
        ensures
            match out {
                Some(img) => img.spec_width() == width && img.spec_height() == height
                    && img.bytes() == Seq::new((width * height * 4) as nat, |i: int| 0u8) && img.is_exact(),
                None => width * height * 4 > usize::MAX,
            },
    {
        assert((width as u128) * (height as u128) <= 0xffff_ffff_ffff_ffffu128 * 0xffff_ffffu128)
            by (nonlinear_arith);
        let need = (width as u128) * (height as u128) * 4;
        if need > usize::MAX as u128 {
            return None;
        }
        let data = vec![0u8; need as usize];
        let out = Image { width, height, data };
        assert(out.bytes() =~= Seq::new((width * height * 4) as nat, |i: int| 0u8));
        Some(out)
    }
}

/// A rotation or a flip of an image.
#[derive(Debug, Clone, Copy, PartialEq, Eq, Structural)]
pub enum Turn {
    Identity,
    Rotate90,
    Rotate180,
    Rotate270,
    FlipHorizontal,
    FlipVertical,
}

/// The size of the image after the turn: quarter turns swap the sides.
pub open spec fn turned_size(t: Turn, w: int, h: int) -> (int, int) {
    match t {
        Turn::Rotate90 | Turn::Rotate270 => (h, w),
        _ => (w, h),
    }
}

/// The source pixel of pixel `(x, y)` of a turned `w × h` image: a
/// clockwise quarter turn moves `(x, y)` to `(h - 1 - y, x)`, a half turn
/// to `(w - 1 - x, h - 1 - y)`, three quarters to `(y, w - 1 - x)`; flips
/// mirror one axis.
pub open spec fn source_of(t: Turn, w: int, h: int, x: int, y: int) -> (int, int) {
    match t {
        Turn::Identity => (x, y),
        Turn::Rotate90 => (y, h - 1 - x),
        Turn::Rotate180 => (w - 1 - x, h - 1 - y),
        Turn::Rotate270 => (w - 1 - y, x),
        Turn::FlipHorizontal => (w - 1 - x, y),
        Turn::FlipVertical => (x, h - 1 - y),
    }
}

/// The channels of a turned `w × h` image: channel `c` of pixel `(x, y)`
/// is channel `c` of its source pixel.
pub open spec fn turned(data: Seq<u8>, w: int, h: int, t: Turn) -> Seq<u8> {
    let (tw, th) = turned_size(t, w, h);
    Seq::new(
        (tw * th * 4) as nat,
        |i: int|
            {
                let p = i / 4;
                let (sx, sy) = source_of(t, w, h, p % tw, p / tw);
                data[(sy * w + sx) * 4 + i % 4]
            },
    )
}

proof fn lemma_pixel_index(x: int, y: int, w: int, h: int, c: int)
    requires
        0 <= x < w,
        0 <= y < h,
        0 <= c < 4,
    ensures
        0 <= (y * w + x) * 4 + c < w * h * 4,
{
    assert(y * w + x < w * h) by (nonlinear_arith)
        requires
            0 <= x < w,
            0 <= y < h,
    ;
    assert(0 <= y * w) by (nonlinear_arith)
        requires
            0 <= y,
            0 <= w,
    ;
}

proof fn lemma_split_index(i: int, tw: int, th: int)
    requires
        0 <= i < tw * th * 4,
        tw > 0,
        th > 0,
    ensures
        0 <= (i / 4) % tw < tw,
        0 <= (i / 4) / tw < th,
        0 <= i % 4 < 4,
{
    assert(i / 4 < tw * th) by (nonlinear_arith)
        requires
            0 <= i < tw * th * 4,
    ;
    assert((i / 4) / tw < th) by (nonlinear_arith)
        requires
            0 <= i / 4 < tw * th,
            tw > 0,
    ;
    assert(0 <= (i / 4) / tw) by (nonlinear_arith)
        requires
            0 <= i / 4,
            tw > 0,
    ;
}

/// The image turned by `t`.
pub fn transform(img: &Image, t: Turn) -> (out: Image)
    ensures
        (out.spec_width() as int, out.spec_height() as int) == turned_size(
            t,
            img.spec_width() as int,
            img.spec_height() as int,
        ),
        out.bytes() == turned(img.bytes(), img.spec_width() as int, img.spec_height() as int, t),
        out.is_exact(),
{
    proof {
        use_type_invariant(img);
    }
    let (w, h) = (img.width, img.height);
    let (tw, th): (u32, u32) = match t {
        Turn::Rotate90 | Turn::Rotate270 => (h, w),
        _ => (w, h),
    };
    let n = img.data.len();
    assert(n == tw * th * 4) by (nonlinear_arith)
        requires
            n == w * h * 4,
            (tw == w && th == h) || (tw == h && th == w),
    ;
    let ghost spec = turned(img.data@, w as int, h as int, t);
    let mut out: Vec<u8> = Vec::with_capacity(n);
    let mut i: usize = 0;
    while i < n
        invariant
            n == img.data@.len(),
            n == tw * th * 4,
            n == w * h * 4,
            (tw as int, th as int) == turned_size(t, w as int, h as int),
            spec == turned(img.data@, w as int, h as int, t),
            i <= n,
            out@ == spec.take(i as int),
        decreases n - i,
    {
        proof {
            assert(tw > 0 && th > 0) by (nonlinear_arith)
                requires
                    0 <= i < tw * th * 4,
            ;
            lemma_split_index(i as int, tw as int, th as int);
        }
        let p = i / 4;
        let c = i % 4;
        let x = p % (tw as usize);
        let y = p / (tw as usize);
        let (sx, sy): (usize, usize) = match t {
            Turn::Identity => (x, y),
            Turn::Rotate90 => (y, h as usize - 1 - x),
            Turn::Rotate180 => (w as usize - 1 - x, h as usize - 1 - y),
            Turn::Rotate270 => (w as usize - 1 - y, x),
            Turn::FlipHorizontal => (w as usize - 1 - x, y),
            Turn::FlipVertical => (x, h as usize - 1 - y),
        };
        proof {
            lemma_pixel_index(sx as int, sy as int, w as int, h as int, c as int);
        }
        let k = (sy * (w as usize) + sx) * 4 + c;
        out.push(img.data[k]);
        i += 1;
        assert(out@ =~= spec.take(i as int));
    }
    assert(spec.take(n as int) =~= spec);
    Image { width: tw, height: th, data: out }
}

/// The image rotated clockwise by 90, 180 or 270 degrees, or unchanged for
/// any other angle.
pub fn rotate(img: &Image, degrees: u16) -> (out: Image)
    ensures
        (out.spec_width() as int, out.spec_height() as int) == turned_size(
            rotation_turn(degrees),
            img.spec_width() as int,
            img.spec_height() as int,
        ),
        out.bytes() == turned(
            img.bytes(),
            img.spec_width() as int,
            img.spec_height() as int,
            rotation_turn(degrees),
        ),
        out.is_exact(),
{
    let t = if degrees == 90 {
        Turn::Rotate90
    } else if degrees == 180 {
        Turn::Rotate180
    } else if degrees == 270 {
        Turn::Rotate270
    } else {
        Turn::Identity
    };
    transform(img, t)
}

/// The turn of a clockwise rotation in degrees; other angles do nothing.
pub open spec fn rotation_turn(degrees: u16) -> Turn {
    if degrees == 90 {
        Turn::Rotate90
    } else if degrees == 180 {
        Turn::Rotate180
    } else if degrees == 270 {
        Turn::Rotate270
    } else {
        Turn::Identity
    }
}

/// The turn that undoes `t`.
pub open spec fn inverse_turn(t: Turn) -> Turn {
    match t {
        Turn::Rotate90 => Turn::Rotate270,
        Turn::Rotate270 => Turn::Rotate90,
        _ => t,
    }
}

proof fn lemma_decode(i: int, d: int, q: int, r: int)
    requires
        d > 0,
        0 <= r < d,
        i == q * d + r,
    ensures
        i / d == q,
        i % d == r,
{
    vstd::arithmetic::div_mod::lemma_fundamental_div_mod_converse(i, d, q, r);
}

/// Turning an image and then turning the result back gives the image: a
/// clockwise quarter turn and a counter-clockwise one undo each other, and
/// a half turn and each flip undo themselves.
pub proof fn lemma_turn_undone(data: Seq<u8>, w: int, h: int, t: Turn)
    requires
        w >= 0,
        h >= 0,
        data.len() == w * h * 4,
    ensures
        ({
            let (tw, th) = turned_size(t, w, h);
            turned(turned(data, w, h, t), tw, th, inverse_turn(t)) == data
        }),
{
    let (tw, th) = turned_size(t, w, h);
    let mid = turned(data, w, h, t);
    let back = turned(mid, tw, th, inverse_turn(t));
    assert(turned_size(inverse_turn(t), tw, th) == (w, h));
    assert(w * h * 4 == data.len());
    assert forall|i: int| 0 <= i < data.len() implies back[i] == data[i] by {
        assert(w > 0 && h > 0) by (nonlinear_arith)
            requires
                0 <= i < w * h * 4,
                w >= 0,
                h >= 0,
        ;
        lemma_split_index(i, w, h);
        let p = i / 4;
        let c = i % 4;
        let x = p % w;
        let y = p / w;
        let (mx, my) = source_of(inverse_turn(t), tw, th, x, y);
        assert(0 <= mx < tw && 0 <= my < th);
        lemma_pixel_index(mx, my, tw, th, c);
        let j = (my * tw + mx) * 4 + c;
        lemma_decode(j, 4, my * tw + mx, c);
        lemma_decode(my * tw + mx, tw, my, mx);
        let (sx, sy) = source_of(t, w, h, mx, my);
        assert(sx == x && sy == y);
        vstd::arithmetic::div_mod::lemma_fundamental_div_mod(i, 4);
        vstd::arithmetic::div_mod::lemma_fundamental_div_mod(p, w);
        assert((sy * w + sx) * 4 + c == i) by (nonlinear_arith)
            requires
                sx == p % w,
                sy == p / w,
                p == w * (p / w) + p % w,
                i == 4 * p + c,
        ;
        assert(mid[j] == data[i]);
    }
    assert(back =~= data);
}

/// The turns that an EXIF orientation tag asks for, in order (the tag is
/// read as a byte, like `image::metadata::Orientation::from_exif`):
/// 2 flips horizontally, 3 turns by half, 4 flips vertically, 5 turns a
/// quarter then flips horizontally, 6 turns a quarter, 7 turns three
/// quarters then flips horizontally, 8 turns three quarters; other values
/// leave the image as it is.
pub open spec fn orientation_turns(tag: u32) -> Seq<Turn> {
    let b = tag % 256;
    if b == 2 {
        seq![Turn::FlipHorizontal]
    } else if b == 3 {
        seq![Turn::Rotate180]
    } else if b == 4 {
        seq![Turn::FlipVertical]
    } else if b == 5 {
        seq![Turn::Rotate90, Turn::FlipHorizontal]
    } else if b == 6 {
        seq![Turn::Rotate90]
    } else if b == 7 {
        seq![Turn::Rotate270, Turn::FlipHorizontal]
    } else if b == 8 {
        seq![Turn::Rotate270]
    } else {
        seq![]
    }
}

/// The size and channels of an image after each turn of `turns` in order.
pub open spec fn turned_all(data: Seq<u8>, w: int, h: int, turns: Seq<Turn>) -> (int, int, Seq<u8>)
    decreases turns.len(),
{
    if turns.len() == 0 {
        (w, h, data)
    } else {
        let (tw, th) = turned_size(turns[0], w, h);
        turned_all(turned(data, w, h, turns[0]), tw, th, turns.drop_first())
    }
}

/// The image as its EXIF orientation tag asks it to be shown.
pub fn orient(img: Image, tag: u32) -> (out: Image)
    ensures
        turned_all(img.bytes(), img.spec_width() as int, img.spec_height() as int, orientation_turns(tag))
            == (out.spec_width() as int, out.spec_height() as int, out.bytes()),
        out.is_exact(),
{
    proof {
        use_type_invariant(&img);
    }
    let b = tag % 256;
    proof {
        reveal_with_fuel(turned_all, 3);
    }
    if b == 2 {
        transform(&img, Turn::FlipHorizontal)
    } else if b == 3 {
        transform(&img, Turn::Rotate180)
    } else if b == 4 {
        transform(&img, Turn::FlipVertical)
    } else if b == 5 {
        let r = transform(&img, Turn::Rotate90);
        let out = transform(&r, Turn::FlipHorizontal);
        assert(seq![Turn::Rotate90, Turn::FlipHorizontal].drop_first() =~= seq![Turn::FlipHorizontal]);
        assert(seq![Turn::FlipHorizontal].drop_first() =~= Seq::<Turn>::empty());
        out
    } else if b == 6 {
        transform(&img, Turn::Rotate90)
    } else if b == 7 {
        let r = transform(&img, Turn::Rotate270);
        let out = transform(&r, Turn::FlipHorizontal);
        assert(seq![Turn::Rotate270, Turn::FlipHorizontal].drop_first() =~= seq![Turn::FlipHorizontal]);
        assert(seq![Turn::FlipHorizontal].drop_first() =~= Seq::<Turn>::empty());
        out
    } else if b == 8 {
        transform(&img, Turn::Rotate270)
    } else {
        img
    }
}

/// The channels of an image drawn over an opaque background, as JPEG
/// needs: each color channel becomes `(c·a + b·(255 − a) + 127) / 255`
/// for the pixel's alpha `a` and background channel `b`, and every pixel
/// becomes opaque.
pub open spec fn flattened(data: Seq<u8>, bg: Seq<u8>) -> Seq<u8> {
    Seq::new(
        data.len(),
        |i: int|
            if i % 4 == 3 {
                255u8
            } else {
                let a = data[i - i % 4 + 3] as int;
                ((data[i] as int * a + bg[i % 4] as int * (255 - a) + 127) / 255) as u8
            },
    )
}

proof fn lemma_blend_bound(c: int, a: int, b: int)
    requires
        0 <= c <= 255,
        0 <= a <= 255,
        0 <= b <= 255,
    ensures
        0 <= (c * a + b * (255 - a) + 127) / 255 <= 255,
{
    assert(c * a + b * (255 - a) <= 255 * 255) by (nonlinear_arith)
        requires
            0 <= c <= 255,
            0 <= a <= 255,
            0 <= b <= 255,
    ;
    assert(0 <= c * a + b * (255 - a)) by (nonlinear_arith)
        requires
            0 <= c <= 255,
            0 <= a <= 255,
            0 <= b <= 255,
    ;
}

/// Replaces transparency with an opaque background color.
pub fn flatten(img: Image, background: [u8; 3]) -> (out: Image)
    ensures
        out.spec_width() == img.spec_width(),
        out.spec_height() == img.spec_height(),
        out.bytes() == flattened(img.bytes(), background@),
        out.is_exact(),
{
    proof {
        use_type_invariant(&img);
    }
    let ghost before = img.data@;
    let Image { width, height, data } = img;
    let mut data = data;
    let n = data.len();
    let mut p: usize = 0;
    while p < n
        invariant
            n == before.len(),
            data@.len() == n,
            n % 4 == 0,
            p % 4 == 0,
            p <= n,
            forall|i: int| 0 <= i < p ==> data@[i] == #[trigger] flattened(before, background@)[i],
            forall|i: int| p <= i < n ==> data@[i] == before[i],
        decreases n - p,
    {
        assert(p + 4 <= n);
        let a = data[p + 3] as u32;
        let mut c: usize = 0;
        while c < 3
            invariant
                n == before.len(),
                data@.len() == n,
                p % 4 == 0,
                p + 4 <= n,
                c <= 3,
                a == before[p + 3],
                forall|i: int| 0 <= i < p ==> data@[i] == #[trigger] flattened(before, background@)[i],
                forall|i: int| p <= i < p + c ==> data@[i] == #[trigger] flattened(before, background@)[i],
                forall|i: int| p + c <= i < n ==> data@[i] == before[i],
            decreases 3 - c,
        {
            let v = data[p + c] as u32;
            let b = background[c] as u32;
            proof {
                lemma_blend_bound(v as int, a as int, b as int);
            }
            let blended = (v * a + b * (255 - a) + 127) / 255;
            data.set(p + c, blended as u8);
            assert(((p + c) as int) % 4 == c as int);
            c += 1;
        }
        data.set(p + 3, 255);
        assert(((p + 3) as int) % 4 == 3);
        p += 4;
    }
    assert(data@ =~= flattened(before, background@));
    Image { width, height, data }
}

/// The channels of a premultiplied image (as resvg renders) with straight
/// alpha: each color channel of a pixel with alpha `a > 0` becomes
/// `min(255, (c·255 + a / 2) / a)`; fully transparent pixels stay.
pub open spec fn straightened(data: Seq<u8>) -> Seq<u8> {
    Seq::new(
        data.len(),
        |i: int|
            {
                let a = data[i - i % 4 + 3] as int;
                if i % 4 == 3 || a == 0 {
                    data[i]
                } else {
                    let v = (data[i] as int * 255 + a / 2) / a;
                    if v > 255 {
                        255u8
                    } else {
                        v as u8
                    }
                }
            },
    )
}

/// Turns premultiplied channels into straight alpha; see [`straightened`].
pub fn unpremultiply(data: &mut Vec<u8>)
    requires
        old(data)@.len() % 4 == 0,
    ensures
        final(data)@ == straightened(old(data)@),
{
    let ghost before = data@;
    let n = data.len();
    let mut p: usize = 0;
    while p < n
        invariant
            n == before.len(),
            data@.len() == n,
            n % 4 == 0,
            p % 4 == 0,
            p <= n,
            forall|i: int| 0 <= i < p ==> data@[i] == #[trigger] straightened(before)[i],
            forall|i: int| p <= i < n ==> data@[i] == before[i],
        decreases n - p,
    {
        assert(p + 4 <= n);
        let a = data[p + 3] as u32;
        let mut c: usize = 0;
        while c < 3
            invariant
                n == before.len(),
                data@.len() == n,
                p % 4 == 0,
                p + 4 <= n,
                c <= 3,
                a == before[p + 3],
                forall|i: int| 0 <= i < p ==> data@[i] == #[trigger] straightened(before)[i],
                forall|i: int| p <= i < p + c ==> data@[i] == #[trigger] straightened(before)[i],
                forall|i: int| p + c <= i < n ==> data@[i] == before[i],
            decreases 3 - c,
        {
            assert(((p + c) as int) % 4 == c as int);
            if a > 0 {
                let v = (data[p + c] as u32 * 255 + a / 2) / a;
                data.set(p + c, if v > 255 { 255 } else { v as u8 });
            }
            c += 1;
        }
        assert(((p + 3) as int) % 4 == 3);
        p += 4;
    }
    assert(data@ =~= straightened(before));
}

/// Whether the four bytes at `i` spell `ANIM` or `acTL`, the chunks of an
/// animated WebP or PNG.
pub open spec fn animation_chunk_at(b: Seq<u8>, i: int) -> bool {
    &&& 0 <= i
    &&& i + 4 <= b.len()
    &&& (b.subrange(i, i + 4) == seq![65u8, 78u8, 73u8, 77u8] || b.subrange(i, i + 4) == seq![
        97u8,
        99u8,
        84u8,
        76u8,
    ])
}

/// Whether a WebP or PNG file holds an animation: some four consecutive
/// bytes spell `ANIM` or `acTL`.
pub fn has_animation_chunk(bytes: &[u8]) -> (out: bool)
    ensures
        out == exists|i: int| #[trigger] animation_chunk_at(bytes@, i),
{
    let n = bytes.len();
    if n < 4 {
        assert forall|i: int| !#[trigger] animation_chunk_at(bytes@, i) by {}
        return false;
    }
    let mut i: usize = 0;
    while i <= n - 4
        invariant
            n == bytes@.len(),
            n >= 4,
            i <= n - 3,
            forall|j: int| 0 <= j < i ==> !#[trigger] animation_chunk_at(bytes@, j),
        decreases n - i,
    {
        let (a, b, c, d) = (bytes[i], bytes[i + 1], bytes[i + 2], bytes[i + 3]);
        let ghost w = bytes@.subrange(i as int, i + 4);
        assert(w =~= seq![a, b, c, d]);
        if (a == 65 && b == 78 && c == 73 && d == 77) || (a == 97 && b == 99 && c == 84 && d
            == 76) {
            assert(animation_chunk_at(bytes@, i as int));
            return true;
        }
        assert(!animation_chunk_at(bytes@, i as int)) by {
            if w == seq![65u8, 78u8, 73u8, 77u8] {
                assert(w[0] == 65 && w[1] == 78 && w[2] == 73 && w[3] == 77);
            }
            if w == seq![97u8, 99u8, 84u8, 76u8] {
                assert(w[0] == 97 && w[1] == 99 && w[2] == 84 && w[3] == 76);
            }
        }
        i += 1;
    }
    assert forall|j: int| !#[trigger] animation_chunk_at(bytes@, j) by {}
    false
}

/// The output size of a side's resize for a `w × h` image: unchanged when
/// no dimension is set; the missing one derived from the set one, rounded
/// down but at least 1 (and, as the integer conversion does, kept to its
/// low 32 bits); with a locked ratio the height follows the width;
/// otherwise both as set.
pub open spec fn spec_target_size(w: u32, h: u32, r: Resize) -> (u32, u32) {
    if r.width == 0 && r.height == 0 {
        (w, h)
    } else if r.width == 0 {
        (at_least_one(w as int * r.height as int / h as int), r.height)
    } else if r.height == 0 || r.lock_ratio {
        (r.width, at_least_one(h as int * r.width as int / w as int))
    } else {
        (r.width, r.height)
    }
}

/// `max(q, 1)` kept to its low 32 bits.
pub open spec fn at_least_one(q: int) -> u32 {
    (if q < 1 {
        1
    } else {
        q
    } % 0x1_0000_0000) as u32
}

/// The output size of a side's resize, checked against the pixel limits.
pub fn target_dimensions(w: u32, h: u32, side: &Side) -> (out: Result<(u32, u32), CodecError>)
    requires
        side.resize.width == 0 && side.resize.height != 0 ==> h > 0,
        side.resize.width != 0 && (side.resize.height == 0 || side.resize.lock_ratio) ==> w > 0,
    ensures
        ({
            let (dw, dh) = spec_target_size(w, h, side.resize);
            match spec_checked_dimensions(dw, dh) {
                Ok(_) => out == Ok::<(u32, u32), CodecError>((dw, dh)),
                Err(e) => out is Err && out->Err_0@ == e,
            }
        }),
{
    let r = &side.resize;
    let (dw, dh) = if r.width == 0 && r.height == 0 {
        (w, h)
    } else if r.width == 0 {
        assert((w as u64) * (r.height as u64) <= 0xffff_ffffu64 * 0xffff_ffffu64) by (nonlinear_arith);
        let q = (w as u64) * (r.height as u64) / (h as u64);
        let q = if q < 1 { 1 } else { q };
        ((q % 0x1_0000_0000) as u32, r.height)
    } else if r.height == 0 || r.lock_ratio {
        assert((h as u64) * (r.width as u64) <= 0xffff_ffffu64 * 0xffff_ffffu64) by (nonlinear_arith);
        let q = (h as u64) * (r.width as u64) / (w as u64);
        let q = if q < 1 { 1 } else { q };
        (r.width, (q % 0x1_0000_0000) as u32)
    } else {
        (r.width, r.height)
    };
    match checked_dimensions(dw, dh) {
        Ok(_) => Ok((dw, dh)),
        Err(e) => Err(e),
    }
}


/// `⌈a / b⌉` for `b > 0`.
pub open spec fn ceil_div(a: int, b: int) -> int {
    (a + b - 1) / b
}

/// The HQX pre-upscale factor for a `w × h` image resized to `dw × dh`:
/// the smallest whole factor that reaches the target on both axes, from 1
/// to 4.
pub open spec fn spec_hqx_factor(dw: u32, dh: u32, w: u32, h: u32) -> int {
    let f = if ceil_div(dw as int, w as int) >= ceil_div(dh as int, h as int) {
        ceil_div(dw as int, w as int)
    } else {
        ceil_div(dh as int, h as int)
    };
    if f < 1 {
        1
    } else if f > 4 {
        4
    } else {
        f
    }
}

/// The HQX pre-upscale factor; see [`spec_hqx_factor`].
pub fn hqx_factor(dw: u32, dh: u32, w: u32, h: u32) -> (out: u32)
    requires
        w > 0,
        h > 0,
    ensures
        out == spec_hqx_factor(dw, dh, w, h),
{
    let fx = ((dw as u64) + (w as u64) - 1) / (w as u64);
    let fy = ((dh as u64) + (h as u64) - 1) / (h as u64);
    let f = if fx >= fy { fx } else { fy };
    if f < 1 {
        1
    } else if f > 4 {
        4
    } else {
        f as u32
    }
}

/// Pixels as `0xAARRGGBB` words, the layout HQX reads.
pub open spec fn packed(data: Seq<u8>) -> Seq<u32> {
    Seq::new(
        data.len() / 4,
        |p: int|
            (data[4 * p + 3] as int * 0x100_0000 + data[4 * p] as int * 0x1_0000 + data[4 * p + 1] as int
                * 0x100 + data[4 * p + 2] as int) as u32,
    )
}

/// The RGBA channels of `0xAARRGGBB` words.
pub open spec fn unpacked(px: Seq<u32>) -> Seq<u8> {
    Seq::new(
        px.len() * 4,
        |i: int|
            {
                let v = px[i / 4] as int;
                (if i % 4 == 0 {
                    (v / 0x1_0000) % 0x100
                } else if i % 4 == 1 {
                    (v / 0x100) % 0x100
                } else if i % 4 == 2 {
                    v % 0x100
                } else {
                    v / 0x100_0000
                }) as u8
            },
    )
}

/// What HQX 2× makes of `width × height` pixels.
pub uninterp spec fn hq2x_pixels(src: Seq<u32>, width: u32, height: u32) -> Seq<u32>;

/// What HQX 3× makes of `width × height` pixels.
pub uninterp spec fn hq3x_pixels(src: Seq<u32>, width: u32, height: u32) -> Seq<u32>;

/// What HQX 4× makes of `width × height` pixels.
pub uninterp spec fn hq4x_pixels(src: Seq<u32>, width: u32, height: u32) -> Seq<u32>;

/// `hqx::hq2x` into a buffer of the size it fills, `4 · width · height`
/// pixels; the pixels themselves are named, not described.
#[verifier::external_body]
fn hq2x(src: &Vec<u32>, width: u32, height: u32) -> (out: Vec<u32>)
    requires
        src@.len() == width * height,
        width * height * 4 <= usize::MAX,
    ensures
        out@ == hq2x_pixels(src@, width, height),
        out@.len() == width * height * 4,
{
    let mut dest = vec![0u32; src.len() * 4];
    hqx::hq2x(src, &mut dest, width, height);
    dest
}

/// `hqx::hq3x` into a buffer of the size it fills, `9 · width · height`
/// pixels; the pixels themselves are named, not described.
#[verifier::external_body]
fn hq3x(src: &Vec<u32>, width: u32, height: u32) -> (out: Vec<u32>)
    requires
        src@.len() == width * height,
        width * height * 9 <= usize::MAX,
    ensures
        out@ == hq3x_pixels(src@, width, height),
        out@.len() == width * height * 9,
{
    let mut dest = vec![0u32; src.len() * 9];
    hqx::hq3x(src, &mut dest, width, height);
    dest
}

/// `hqx::hq4x` into a buffer of the size it fills, `16 · width · height`
/// pixels; the pixels themselves are named, not described.
#[verifier::external_body]
fn hq4x(src: &Vec<u32>, width: u32, height: u32) -> (out: Vec<u32>)
    requires
        src@.len() == width * height,
        width * height * 16 <= usize::MAX,
    ensures
        out@ == hq4x_pixels(src@, width, height),
        out@.len() == width * height * 16,
{
    let mut dest = vec![0u32; src.len() * 16];
    hqx::hq4x(src, &mut dest, width, height);
    dest
}

/// The pixels HQX makes at factor 2, 3 or 4.
pub open spec fn hqx_pixels(src: Seq<u32>, width: u32, height: u32, factor: u32) -> Seq<u32> {
    if factor == 2 {
        hq2x_pixels(src, width, height)
    } else if factor == 3 {
        hq3x_pixels(src, width, height)
    } else {
        hq4x_pixels(src, width, height)
    }
}

/// The size limit of an HQX pre-upscale: as [`spec_checked_dimensions`]
/// on the enlarged size.
pub open spec fn spec_hqx_check(w: u32, h: u32, factor: u32) -> Option<CodecErrorView> {
    let (fw, fh) = (w * factor, h * factor);
    if !(fw > 0 && fh > 0 && fw <= 32768 && fh <= 32768) {
        Some(CodecErrorView::Dimensions)
    } else if fw * fh > 40_000_000 {
        Some(CodecErrorView::TooLarge)
    } else {
        None
    }
}

fn pack(data: &[u8]) -> (out: Vec<u32>)
    requires
        data@.len() % 4 == 0,
    ensures
        out@ == packed(data@),
{
    let dl = data.len();
    let n = dl / 4;
    let mut out: Vec<u32> = Vec::with_capacity(n);
    let mut p: usize = 0;
    while p < n
        invariant
            n == data@.len() / 4,
            dl == data@.len(),
            data@.len() % 4 == 0,
            p <= n,
            out@ == packed(data@).take(p as int),
        decreases n - p,
    {
        assert(4 * p + 3 < dl);
        let v = (data[4 * p + 3] as u32) * 0x100_0000 + (data[4 * p] as u32) * 0x1_0000 + (data[4
            * p + 1] as u32) * 0x100 + data[4 * p + 2] as u32;
        out.push(v);
        p += 1;
        assert(out@ =~= packed(data@).take(p as int));
    }
    assert(packed(data@).take(n as int) =~= packed(data@));
    out
}

fn unpack(px: &Vec<u32>) -> (out: Vec<u8>)
    requires
        px@.len() * 4 <= usize::MAX,
    ensures
        out@ == unpacked(px@),
{
    let n = px.len();
    let mut out: Vec<u8> = Vec::with_capacity(n * 4);
    let mut p: usize = 0;
    while p < n
        invariant
            n == px@.len(),
            n * 4 <= usize::MAX,
            p <= n,
            out@ == unpacked(px@).take(p * 4),
        decreases n - p,
    {
        let v = px[p];
        out.push(((v / 0x1_0000) % 0x100) as u8);
        out.push(((v / 0x100) % 0x100) as u8);
        out.push((v % 0x100) as u8);
        out.push((v / 0x100_0000) as u8);
        proof {
            lemma_decode(4 * p + 0, 4, p as int, 0);
            lemma_decode(4 * p + 1, 4, p as int, 1);
            lemma_decode(4 * p + 2, 4, p as int, 2);
            lemma_decode(4 * p + 3, 4, p as int, 3);
        }
        p += 1;
        assert(out@ =~= unpacked(px@).take(p * 4));
    }
    assert(unpacked(px@).take(n * 4) =~= unpacked(px@));
    out
}

/// The image enlarged by HQX at factor 2, 3 or 4, after the size check.
pub fn hqx_upscale(img: &Image, factor: u32) -> (out: Result<Image, CodecError>)
    requires
        2 <= factor <= 4,
    ensures
        match spec_hqx_check(img.spec_width(), img.spec_height(), factor) {
            Some(e) => out is Err && out->Err_0@ == e,
            None => out is Ok && out->Ok_0.spec_width() == img.spec_width() * factor
                && out->Ok_0.spec_height() == img.spec_height() * factor && out->Ok_0.bytes()
                == unpacked(
                hqx_pixels(packed(img.bytes()), img.spec_width(), img.spec_height(), factor),
            ),
        },
{
    proof {
        use_type_invariant(img);
    }
    let (w, h) = (img.width, img.height);
    assert((w as u64) * (factor as u64) <= 0xffff_ffffu64 * 4 && (h as u64) * (factor as u64)
        <= 0xffff_ffffu64 * 4) by (nonlinear_arith)
        requires
            factor <= 4,
    ;
    let fw = (w as u64) * (factor as u64);
    let fh = (h as u64) * (factor as u64);
    if !(fw > 0 && fh > 0 && fw <= 32768 && fh <= 32768) {
        return Err(CodecError::Dimensions);
    }
    assert(fw * fh <= 32768 * 32768) by (nonlinear_arith)
        requires
            fw <= 32768,
            fh <= 32768,
    ;
    if fw * fh > 40_000_000 {
        return Err(CodecError::TooLarge);
    }
    let src = pack(img.data.as_slice());
    assert(w * h <= 32768 * 32768) by (nonlinear_arith)
        requires
            fw == w * factor,
            fh == h * factor,
            2 <= factor,
            fw <= 32768,
            fh <= 32768,
    ;
    assert(src@.len() == w * h) by (nonlinear_arith)
        requires
            src@.len() == img.data@.len() / 4,
            img.data@.len() == w * h * 4,
    ;
    assert(w * h * factor * factor <= 40_000_000) by (nonlinear_arith)
        requires
            fw == w * factor,
            fh == h * factor,
            fw * fh <= 40_000_000,
    ;
    let ghost wh = w * h;
    assert(wh * factor * factor == w * h * factor * factor);
    let dest = if factor == 2 {
        assert(w * h * 4 == w * h * factor * factor) by (nonlinear_arith)
            requires
                factor == 2,
        ;
        hq2x(&src, w, h)
    } else if factor == 3 {
        assert(w * h * 9 == w * h * factor * factor) by (nonlinear_arith)
            requires
                factor == 3,
        ;
        hq3x(&src, w, h)
    } else {
        assert(w * h * 16 == w * h * factor * factor) by (nonlinear_arith)
            requires
                factor == 4,
        ;
        hq4x(&src, w, h)
    };
    assert(dest@.len() == w * h * factor * factor);
    assert(dest@.len() == fw * fh) by (nonlinear_arith)
        requires
            dest@.len() == w * h * factor * factor,
            fw == w * factor,
            fh == h * factor,
    ;
    let raw = unpack(&dest);
    let fw32 = fw as u32;
    let fh32 = fh as u32;
    assert(raw@.len() == fw32 * fh32 * 4);
    let out = Image { width: fw32, height: fh32, data: raw };
    Ok(out)
}


/// The ZX Spectrum colors: black, then the seven normal colors (blue, red,
/// magenta, green, cyan, yellow, white) at 215, then the same seven bright
/// at 255.
pub open spec fn zx_colors() -> Seq<(int, int, int)> {
    seq![
        (0, 0, 0),
        (0, 0, 215),
        (215, 0, 0),
        (215, 0, 215),
        (0, 215, 0),
        (0, 215, 215),
        (215, 215, 0),
        (215, 215, 215),
        (0, 0, 255),
        (255, 0, 0),
        (255, 0, 255),
        (0, 255, 0),
        (0, 255, 255),
        (255, 255, 0),
        (255, 255, 255),
    ]
}

/// Color `i` of the ZX palette, opaque.
pub fn zx_color(i: usize) -> (out: [u8; 4])
    requires
        i < 15,
    ensures
        out@ == seq![zx_colors()[i as int].0 as u8, zx_colors()[i as int].1 as u8, zx_colors()[i as int].2 as u8, 255u8],
{
    let (r, g, b): (u8, u8, u8) = match i {
        0 => (0, 0, 0),
        1 => (0, 0, 215),
        2 => (215, 0, 0),
        3 => (215, 0, 215),
        4 => (0, 215, 0),
        5 => (0, 215, 215),
        6 => (215, 215, 0),
        7 => (215, 215, 215),
        8 => (0, 0, 255),
        9 => (255, 0, 0),
        10 => (255, 0, 255),
        11 => (0, 255, 0),
        12 => (0, 255, 255),
        13 => (255, 255, 0),
        _ => (255, 255, 255),
    };
    let out = [r, g, b, 255u8];
    assert(out@ =~= seq![r, g, b, 255u8]);
    out
}

/// The squared RGB distance from a pixel to ZX color `i`.
pub open spec fn zx_distance(i: int, r: int, g: int, b: int) -> int {
    let c = zx_colors()[i];
    (r - c.0) * (r - c.0) + (g - c.1) * (g - c.1) + (b - c.2) * (b - c.2)
}

/// The nearest of the first `n` ZX colors, the first one on ties.
pub open spec fn nearest_upto(n: int, r: int, g: int, b: int) -> int
    decreases n,
{
    if n <= 1 {
        0
    } else {
        let best = nearest_upto(n - 1, r, g, b);
        if zx_distance(n - 1, r, g, b) < zx_distance(best, r, g, b) {
            n - 1
        } else {
            best
        }
    }
}

/// The ZX color nearest to a pixel (squared RGB distance), the first one
/// on ties.
pub open spec fn zx_nearest(r: int, g: int, b: int) -> int {
    nearest_upto(15, r, g, b)
}

proof fn lemma_nearest_bound(n: int, r: int, g: int, b: int)
    requires
        1 <= n <= 15,
    ensures
        0 <= nearest_upto(n, r, g, b) < n,
    decreases n,
{
    if n > 1 {
        lemma_nearest_bound(n - 1, r, g, b);
    }
}

fn zx_distance_exec(i: usize, r: u8, g: u8, b: u8) -> (out: i32)
    requires
        i < 15,
    ensures
        out == zx_distance(i as int, r as int, g as int, b as int),
{
    let c = zx_color(i);
    let dr = r as i32 - c[0] as i32;
    let dg = g as i32 - c[1] as i32;
    let db = b as i32 - c[2] as i32;
    assert(dr * dr <= 65025 && dg * dg <= 65025 && db * db <= 65025) by (nonlinear_arith)
        requires
            -255 <= dr <= 255,
            -255 <= dg <= 255,
            -255 <= db <= 255,
    ;
    assert(dr * dr >= 0 && dg * dg >= 0 && db * db >= 0) by (nonlinear_arith);
    dr * dr + dg * dg + db * db
}

/// The index of the ZX color nearest to a pixel.
pub fn nearest_zx(r: u8, g: u8, b: u8) -> (out: usize)
    ensures
        out == zx_nearest(r as int, g as int, b as int),
        out < 15,
{
    let mut best: usize = 0;
    let mut best_distance = zx_distance_exec(0, r, g, b);
    let mut i: usize = 1;
    while i < 15
        invariant
            1 <= i <= 15,
            best == nearest_upto(i as int, r as int, g as int, b as int),
            best < i,
            best_distance == zx_distance(best as int, r as int, g as int, b as int),
        decreases 15 - i,
    {
        let d = zx_distance_exec(i, r, g, b);
        if d < best_distance {
            best = i;
            best_distance = d;
        }
        i += 1;
    }
    best
}

/// Whether color `a` comes before color `b` in the block's ranking: more
/// pixels first, then the lower index.
pub open spec fn ranks_before(counts: Seq<u32>, a: int, b: int) -> bool {
    counts[a] > counts[b] || (counts[a] == counts[b] && a < b)
}

/// The best-ranked of the colors below `n` other than `x` and `y`, or -1.
pub open spec fn best_excluding(counts: Seq<u32>, n: int, x: int, y: int) -> int
    decreases n,
{
    if n <= 0 {
        -1
    } else {
        let best = best_excluding(counts, n - 1, x, y);
        let c = n - 1;
        if c == x || c == y {
            best
        } else if best == -1 || ranks_before(counts, c, best) {
            c
        } else {
            best
        }
    }
}

proof fn lemma_best_excluding(counts: Seq<u32>, n: int, x: int, y: int)
    requires
        0 <= n <= counts.len(),
    ensures
        -1 <= best_excluding(counts, n, x, y) < n,
        best_excluding(counts, n, x, y) != x || x == -1,
        best_excluding(counts, n, x, y) != -1 ==> best_excluding(counts, n, x, y) != y,
    decreases n,
{
    if n > 0 {
        lemma_best_excluding(counts, n - 1, x, y);
    }
}

proof fn lemma_best_found(counts: Seq<u32>, n: int, x: int, y: int, w: int)
    requires
        0 <= w < n,
        w != x,
        w != y,
    ensures
        best_excluding(counts, n, x, y) != -1,
    decreases n,
{
    if w < n - 1 {
        lemma_best_found(counts, n - 1, x, y, w);
    }
}

/// The twin of ZX color `c` in the other brightness for `first`: a bright
/// color next to a normal first color becomes normal and vice versa, so
/// that both colors of a block share a brightness; black is nobody's twin.
pub open spec fn zx_adjust(first: int, c: int) -> int {
    if first != 0 && c != 0 {
        if first >= 8 && c < 8 {
            c + 7
        } else if first < 8 && c >= 8 {
            c - 7
        } else {
            c
        }
    } else {
        c
    }
}

/// The two colors of a ZX block from the number of its pixels nearest to
/// each color: the best-ranked color, and the next best-ranked one brought
/// to the same brightness, skipping the first color's own twin.
pub open spec fn spec_zx_pair(counts: Seq<u32>) -> (int, int) {
    let first = best_excluding(counts, 15, -1, -1);
    let o1 = best_excluding(counts, 15, first, -1);
    let o2 = best_excluding(counts, 15, first, o1);
    let second = if zx_adjust(first, o1) != first {
        zx_adjust(first, o1)
    } else {
        zx_adjust(first, o2)
    };
    (first, second)
}

fn best_excluding_exec(counts: &[u32; 15], x: usize, y: usize) -> (out: usize)
    ensures
        out == if best_excluding(counts@, 15, x as int, y as int) == -1 {
            15
        } else {
            best_excluding(counts@, 15, x as int, y as int)
        },
{
    let mut best: usize = 15;
    let mut i: usize = 0;
    while i < 15
        invariant
            i <= 15,
            best == if best_excluding(counts@, i as int, x as int, y as int) == -1 {
                15
            } else {
                best_excluding(counts@, i as int, x as int, y as int)
            },
        decreases 15 - i,
    {
        proof {
            lemma_best_excluding(counts@, i as int, x as int, y as int);
        }
        if i != x && i != y {
            if best == 15 || counts[i] > counts[best] || (counts[i] == counts[best] && i < best) {
                best = i;
            }
        }
        i += 1;
    }
    best
}

/// The two colors of a ZX block; see [`spec_zx_pair`].
pub fn zx_pair(counts: &[u32; 15]) -> (out: (usize, usize))
    ensures
        (out.0 as int, out.1 as int) == spec_zx_pair(counts@),
        out.0 < 15,
        out.1 < 15,
{
    proof {
        lemma_best_excluding(counts@, 15, -1, -1);
        lemma_best_found(counts@, 15, -1, -1, 0);
    }
    let first = best_excluding_exec(counts, 15, 15);
    assert(best_excluding(counts@, 15, 15, 15) == best_excluding(counts@, 15, -1, -1)) by {
        lemma_excluding_out_of_range(counts@, 15);
    }
    proof {
        lemma_best_excluding(counts@, 15, first as int, -1);
        lemma_best_found(counts@, 15, first as int, -1, if first == 0 { 1 } else { 0 });
    }
    let o1 = best_excluding_exec(counts, first, 15);
    assert(best_excluding(counts@, 15, first as int, 15) == best_excluding(counts@, 15, first as int, -1)) by {
        lemma_excluding_second_out_of_range(counts@, 15, first as int);
    }
    proof {
        lemma_best_excluding(counts@, 15, first as int, o1 as int);
        let k: int = if first != 0 && o1 != 0 {
            0
        } else if first != 1 && o1 != 1 {
            1
        } else {
            2
        };
        lemma_best_found(counts@, 15, first as int, o1 as int, k);
    }
    let o2 = best_excluding_exec(counts, first, o1);
    let adjust = |c: usize| -> (a: usize)
        requires
            c < 15,
            first < 15,
        ensures
            a == zx_adjust(first as int, c as int),
            a < 15,
        {
            if first != 0 && c != 0 {
                if first >= 8 && c < 8 {
                    c + 7
                } else if first < 8 && c >= 8 {
                    c - 7
                } else {
                    c
                }
            } else {
                c
            }
        };
    let a1 = adjust(o1);
    let second = if a1 != first {
        a1
    } else {
        adjust(o2)
    };
    (first, second)
}

proof fn lemma_excluding_out_of_range(counts: Seq<u32>, n: int)
    requires
        0 <= n <= 15,
    ensures
        best_excluding(counts, n, 15, 15) == best_excluding(counts, n, -1, -1),
    decreases n,
{
    if n > 0 {
        lemma_excluding_out_of_range(counts, n - 1);
    }
}

proof fn lemma_excluding_second_out_of_range(counts: Seq<u32>, n: int, x: int)
    requires
        0 <= n <= 15,
    ensures
        best_excluding(counts, n, x, 15) == best_excluding(counts, n, x, -1),
    decreases n,
{
    if n > 0 {
        lemma_excluding_second_out_of_range(counts, n - 1, x);
    }
}

/// How many pixels of an RGBA block are nearest to each ZX color.
pub open spec fn zx_counts(block: Seq<u8>, n: int) -> Seq<u32>
    decreases n,
{
    if n <= 0 {
        Seq::new(15, |i: int| 0u32)
    } else {
        let prior = zx_counts(block, n - 1);
        let p = 4 * (n - 1);
        let k = zx_nearest(block[p] as int, block[p + 1] as int, block[p + 2] as int);
        prior.update(k, (prior[k] + 1) as u32)
    }
}

/// The two ZX colors of a block of at most 64 pixels, from the number of
/// its pixels nearest to each color.
pub fn zx_block_colors(block: &[u8]) -> (out: (usize, usize))
    requires
        block@.len() % 4 == 0,
        block@.len() <= 256,
    ensures
        (out.0 as int, out.1 as int) == spec_zx_pair(zx_counts(block@, (block@.len() / 4) as int)),
        out.0 < 15,
        out.1 < 15,
{
    let n = block.len() / 4;
    let mut counts = [0u32; 15];
    assert(counts@ =~= zx_counts(block@, 0));
    let mut p: usize = 0;
    while p < n
        invariant
            n == block@.len() / 4,
            block@.len() % 4 == 0,
            n <= 64,
            p <= n,
            counts@ == zx_counts(block@, p as int),
            forall|i: int| 0 <= i < 15 ==> counts@[i] <= p,
        decreases n - p,
    {
        let k = nearest_zx(block[4 * p], block[4 * p + 1], block[4 * p + 2]);
        counts[k] = counts[k] + 1;
        p += 1;
        assert(counts@ =~= zx_counts(block@, p as int));
    }
    zx_pair(&counts)
}


/// The channels of the `cw × ch` part of a `w`-wide image whose top left
/// pixel is `(x, y)`.
pub open spec fn cropped(data: Seq<u8>, w: int, x: int, y: int, cw: int, ch: int) -> Seq<u8> {
    Seq::new(
        (cw * ch * 4) as nat,
        |i: int|
            {
                let p = i / 4;
                data[((y + p / cw) * w + x + p % cw) * 4 + i % 4]
            },
    )
}

/// The `cw × ch` part of an image whose top left pixel is `(x, y)`.
pub fn crop(img: &Image, x: u32, y: u32, cw: u32, ch: u32) -> (out: Image)
    requires
        x + cw <= img.spec_width(),
        y + ch <= img.spec_height(),
    ensures
        out.spec_width() == cw,
        out.spec_height() == ch,
        out.bytes() == cropped(img.bytes(), img.spec_width() as int, x as int, y as int, cw as int, ch as int),
        out.is_exact(),
{
    proof {
        use_type_invariant(img);
    }
    let (w, h) = (img.width, img.height);
    assert(cw * ch * 4 <= w * h * 4) by (nonlinear_arith)
        requires
            cw <= w,
            ch <= h,
    ;
    let total = img.data.len();
    assert(total == w * h * 4);
    assert(cw * ch <= cw * ch * 4) by (nonlinear_arith)
        requires
            0 <= cw * ch,
    ;
    let n = (cw as usize) * (ch as usize) * 4;
    let ghost spec = cropped(img.data@, w as int, x as int, y as int, cw as int, ch as int);
    let mut out: Vec<u8> = Vec::with_capacity(n);
    let mut i: usize = 0;
    while i < n
        invariant
            img.data@.len() == w * h * 4,
            w * h * 4 <= usize::MAX,
            n == cw * ch * 4,
            x + cw <= w,
            y + ch <= h,
            spec == cropped(img.data@, w as int, x as int, y as int, cw as int, ch as int),
            i <= n,
            out@ == spec.take(i as int),
        decreases n - i,
    {
        proof {
            assert(cw > 0 && ch > 0) by (nonlinear_arith)
                requires
                    0 <= i < cw * ch * 4,
            ;
            lemma_split_index(i as int, cw as int, ch as int);
        }
        let p = i / 4;
        let c = i % 4;
        let px = p % (cw as usize);
        let py = p / (cw as usize);
        let sx = x as usize + px;
        let sy = y as usize + py;
        proof {
            lemma_pixel_index(sx as int, sy as int, w as int, h as int, c as int);
        }
        let k = (sy * (w as usize) + sx) * 4 + c;
        out.push(img.data[k]);
        i += 1;
        assert(out@ =~= spec.take(i as int));
    }
    assert(spec.take(n as int) =~= spec);
    Image { width: cw, height: ch, data: out }
}

/// One 8 × 8 block of a ZX image (smaller at the right and bottom edges)
/// with its two colors, as indices into the ZX palette.
#[derive(Debug, Clone, Copy, PartialEq, Eq, Structural)]
pub struct ZxBlock {
    pub x: u32,
    pub y: u32,
    pub width: u32,
    pub height: u32,
    pub first: usize,
    pub second: usize,
}

/// `min(8, n - start)`.
pub open spec fn block_extent(n: int, start: int) -> int {
    if n - start < 8 {
        n - start
    } else {
        8
    }
}

/// Block `k` of a `w × h` image cut into 8 × 8 blocks row by row, with
/// the two colors of its pixels.
pub open spec fn spec_zx_block(data: Seq<u8>, w: int, h: int, k: int) -> ZxBlock {
    let per_row = ceil_div(w, 8);
    let x = 8 * (k % per_row);
    let y = 8 * (k / per_row);
    let bw = block_extent(w, x);
    let bh = block_extent(h, y);
    let (first, second) = spec_zx_pair(zx_counts(cropped(data, w, x, y, bw, bh), bw * bh));
    ZxBlock {
        x: x as u32,
        y: y as u32,
        width: bw as u32,
        height: bh as u32,
        first: first as usize,
        second: second as usize,
    }
}

/// The ZX blocks of an image, row by row, each with its two colors.
pub fn zx_blocks(img: &Image) -> (out: Vec<ZxBlock>)
    ensures
        out@.len() == ceil_div(img.spec_width() as int, 8) * ceil_div(img.spec_height() as int, 8),
        forall|k: int|
            0 <= k < out@.len() ==> #[trigger] out@[k] == spec_zx_block(
                img.bytes(),
                img.spec_width() as int,
                img.spec_height() as int,
                k,
            ),
{
    proof {
        use_type_invariant(img);
    }
    let (w, h) = (img.width, img.height);
    let ghost data = img.bytes();
    let ghost per_row = ceil_div(w as int, 8);
    let ghost rows = ceil_div(h as int, 8);
    let mut out: Vec<ZxBlock> = Vec::new();
    let mut row: u64 = 0;
    while 8 * row < h as u64
        invariant
            data == img.bytes(),
            w == img.spec_width(),
            h == img.spec_height(),
            per_row == ceil_div(w as int, 8),
            rows == ceil_div(h as int, 8),
            row <= rows,
            out@.len() == row * per_row,
            forall|k: int| 0 <= k < out@.len() ==> #[trigger] out@[k] == spec_zx_block(data, w as int, h as int, k),
        decreases rows - row,
    {
        let y = (8 * row) as u32;
        let bh = if h - y < 8 { h - y } else { 8 };
        let mut col: u64 = 0;
        while 8 * col < w as u64
            invariant
                data == img.bytes(),
                w == img.spec_width(),
                h == img.spec_height(),
                per_row == ceil_div(w as int, 8),
                rows == ceil_div(h as int, 8),
                y == 8 * row,
                y < h,
                row < rows,
                bh == block_extent(h as int, y as int),
                col <= per_row,
                out@.len() == row * per_row + col,
                forall|k: int| 0 <= k < out@.len() ==> #[trigger] out@[k] == spec_zx_block(data, w as int, h as int, k),
            decreases per_row - col,
        {
            let x = (8 * col) as u32;
            let bw = if w - x < 8 { w - x } else { 8 };
            let block = crop(img, x, y, bw, bh);
            assert(bw * bh * 4 <= 256) by (nonlinear_arith)
                requires
                    bw <= 8,
                    bh <= 8,
            ;
            let (first, second) = zx_block_colors(block.as_raw());
            let ghost k = out@.len() as int;
            proof {
                assert(col < per_row);
                assert(k % per_row == col && k / per_row == row) by (nonlinear_arith)
                    requires
                        k == row * per_row + col,
                        0 <= col < per_row,
                        0 <= row,
                ;
            }
            out.push(ZxBlock { x, y, width: bw, height: bh, first, second });
            assert(out@[k] == spec_zx_block(data, w as int, h as int, k));
            col += 1;
        }
        assert(col == per_row);
        assert(out@.len() == (row + 1) * per_row) by (nonlinear_arith)
            requires
                out@.len() == row * per_row + col,
                col == per_row,
        ;
        row += 1;
    }
    assert(row == rows);
    assert(out@.len() == per_row * rows) by (nonlinear_arith)
        requires
            out@.len() == row * per_row,
            row == rows,
    ;
    out
}


/// Whether `c` separates the components of a path: `/`, as on Unix, where
/// this library is built; there `\\` is an ordinary character of a name.
pub open spec fn is_path_separator(c: char) -> bool {
    c == '/'
}

/// The part of `s` after its last separator (all of `s` when it has none).
pub open spec fn last_component(s: Seq<char>) -> Seq<char>
    decreases s.len(),
{
    if s.len() == 0 || is_path_separator(s.last()) {
        Seq::empty()
    } else {
        last_component(s.drop_last()).push(s.last())
    }
}

/// The position of the last `.` of `s`, or -1.
pub open spec fn last_dot(s: Seq<char>) -> int
    decreases s.len(),
{
    if s.len() == 0 {
        -1
    } else if s.last() == '.' {
        s.len() - 1
    } else {
        last_dot(s.drop_last())
    }
}

/// The file name of a path, as `Path::file_name` reads it: trailing
/// separators and `.` components are skipped (`photo.png/.` names
/// `photo.png`), and the last remaining component is the name; there is
/// none when that component is `..` or when nothing remains.
pub open spec fn file_name(s: Seq<char>) -> Option<Seq<char>>
    decreases s.len(),
{
    if s.len() == 0 {
        None
    } else if is_path_separator(s.last()) {
        file_name(s.drop_last())
    } else if last_component(s) == "."@ {
        file_name(s.drop_last())
    } else if last_component(s) == ".."@ {
        None
    } else {
        Some(last_component(s))
    }
}

/// The extension of a path, as `Path::extension` reads it: what follows
/// the last `.` of the file name, when something comes before that dot
/// (`.profile` has none, `photo.` an empty one).
pub open spec fn path_extension(path: Seq<char>) -> Option<Seq<char>> {
    match file_name(path) {
        Some(name) => {
            let k = last_dot(name);
            if k <= 0 {
                None
            } else {
                Some(name.skip(k + 1))
            }
        },
        None => None,
    }
}

proof fn lemma_last_dot_bound(s: Seq<char>)
    ensures
        -1 <= last_dot(s) < s.len(),
        last_dot(s) >= 0 ==> s[last_dot(s)] == '.',
    decreases s.len(),
{
    if s.len() > 0 && s.last() != '.' {
        lemma_last_dot_bound(s.drop_last());
    }
}

/// The extension of a path's file name; see [`path_extension`].
pub fn file_extension(path: &str) -> (out: Option<Vec<char>>)
    ensures
        match out {
            Some(e) => path_extension(path@) == Some(e@),
            None => path_extension(path@) is None,
        },
{
    let v = chars_of(path);
    let ghost s = path@;
    let mut end: usize = v.len();
    assert(s.take(v@.len() as int) =~= s);
    loop
        invariant
            s == path@,
            v@ == s,
            end <= v@.len(),
            file_name(s) == file_name(s.take(end as int)),
        decreases end,
    {
        if end == 0 {
            return None;
        }
        let ghost t = s.take(end as int);
        assert(t.drop_last() =~= s.take(end - 1));
        assert(t.last() == v@[end - 1]);
        if v[end - 1] == '/' {
            end -= 1;
            continue;
        }
        let mut start: usize = end;
        while start > 0 && v[start - 1] != '/'
            invariant
                v@ == s,
                start <= end <= v@.len(),
                t == s.take(end as int),
                last_component(t) == last_component(s.take(start as int)) + s.subrange(
                    start as int,
                    end as int,
                ),
            decreases start,
        {
            assert(s.take(start as int).drop_last() =~= s.take(start - 1));
            assert(s.take(start as int).last() == s[start - 1]);
            assert(last_component(s.take(start as int)) == last_component(s.take(start - 1)).push(
                s[start - 1],
            ));
            assert(last_component(s.take(start - 1)).push(s[start - 1]) + s.subrange(
                start as int,
                end as int,
            ) =~= last_component(s.take(start - 1)) + s.subrange(start - 1, end as int));
            start -= 1;
        }
        assert(last_component(s.take(start as int)) =~= Seq::<char>::empty());
        let ghost name = s.subrange(start as int, end as int);
        assert(last_component(t) =~= name);
        let len = end - start;
        let is_dot = len == 1 && v[start] == '.';
        let is_dots = len == 2 && v[start] == '.' && v[start + 1] == '.';
        proof {
            reveal_strlit(".");
            reveal_strlit("..");
            assert("."@ =~= seq!['.']);
            assert(".."@ =~= seq!['.', '.']);
            assert(name.len() == len);
            if len >= 1 {
                assert(name[0] == v@[start as int]);
            }
            if len >= 2 {
                assert(name[1] == v@[start + 1]);
            }
            if len == 1 && v@[start as int] == '.' {
                assert(name =~= seq!['.']);
            }
            if len == 2 && v@[start as int] == '.' && v@[start + 1] == '.' {
                assert(name =~= seq!['.', '.']);
            }
            if name == "."@ {
                assert(name[0] == seq!['.'][0]);
            }
            if name == ".."@ {
                assert(name[0] == seq!['.', '.'][0] && name[1] == seq!['.', '.'][1]);
            }
            assert(name == "."@ <==> is_dot);
            assert(name == ".."@ <==> is_dots);
        }
        if is_dot {
            end -= 1;
            continue;
        }
        if is_dots {
            return None;
        }
        assert(file_name(s) == Some(name));
        let mut dot: usize = end;
        let mut found = false;
        let mut i: usize = end;
        while i > start && !found
            invariant
                v@ == s,
                start <= i <= end <= v@.len(),
                name == s.subrange(start as int, end as int),
                found ==> start <= dot < end && last_dot(name) == dot - start,
                !found ==> last_dot(name) == last_dot(s.subrange(start as int, i as int)),
            decreases i,
        {
            assert(s.subrange(start as int, i as int).drop_last() =~= s.subrange(start as int, i - 1));
            assert(s.subrange(start as int, i as int).last() == s[i - 1]);
            if v[i - 1] == '.' {
                dot = i - 1;
                found = true;
            }
            i -= 1;
        }
        proof {
            if !found {
                assert(s.subrange(start as int, i as int) =~= Seq::<char>::empty());
            }
            lemma_last_dot_bound(name);
        }
        if !found || dot == start {
            return None;
        }
        assert(last_dot(name) == dot - start);
        let mut out: Vec<char> = Vec::new();
        let mut j: usize = dot + 1;
        while j < end
            invariant
                v@ == s,
                dot + 1 <= j <= end <= v@.len(),
                out@ == s.subrange(dot + 1, j as int),
            decreases end - j,
        {
            out.push(v[j]);
            j += 1;
            assert(out@ =~= s.subrange(dot + 1, j as int));
        }
        assert(name.skip(last_dot(name) + 1) =~= out@);
        return Some(out);
    }
}

/// The lower-case extensions of the files that can be opened.
pub open spec fn is_input_extension(e: Seq<char>) -> bool {
    e == "jpg"@ || e == "jpeg"@ || e == "png"@ || e == "webp"@ || e == "avif"@ || e == "svg"@
        || e == "gif"@ || e == "bmp"@ || e == "tif"@ || e == "tiff"@
}

/// Whether a file extension, in any ASCII case, names an input format.
pub fn supported_extension(extension: &str) -> (out: bool)
    ensures
        out == is_input_extension(lower(extension@)),
{
    let e = lower_chars(extension);
    chars_equal(&e, "jpg") || chars_equal(&e, "jpeg") || chars_equal(&e, "png") || chars_equal(
        &e,
        "webp",
    ) || chars_equal(&e, "avif") || chars_equal(&e, "svg") || chars_equal(&e, "gif")
        || chars_equal(&e, "bmp") || chars_equal(&e, "tif") || chars_equal(&e, "tiff")
}

/// Whether a path names a file that can be opened, by its extension.
pub fn supported(path: &str) -> (out: bool)
    ensures
        out == match path_extension(path@) {
            Some(e) => is_input_extension(lower(e)),
            None => false,
        },
{
    match file_extension(path) {
        Some(e) => {
            let text = string_of(&e);
            supported_extension(text.as_str())
        },
        None => false,
    }
}

/// An image format, as recognized from a file's first bytes.
#[derive(Debug, Clone, Copy, PartialEq, Eq, Structural)]
pub enum ImageKind {
    Png,
    Jpeg,
    Gif,
    WebP,
    Tiff,
    Bmp,
    Avif,
    /// A format that the image library knows but this program does not
    /// treat apart.
    Other,
}

/// Whether `bytes` start with `signature`.
pub open spec fn starts_with(bytes: Seq<u8>, signature: Seq<u8>) -> bool {
    bytes.len() >= signature.len() && bytes.take(signature.len() as int) == signature
}

/// Whether `bytes` start with `RIFF`, any four bytes, then `WEBP`.
pub open spec fn webp_signature(bytes: Seq<u8>) -> bool {
    bytes.len() >= 12 && bytes.take(4) == seq![82u8, 73u8, 70u8, 70u8] && bytes.subrange(8, 12) == seq![87u8, 69u8, 66u8, 80u8]
}

/// Whether `bytes` start with two zero bytes, any two bytes, then
/// `ftypavif`.
pub open spec fn avif_signature(bytes: Seq<u8>) -> bool {
    bytes.len() >= 12 && bytes[0] == 0 && bytes[1] == 0 && bytes.subrange(4, 12) == seq![102u8, 116u8, 121u8, 112u8, 97u8, 118u8, 105u8, 102u8]
}

/// The format that `image::guess_format` recognizes from a file's first
/// bytes, in the order its table of signatures is tried: PNG, JPEG, GIF
/// (89a and 87a), WebP, TIFF (both byte orders), DDS, BMP, ICO, Radiance
/// HDR, AVIF, OpenEXR, QOI, the seven PNM kinds and farbfeld; the formats
/// that this program does not treat apart are [`ImageKind::Other`].
pub open spec fn spec_guess_format(b: Seq<u8>) -> Option<ImageKind> {
    if starts_with(b, seq![137u8, 80u8, 78u8, 71u8, 13u8, 10u8, 26u8, 10u8]) {
        Some(ImageKind::Png)
    } else if starts_with(b, seq![255u8, 216u8, 255u8]) {
        Some(ImageKind::Jpeg)
    } else if starts_with(b, seq![71u8, 73u8, 70u8, 56u8, 57u8, 97u8]) || starts_with(b, seq![71u8, 73u8, 70u8, 56u8, 55u8, 97u8]) {
        Some(ImageKind::Gif)
    } else if webp_signature(b) {
        Some(ImageKind::WebP)
    } else if starts_with(b, seq![77u8, 77u8, 0u8, 42u8]) || starts_with(b, seq![73u8, 73u8, 42u8, 0u8]) {
        Some(ImageKind::Tiff)
    } else if starts_with(b, seq![68u8, 68u8, 83u8, 32u8]) {
        Some(ImageKind::Other)
    } else if starts_with(b, seq![66u8, 77u8]) {
        Some(ImageKind::Bmp)
    } else if starts_with(b, seq![0u8, 0u8, 1u8, 0u8]) || starts_with(b, seq![35u8, 63u8, 82u8, 65u8, 68u8, 73u8, 65u8, 78u8, 67u8, 69u8]) {
        Some(ImageKind::Other)
    } else if avif_signature(b) {
        Some(ImageKind::Avif)
    } else if starts_with(b, seq![118u8, 47u8, 49u8, 1u8]) || starts_with(b, seq![113u8, 111u8, 105u8, 102u8]) || starts_with(b, seq![80u8, 49u8]) || starts_with(b, seq![80u8, 50u8])
        || starts_with(b, seq![80u8, 51u8]) || starts_with(b, seq![80u8, 52u8]) || starts_with(b, seq![80u8, 53u8]) || starts_with(b, seq![80u8, 54u8])
        || starts_with(b, seq![80u8, 55u8]) || starts_with(b, seq![102u8, 97u8, 114u8, 98u8, 102u8, 101u8, 108u8, 100u8]) {
        Some(ImageKind::Other)
    } else {
        None
    }
}

/// `image::guess_format`: the format of the first signature in its table
/// that the bytes start with; see [`spec_guess_format`].
#[verifier::external_body]
fn guess_format(bytes: &[u8]) -> (out: Option<ImageKind>)
    ensures
        out == spec_guess_format(bytes@),
{
    match image::guess_format(bytes) {
        Ok(image::ImageFormat::Png) => Some(ImageKind::Png),
        Ok(image::ImageFormat::Jpeg) => Some(ImageKind::Jpeg),
        Ok(image::ImageFormat::Gif) => Some(ImageKind::Gif),
        Ok(image::ImageFormat::WebP) => Some(ImageKind::WebP),
        Ok(image::ImageFormat::Tiff) => Some(ImageKind::Tiff),
        Ok(image::ImageFormat::Bmp) => Some(ImageKind::Bmp),
        Ok(image::ImageFormat::Avif) => Some(ImageKind::Avif),
        Ok(_) => Some(ImageKind::Other),
        Err(_) => None,
    }
}

/// The largest source file that is read, 512 MiB.
pub const MAX_FILE_BYTES: u64 = 536870912;

/// How a source file is decoded.
#[derive(Debug, Clone, Copy, PartialEq, Eq, Structural)]
pub enum Decoder {
    /// Rendered as SVG, by extension.
    Svg,
    /// The native AVIF decoder.
    Avif,
    /// The native JPEG decoder, then the EXIF orientation.
    Jpeg,
    /// The image library's decoder for that format.
    Raster(ImageKind),
}

/// Why a source file cannot be decoded.
#[derive(Debug, Clone, Copy, PartialEq, Eq, Structural)]
pub enum LoadError {
    /// Larger than [`MAX_FILE_BYTES`].
    TooLarge,
    /// No known format starts as the file does.
    Unrecognized,
}

impl LoadError {
    /// The text of the refusal in the catalog's language.
    pub fn message(&self, catalog: &Catalog) -> (out: String)
        ensures
            out@ == spec_t(
                catalog.spec_lang(),
                catalog.spec_entries(),
                match self {
                    LoadError::TooLarge => "File larger than 512 MiB"@,
                    LoadError::Unrecognized => "Unrecognized image format"@,
                },
            ),
    {
        match self {
            LoadError::TooLarge => t(catalog, "File larger than 512 MiB").to_owned(),
            LoadError::Unrecognized => t(catalog, "Unrecognized image format").to_owned(),
        }
    }
}

/// The decoder of a file from its size, its extension and the format that
/// its first bytes show: too large first; then SVG by extension (in any
/// case); then by the bytes, AVIF and JPEG to the native decoders and any
/// other known format to the image library.
pub open spec fn spec_decoder(size: int, extension: Option<Seq<char>>, guessed: Option<ImageKind>) -> Result<
    Decoder,
    LoadError,
> {
    if size > MAX_FILE_BYTES {
        Err(LoadError::TooLarge)
    } else if extension is Some && lower(extension->0) == "svg"@ {
        Ok(Decoder::Svg)
    } else {
        match guessed {
            None => Err(LoadError::Unrecognized),
            Some(ImageKind::Avif) => Ok(Decoder::Avif),
            Some(ImageKind::Jpeg) => Ok(Decoder::Jpeg),
            Some(k) => Ok(Decoder::Raster(k)),
        }
    }
}

/// The decoder of a file from its size, extension and recognized format.
pub fn choose_decoder(size: u64, extension: Option<&str>, guessed: Option<ImageKind>) -> (out: Result<
    Decoder,
    LoadError,
>)
    ensures
        out == spec_decoder(
            size as int,
            match extension {
                Some(e) => Some(e@),
                None => None,
            },
            guessed,
        ),
{
    if size > MAX_FILE_BYTES {
        return Err(LoadError::TooLarge);
    }
    let svg = match extension {
        Some(e) => {
            let low = lower_chars(e);
            chars_equal(&low, "svg")
        },
        None => false,
    };
    if svg {
        return Ok(Decoder::Svg);
    }
    match guessed {
        None => Err(LoadError::Unrecognized),
        Some(ImageKind::Avif) => Ok(Decoder::Avif),
        Some(ImageKind::Jpeg) => Ok(Decoder::Jpeg),
        Some(k) => Ok(Decoder::Raster(k)),
    }
}

/// The decoder of the file at `path` whose content is `bytes`.
pub fn plan_load(path: &str, bytes: &[u8]) -> (out: Result<Decoder, LoadError>)
    ensures
        out == spec_decoder(bytes@.len() as int, path_extension(path@), spec_guess_format(bytes@)),
{
    let extension = file_extension(path);
    let guessed = guess_format(bytes);
    let size = bytes.len() as u64;
    match extension {
        Some(e) => {
            let text = string_of(&e);
            choose_decoder(size, Some(text.as_str()), guessed)
        },
        None => choose_decoder(size, None, guessed),
    }
}

/// The warning that only the first frame of `kind` is converted.
pub open spec fn spec_first_frame_only(lang: crate::i18n::Lang, entries: Seq<(Seq<char>, Seq<char>)>, kind: Seq<char>) -> Seq<char> {
    format_from(
        spec_t(lang, entries, "{kind}: only the first frame will be converted"@),
        seq![(Some("kind"@), kind)],
        0,
    )
}

/// The warning that only the first frame of `kind` is converted, in the
/// catalog's language.
pub fn first_frame_only(catalog: &Catalog, kind: &str) -> (out: String)
    ensures
        out@ == spec_first_frame_only(catalog.spec_lang(), catalog.spec_entries(), kind@),
{
    let template = t(catalog, "{kind}: only the first frame will be converted");
    let args = [(Some("kind"), kind)];
    assert(crate::i18n::args_view(args@) =~= seq![(Some("kind"@), kind@)]);
    crate::i18n::format(template, &args)
}

/// The warning shown for a decoded source: for an animated AVIF and for a
/// PNG or WebP that holds an animation chunk, that only the first frame is
/// converted; the same for any GIF; for a TIFF, that only the first page
/// is; nothing otherwise.
pub open spec fn spec_source_warning(
    lang: crate::i18n::Lang,
    entries: Seq<(Seq<char>, Seq<char>)>,
    decoder: Decoder,
    animated: bool,
    bytes: Seq<u8>,
) -> Option<Seq<char>> {
    match decoder {
        Decoder::Avif => if animated {
            Some(spec_first_frame_only(lang, entries, "Animation"@))
        } else {
            None
        },
        Decoder::Raster(ImageKind::Gif) => Some(spec_first_frame_only(lang, entries, "GIF"@)),
        Decoder::Raster(ImageKind::Tiff) => Some(
            spec_t(lang, entries, "TIFF: only the first page will be converted"@),
        ),
        Decoder::Raster(ImageKind::WebP) | Decoder::Raster(ImageKind::Png) => if exists|i: int|
            #[trigger] animation_chunk_at(bytes, i) {
            Some(spec_first_frame_only(lang, entries, "Animation"@))
        } else {
            None
        },
        _ => None,
    }
}

/// The warning shown for a source decoded by `decoder` from `bytes`;
/// `animated` is what the AVIF decoder reported.
pub fn source_warning(catalog: &Catalog, decoder: Decoder, animated: bool, bytes: &[u8]) -> (out: Option<String>)
    ensures
        match out {
            Some(w) => spec_source_warning(catalog.spec_lang(), catalog.spec_entries(), decoder, animated, bytes@) == Some(w@),
            None => spec_source_warning(catalog.spec_lang(), catalog.spec_entries(), decoder, animated, bytes@) is None,
        },
{
    match decoder {
        Decoder::Avif => if animated {
            Some(first_frame_only(catalog, "Animation"))
        } else {
            None
        },
        Decoder::Raster(ImageKind::Gif) => Some(first_frame_only(catalog, "GIF")),
        Decoder::Raster(ImageKind::Tiff) => Some(
            t(catalog, "TIFF: only the first page will be converted").to_owned(),
        ),
        Decoder::Raster(ImageKind::WebP) | Decoder::Raster(ImageKind::Png) => if has_animation_chunk(bytes) {
            Some(first_frame_only(catalog, "Animation"))
        } else {
            None
        },
        _ => None,
    }
}

/// The value of the Orientation field of the primary image's EXIF data,
/// as `kamadak-exif` reads it from a JPEG, PNG, TIFF, HEIF or WebP file.
pub uninterp spec fn exif_orientation_tag(bytes: Seq<u8>) -> Option<u32>;

/// `exif::Reader::read_from_container` on the file's bytes, then the
/// first value of its primary Orientation field as an unsigned integer;
/// `None` when there is no EXIF data, no such field or no such value.
#[verifier::external_body]
fn exif_orientation(bytes: &[u8]) -> (out: Option<u32>)
    ensures
        out == exif_orientation_tag(bytes@),
{
    let data = exif::Reader::new().read_from_container(&mut std::io::Cursor::new(bytes)).ok()?;
    let field = data.get_field(exif::Tag::Orientation, exif::In::PRIMARY)?;
    field.value.get_uint(0)
}

/// A decoded JPEG shown as its EXIF orientation asks; unchanged when the
/// file has none.
pub fn orient_jpeg(img: Image, bytes: &[u8]) -> (out: Image)
    ensures
        match exif_orientation_tag(bytes@) {
            Some(tag) => turned_all(
                img.bytes(),
                img.spec_width() as int,
                img.spec_height() as int,
                orientation_turns(tag),
            ) == (out.spec_width() as int, out.spec_height() as int, out.bytes()),
            None => out.bytes() == img.bytes() && out.spec_width() == img.spec_width()
                && out.spec_height() == img.spec_height(),
        },
{
    match exif_orientation(bytes) {
        Some(tag) => orient(img, tag),
        None => img,
    }
}


/// How the resize step of a conversion runs.
#[derive(Debug, Clone, Copy, PartialEq, Eq, Structural)]
pub enum ResizeStep {
    /// No resize.
    Keep,
    /// Render the SVG source at this size (before the rotation), cropping
    /// to fill it or stretching.
    Vector { width: u32, height: u32, crop: bool },
    /// Resample the rotated raster image to this size with the side's
    /// filter.
    Raster { width: u32, height: u32 },
}

/// How the palette step of a conversion runs; `dither` holds the bits of
/// the dithering level.
#[derive(Debug, Clone, Copy, PartialEq, Eq, Structural)]
pub enum PaletteStep {
    /// No reduction.
    Keep,
    /// Two colors of the ZX Spectrum palette per 8 × 8 block.
    Zx { dither: u32 },
    /// At most `colors` colors.
    Quantize { colors: u32, dither: u32 },
}

/// The steps of a conversion of one side: rotate, resize, reduce the
/// palette, draw over the background (JPEG only), then encode with the
/// format's settings.
#[derive(Debug)]
pub struct ConvertPlan {
    pub format: Format,
    pub rotation: u16,
    pub resize: ResizeStep,
    pub palette: PaletteStep,
    pub background: Option<[u8; 3]>,
    pub options: Options,
}

/// A [`ConvertPlan`] as values.
pub struct ConvertPlanView {
    pub format: Format,
    pub rotation: u16,
    pub resize: ResizeStep,
    pub palette: PaletteStep,
    pub background: Option<Seq<u8>>,
    pub options: Seq<(Seq<char>, i32)>,
}

impl View for ConvertPlan {
    type V = ConvertPlanView;

    open spec fn view(&self) -> ConvertPlanView {
        ConvertPlanView {
            format: self.format,
            rotation: self.rotation,
            resize: self.resize,
            palette: self.palette,
            background: match self.background {
                Some(b) => Some(b@),
                None => None,
            },
            options: self.options@,
        }
    }
}

/// Why a side cannot be converted.
#[derive(Debug)]
pub enum ConvertError {
    /// The settings are refused.
    Settings(SettingsError),
    /// There is no side with that index.
    Side,
    /// The conversion was cancelled.
    Cancelled,
    /// The side shows the original: it has no output format.
    NoFormat,
    /// The resized image would be refused.
    Codec(CodecError),
}

/// A [`ConvertError`] as values.
pub enum ConvertErrorView {
    Settings(SettingsErrorView),
    Side,
    Cancelled,
    NoFormat,
    Codec(CodecErrorView),
}

impl View for ConvertError {
    type V = ConvertErrorView;

    open spec fn view(&self) -> ConvertErrorView {
        match self {
            ConvertError::Settings(e) => ConvertErrorView::Settings(e@),
            ConvertError::Side => ConvertErrorView::Side,
            ConvertError::Cancelled => ConvertErrorView::Cancelled,
            ConvertError::NoFormat => ConvertErrorView::NoFormat,
            ConvertError::Codec(e) => ConvertErrorView::Codec(e@),
        }
    }
}

/// The text of a refused conversion in the catalog's language.
pub open spec fn spec_convert_message(
    e: ConvertErrorView,
    lang: crate::i18n::Lang,
    entries: Seq<(Seq<char>, Seq<char>)>,
) -> Seq<char> {
    match e {
        ConvertErrorView::Settings(s) => crate::settings::spec_settings_message(s, lang, entries),
        ConvertErrorView::Side => spec_t(lang, entries, "Invalid side"@),
        ConvertErrorView::Cancelled => spec_t(lang, entries, "Cancelled"@),
        ConvertErrorView::NoFormat => spec_t(
            lang,
            entries,
            "Choose an output format; the original side cannot be exported"@,
        ),
        ConvertErrorView::Codec(c) => crate::codecs::spec_error_message(c, lang, entries),
    }
}

impl ConvertError {
    /// The text of the refusal in the catalog's language.
    pub fn message(&self, catalog: &Catalog) -> (out: String)
        ensures
            out@ == spec_convert_message(self@, catalog.spec_lang(), catalog.spec_entries()),
    {
        match self {
            ConvertError::Settings(e) => e.message(catalog),
            ConvertError::Side => t(catalog, "Invalid side").to_owned(),
            ConvertError::Cancelled => t(catalog, "Cancelled").to_owned(),
            ConvertError::NoFormat => t(
                catalog,
                "Choose an output format; the original side cannot be exported",
            ).to_owned(),
            ConvertError::Codec(e) => e.message(catalog),
        }
    }
}

/// The size of a `w × h` image after a rotation: quarter turns swap the
/// sides.
pub open spec fn rotated_size(rotation: u16, w: u32, h: u32) -> (u32, u32) {
    if rotation == 90 || rotation == 270 {
        (h, w)
    } else {
        (w, h)
    }
}

/// Whether the resize of a `w × h` image divides by a non-zero side.
pub open spec fn resize_defined(r: Resize, w: u32, h: u32) -> bool {
    &&& (r.width == 0 && r.height != 0 ==> h > 0)
    &&& (r.width != 0 && (r.height == 0 || r.lock_ratio) ==> w > 0)
}

/// The palette step of a side.
pub open spec fn spec_palette_step(p: Palette) -> PaletteStep {
    if !p.enabled {
        PaletteStep::Keep
    } else if p.zx {
        PaletteStep::Zx { dither: p.dither }
    } else {
        PaletteStep::Quantize { colors: p.colors, dither: p.dither }
    }
}

/// The resize step of a side of settings for a `w × h` source (before
/// the rotation): the target size of the rotated image, checked; an SVG
/// source with the vector filter is rendered at that size turned back.
pub open spec fn spec_resize_step(
    r: Resize,
    rotation: u16,
    is_svg: bool,
    w: u32,
    h: u32,
) -> Result<ResizeStep, CodecErrorView> {
    if !r.enabled {
        Ok(ResizeStep::Keep)
    } else {
        let (rw, rh) = rotated_size(rotation, w, h);
        let (dw, dh) = spec_target_size(rw, rh, r);
        match spec_checked_dimensions(dw, dh) {
            Err(e) => Err(e),
            Ok(_) => if r.filter == Filter::Vector && is_svg {
                let (vw, vh) = rotated_size(rotation, dw, dh);
                Ok(ResizeStep::Vector { width: vw, height: vh, crop: r.crop })
            } else {
                Ok(ResizeStep::Raster { width: dw, height: dh })
            },
        }
    }
}

/// The plan of converting side `side_index` of `s` for a `w × h` source:
/// the settings are checked first, then the side index, then whether the
/// conversion was cancelled, then that the side has a format, then the
/// resized size.
pub open spec fn spec_plan_convert(
    s: SettingsView,
    side_index: int,
    cancelled: bool,
    is_svg: bool,
    w: u32,
    h: u32,
) -> Result<ConvertPlanView, ConvertErrorView> {
    match settings_problem(s) {
        Some(e) => Err(ConvertErrorView::Settings(e)),
        None => if side_index >= 2 {
            Err(ConvertErrorView::Side)
        } else if cancelled {
            Err(ConvertErrorView::Cancelled)
        } else {
            let side = s.sides[side_index];
            match side.format {
                None => Err(ConvertErrorView::NoFormat),
                Some(f) => match spec_resize_step(side.resize, s.rotation, is_svg, w, h) {
                    Err(e) => Err(ConvertErrorView::Codec(e)),
                    Ok(r) => Ok(
                        ConvertPlanView {
                            format: f,
                            rotation: s.rotation,
                            resize: r,
                            palette: spec_palette_step(side.palette),
                            background: if f == Format::Jpeg {
                                Some(side.background)
                            } else {
                                None
                            },
                            options: assoc_get(side.options, spec_key(f))->0,
                        },
                    ),
                },
            }
        },
    }
}

proof fn lemma_formats_present(sets: Seq<(Seq<char>, Seq<(Seq<char>, i32)>)>, fs: Seq<Format>, i: int)
    requires
        formats_problem(sets, fs) is None,
        0 <= i < fs.len(),
    ensures
        assoc_get(sets, spec_key(fs[i])) is Some,
    decreases fs.len(),
{
    if i > 0 {
        assert(fs.drop_first()[i - 1] == fs[i]);
        lemma_formats_present(sets, fs.drop_first(), i - 1);
    }
}

proof fn lemma_format_present(s: SettingsView, side_index: int, f: Format)
    requires
        settings_problem(s) is None,
        0 <= side_index < 2,
        s.sides.len() == 2,
    ensures
        assoc_get(s.sides[side_index].options, spec_key(f)) is Some,
{
    let k: int = match f {
        Format::Jpeg => 0,
        Format::Png => 1,
        Format::Webp => 2,
        Format::Avif => 3,
    };
    assert(all_formats()[k] == f);
    assert(side_problem(s.sides[side_index]) is None);
    lemma_formats_present(s.sides[side_index].options, all_formats(), k);
}

/// The plan of converting side `side_index` of `settings` for a
/// `width × height` source; `cancelled` is whether the conversion was
/// cancelled before it started.
pub fn plan_convert(
    settings: &Settings,
    side_index: usize,
    cancelled: bool,
    is_svg: bool,
    width: u32,
    height: u32,
) -> (out: Result<ConvertPlan, ConvertError>)
    requires
        settings_problem(settings@) is None && side_index < 2 && !cancelled
            && settings@.sides[side_index as int].format is Some
            && settings@.sides[side_index as int].resize.enabled ==> ({
            let (rw, rh) = rotated_size(settings.rotation, width, height);
            resize_defined(settings@.sides[side_index as int].resize, rw, rh)
        }),
    ensures
        match out {
            Ok(p) => spec_plan_convert(settings@, side_index as int, cancelled, is_svg, width, height)
                == Ok::<ConvertPlanView, ConvertErrorView>(p@),
            Err(e) => spec_plan_convert(settings@, side_index as int, cancelled, is_svg, width, height)
                == Err::<ConvertPlanView, ConvertErrorView>(e@),
        },
{
    match settings.validate() {
        Err(e) => return Err(ConvertError::Settings(e)),
        Ok(()) => {},
    }
    if side_index >= 2 {
        return Err(ConvertError::Side);
    }
    if cancelled {
        return Err(ConvertError::Cancelled);
    }
    let side = &settings.sides[side_index];
    assert(settings@.sides[side_index as int] == side@);
    let format = match side.format {
        None => return Err(ConvertError::NoFormat),
        Some(f) => f,
    };
    let quarter = settings.rotation == 90 || settings.rotation == 270;
    let resize = if side.resize.enabled {
        let (rw, rh) = if quarter {
            (height, width)
        } else {
            (width, height)
        };
        match target_dimensions(rw, rh, side) {
            Err(e) => return Err(ConvertError::Codec(e)),
            Ok((dw, dh)) => if side.resize.filter == Filter::Vector && is_svg {
                let (vw, vh) = if quarter {
                    (dh, dw)
                } else {
                    (dw, dh)
                };
                ResizeStep::Vector { width: vw, height: vh, crop: side.resize.crop }
            } else {
                ResizeStep::Raster { width: dw, height: dh }
            },
        }
    } else {
        ResizeStep::Keep
    };
    let palette = if !side.palette.enabled {
        PaletteStep::Keep
    } else if side.palette.zx {
        PaletteStep::Zx { dither: side.palette.dither }
    } else {
        PaletteStep::Quantize { colors: side.palette.colors, dither: side.palette.dither }
    };
    let background = if format == Format::Jpeg {
        Some(side.background)
    } else {
        None
    };
    proof {
        lemma_format_present(settings@, side_index as int, format);
    }
    let options = match side.options.get(format.key()) {
        Some(o) => o.clone(),
        None => return Err(ConvertError::NoFormat),
    };
    let plan = ConvertPlan { format, rotation: settings.rotation, resize, palette, background, options };
    Ok(plan)
}


/// The bytes that `image`'s `PngEncoder` writes for RGBA pixels, or the
/// text of its error.
pub uninterp spec fn png_stream_of(data: Seq<u8>, width: u32, height: u32) -> Result<Seq<u8>, Seq<char>>;

/// `image::codecs::png::PngEncoder::write_image` of 8-bit RGBA pixels into
/// a new buffer (it panics on a buffer of another length).
#[verifier::external_body]
fn png_stream(data: &[u8], width: u32, height: u32) -> (out: Result<Vec<u8>, String>)
    requires
        data@.len() == width * height * 4,
    ensures
        match out {
            Ok(b) => png_stream_of(data@, width, height) == Ok::<Seq<u8>, Seq<char>>(b@),
            Err(m) => png_stream_of(data@, width, height) == Err::<Seq<u8>, Seq<char>>(m@),
        },
{
    let mut png = Vec::new();
    let encoder = image::codecs::png::PngEncoder::new(&mut png);
    match image::ImageEncoder::write_image(encoder, data, width, height, image::ExtendedColorType::Rgba8) {
        Ok(()) => Ok(png),
        Err(e) => Err(e.to_string()),
    }
}

/// What `oxipng::optimize_from_memory` makes of a PNG stream with the
/// options of a preset level and interlacing, or the text of its error.
pub uninterp spec fn oxipng_output(png: Seq<u8>, level: u8, interlace: bool) -> Result<Seq<u8>, Seq<char>>;

/// `oxipng::optimize_from_memory` with `Options::from_preset(level)`,
/// interlacing on or off, and the chunks that do not affect rendering
/// stripped (`StripChunks::Safe`).
#[verifier::external_body]
fn oxipng_optimize(png: &[u8], level: u8, interlace: bool) -> (out: Result<Vec<u8>, String>)
    ensures
        match out {
            Ok(b) => oxipng_output(png@, level, interlace) == Ok::<Seq<u8>, Seq<char>>(b@),
            Err(m) => oxipng_output(png@, level, interlace) == Err::<Seq<u8>, Seq<char>>(m@),
        },
{
    let mut opt = oxipng::Options::from_preset(level);
    opt.interlace = Some(interlace);
    opt.strip = oxipng::StripChunks::Safe;
    oxipng::optimize_from_memory(png, &opt).map_err(|e| e.to_string())
}

/// Why an image could not be encoded.
#[derive(Debug)]
pub enum EncodeError {
    /// The image or the settings are refused.
    Codec(CodecError),
    /// The encoder failed, with its message.
    Encoder(String),
}

/// What encoding an image as PNG gives: the checks of
/// [`crate::codecs::encode_plan`] first, then the PNG stream, then its
/// optimization at the chosen level and interlacing.
pub open spec fn spec_encode_png(
    data: Seq<u8>,
    w: u32,
    h: u32,
    o: Seq<(Seq<char>, i32)>,
) -> Result<Seq<u8>, Result<CodecErrorView, Seq<char>>> {
    match spec_checked_dimensions(w, h) {
        Err(e) => Err(Ok(e)),
        Ok(_) => match crate::codecs::spec_validate(Format::Png, o) {
            Some(e) => Err(Ok(e)),
            None => match png_stream_of(data, w, h) {
                Err(m) => Err(Err(m)),
                Ok(p) => match oxipng_output(
                    p,
                    crate::codecs::value_at(o, "level"@) as u8,
                    crate::codecs::value_at(o, "interlace"@) == 1,
                ) {
                    Err(m) => Err(Err(m)),
                    Ok(b) => Ok(b),
                },
            },
        },
    }
}

/// Encodes an image as PNG with the given settings.
pub fn encode_png(img: &Image, options: &Options) -> (out: Result<Vec<u8>, EncodeError>)
    ensures
        match out {
            Ok(b) => spec_encode_png(img.bytes(), img.spec_width(), img.spec_height(), options@) == Ok::<
                Seq<u8>,
                Result<CodecErrorView, Seq<char>>,
            >(b@),
            Err(EncodeError::Codec(e)) => spec_encode_png(
                img.bytes(),
                img.spec_width(),
                img.spec_height(),
                options@,
            ) == Err::<Seq<u8>, Result<CodecErrorView, Seq<char>>>(Ok(e@)),
            Err(EncodeError::Encoder(m)) => spec_encode_png(
                img.bytes(),
                img.spec_width(),
                img.spec_height(),
                options@,
            ) == Err::<Seq<u8>, Result<CodecErrorView, Seq<char>>>(Err(m@)),
        },
{
    proof {
        use_type_invariant(img);
    }
    let (level, interlace) = match crate::codecs::encode_plan(img.width, img.height, Format::Png, options) {
        Err(e) => return Err(EncodeError::Codec(e)),
        Ok(crate::codecs::EncodePlan::Png { level, interlace }) => (level, interlace),
        Ok(crate::codecs::EncodePlan::Native { .. }) => {
            return Err(EncodeError::Codec(CodecError::Count));
        },
    };
    let png = match png_stream(img.data.as_slice(), img.width, img.height) {
        Err(m) => return Err(EncodeError::Encoder(m)),
        Ok(p) => p,
    };
    match oxipng_optimize(png.as_slice(), level, interlace) {
        Err(m) => Err(EncodeError::Encoder(m)),
        Ok(b) => Ok(b),
    }
}

/// The turns that an AVIF's rotation and mirror properties ask for: the
/// rotation (`irot`, counter-clockwise quarter turns 1 to 3) first, then
/// the mirror (`imir`: 0 flips top to bottom, 1 left to right).
pub open spec fn avif_turns(rot: i32, mirror: i32) -> Seq<Turn> {
    let r = if rot == 1 {
        seq![Turn::Rotate270]
    } else if rot == 2 {
        seq![Turn::Rotate180]
    } else if rot == 3 {
        seq![Turn::Rotate90]
    } else {
        seq![]
    };
    let m = if mirror == 0 {
        seq![Turn::FlipVertical]
    } else if mirror == 1 {
        seq![Turn::FlipHorizontal]
    } else {
        seq![]
    };
    r + m
}

proof fn lemma_turned_all_append(data: Seq<u8>, w: int, h: int, a: Seq<Turn>, b: Seq<Turn>)
    ensures
        turned_all(data, w, h, a + b) == ({
            let (w1, h1, d1) = turned_all(data, w, h, a);
            turned_all(d1, w1, h1, b)
        }),
    decreases a.len(),
{
    if a.len() > 0 {
        let (tw, th) = turned_size(a[0], w, h);
        assert((a + b).drop_first() =~= a.drop_first() + b);
        assert((a + b)[0] == a[0]);
        lemma_turned_all_append(turned(data, w, h, a[0]), tw, th, a.drop_first(), b);
    } else {
        assert(a + b =~= b);
    }
}

fn turn_step(img: Image, t: Option<Turn>) -> (out: Image)
    ensures
        (out.spec_width() as int, out.spec_height() as int, out.bytes()) == turned_all(
            img.bytes(),
            img.spec_width() as int,
            img.spec_height() as int,
            match t {
                Some(t) => seq![t],
                None => seq![],
            },
        ),
{
    proof {
        reveal_with_fuel(turned_all, 2);
    }
    match t {
        Some(t) => {
            let out = transform(&img, t);
            assert(seq![t].drop_first() =~= Seq::<Turn>::empty());
            out
        },
        None => img,
    }
}

/// A decoded AVIF turned and mirrored as its properties ask.
pub fn orient_avif(img: Image, rot: i32, mirror: i32) -> (out: Image)
    ensures
        (out.spec_width() as int, out.spec_height() as int, out.bytes()) == turned_all(
            img.bytes(),
            img.spec_width() as int,
            img.spec_height() as int,
            avif_turns(rot, mirror),
        ),
{
    let r = if rot == 1 {
        Some(Turn::Rotate270)
    } else if rot == 2 {
        Some(Turn::Rotate180)
    } else if rot == 3 {
        Some(Turn::Rotate90)
    } else {
        None
    };
    let m = if mirror == 0 {
        Some(Turn::FlipVertical)
    } else if mirror == 1 {
        Some(Turn::FlipHorizontal)
    } else {
        None
    };
    let ghost (d0, w0, h0) = (img.bytes(), img.spec_width() as int, img.spec_height() as int);
    let ghost rs = match r {
        Some(t) => seq![t],
        None => Seq::<Turn>::empty(),
    };
    let ghost ms = match m {
        Some(t) => seq![t],
        None => Seq::<Turn>::empty(),
    };
    let turned_once = turn_step(img, r);
    let out = turn_step(turned_once, m);
    proof {
        assert(avif_turns(rot, mirror) =~= rs + ms);
        lemma_turned_all_append(d0, w0, h0, rs, ms);
    }
    out
}

/// Why the pixels that a native decoder returned were refused.
#[derive(Debug)]
pub enum PixelsError {
    /// The dimensions are refused.
    Codec(CodecError),
    /// The buffer is shorter than the dimensions ask.
    Short,
}

/// The image that a native decoder returned, after the pixel limits.
pub fn decoded_image(width: u32, height: u32, data: Vec<u8>) -> (out: Result<Image, PixelsError>)
    ensures
        match spec_checked_dimensions(width, height) {
            Err(e) => out is Err && (out->Err_0 matches PixelsError::Codec(c) && c@ == e),
            Ok(_) => if data@.len() < width * height * 4 {
                out is Err && out->Err_0 is Short
            } else {
                out is Ok && out->Ok_0.spec_width() == width && out->Ok_0.spec_height() == height
                    && out->Ok_0.bytes() == data@.take(width * height * 4)
            },
        },
{
    match checked_dimensions(width, height) {
        Err(e) => Err(PixelsError::Codec(e)),
        Ok(_) => match Image::from_raw(width, height, data) {
            Some(img) => Ok(img),
            None => Err(PixelsError::Short),
        },
    }
}

/// Only JPEG output is drawn over the side's background: a planned
/// conversion flattens exactly when its format is JPEG, onto the exported
/// side's background, and every format with an alpha channel keeps it.
pub proof fn lemma_only_jpeg_is_flattened(
    s: SettingsView,
    side_index: int,
    cancelled: bool,
    is_svg: bool,
    w: u32,
    h: u32,
)
    requires
        spec_plan_convert(s, side_index, cancelled, is_svg, w, h) is Ok,
    ensures
        ({
            let p = spec_plan_convert(s, side_index, cancelled, is_svg, w, h)->Ok_0;
            &&& s.sides[side_index].format == Some(p.format)
            &&& (p.background is Some <==> p.format == Format::Jpeg)
            &&& p.background is Some ==> p.background == Some(s.sides[side_index].background)
            &&& (p.format == Format::Png || p.format == Format::Webp || p.format == Format::Avif)
                ==> p.background is None
        }),
{
}

/// With a locked ratio and a width set, the image keeps its proportions
/// whatever height is set: the width is the one set and the height is the
/// proportional height rounded down, at least one pixel (while that height
/// fits in 32 bits).
pub proof fn lemma_locked_ratio_keeps_proportions(w: u32, h: u32, r: Resize)
    requires
        r.lock_ratio,
        r.width != 0,
        w > 0,
        h * r.width / (w as int) < 0x1_0000_0000,
    ensures
        ({
            let (dw, dh) = spec_target_size(w, h, r);
            &&& dw == r.width
            &&& dh >= 1
            &&& (dh == 1 || dh * w <= h * dw)
            &&& h * dw < (dh + 1) * w
        }),
{
    let q = h * r.width / (w as int);
    assert(q * w <= h * r.width < (q + 1) * w) by (nonlinear_arith)
        requires
            w > 0,
            q == h * r.width / (w as int),
    ;
    assert(0 <= q) by (nonlinear_arith)
        requires
            w > 0,
            q == h * r.width / (w as int),
    ;
    assert(q < 1 ==> h * r.width < 2 * w) by (nonlinear_arith)
        requires
            h * r.width < (q + 1) * w,
            0 <= q,
            w > 0,
    ;
}

/// The file extensions of the input formats, in lower case.
pub open spec fn input_extensions() -> Set<Seq<char>> {
    set!["jpg"@, "jpeg"@, "png"@, "webp"@, "avif"@, "svg"@, "gif"@, "bmp"@, "tif"@, "tiff"@]
}

/// An extension names an input format exactly when, in lower case, it is
/// one of the ten extensions of the input list, whatever its ASCII case.
pub proof fn lemma_input_extensions(e: Seq<char>)
    ensures
        is_input_extension(lower(e)) <==> input_extensions().contains(lower(e)),
{
}

/// A path is supported exactly when its extension, in any ASCII case, is
/// one of the ten extensions of the input list.
pub proof fn lemma_supported_paths(path: Seq<char>)
    ensures
        (match path_extension(path) {
            Some(e) => is_input_extension(lower(e)),
            None => false,
        }) <==> (path_extension(path) matches Some(e) && input_extensions().contains(lower(e))),
{
}

proof fn lemma_pixel_split(x: int, y: int, tw: int, c: int)
    requires
        0 <= x < tw,
        0 <= y,
        0 <= c < 4,
    ensures
        ((y * tw + x) * 4 + c) / 4 == y * tw + x,
        ((y * tw + x) * 4 + c) % 4 == c,
        (y * tw + x) % tw == x,
        (y * tw + x) / tw == y,
{
    assert(((y * tw + x) * 4 + c) / 4 == y * tw + x) by (nonlinear_arith)
        requires
            0 <= c < 4,
            0 <= x,
            0 <= y,
            0 <= tw,
    ;
    assert(((y * tw + x) * 4 + c) % 4 == c) by (nonlinear_arith)
        requires
            0 <= c < 4,
            0 <= x,
            0 <= y,
            0 <= tw,
    ;
    assert((y * tw + x) % tw == x) by (nonlinear_arith)
        requires
            0 <= x < tw,
            0 <= y,
    ;
    assert((y * tw + x) / tw == y) by (nonlinear_arith)
        requires
            0 <= x < tw,
            0 <= y,
    ;
}

/// EXIF orientation 8 (the camera turned a quarter counter-clockwise) is
/// undone by one counter-clockwise quarter turn, and orientation 6 by one
/// clockwise quarter turn: the sides swap, and pixel `(x, y)` of the shown
/// image is pixel `(w - 1 - y, x)` of the decoded one for 8, pixel
/// `(y, h - 1 - x)` for 6.
pub proof fn lemma_quarter_turn_orientations(data: Seq<u8>, w: int, h: int)
    requires
        w > 0,
        h > 0,
        data.len() == w * h * 4,
    ensures
        ({
            let (tw, th, d) = turned_all(data, w, h, orientation_turns(8));
            &&& tw == h && th == w
            &&& d.len() == w * h * 4
            &&& forall|x: int, y: int, c: int|
                0 <= x < tw && 0 <= y < th && 0 <= c < 4 ==> #[trigger] d[(y * tw + x) * 4 + c]
                    == data[(x * w + (w - 1 - y)) * 4 + c]
        }),
        ({
            let (tw, th, d) = turned_all(data, w, h, orientation_turns(6));
            &&& tw == h && th == w
            &&& d.len() == w * h * 4
            &&& forall|x: int, y: int, c: int|
                0 <= x < tw && 0 <= y < th && 0 <= c < 4 ==> #[trigger] d[(y * tw + x) * 4 + c]
                    == data[((h - 1 - x) * w + y) * 4 + c]
        }),
{
    assert(8u32 % 256 == 8 && 6u32 % 256 == 6);
    let t8 = orientation_turns(8);
    let t6 = orientation_turns(6);
    assert(t8 =~= seq![Turn::Rotate270]);
    assert(t6 =~= seq![Turn::Rotate90]);
    assert(t8.drop_first() =~= Seq::<Turn>::empty());
    assert(t6.drop_first() =~= Seq::<Turn>::empty());
    let d8 = turned(data, w, h, Turn::Rotate270);
    let d6 = turned(data, w, h, Turn::Rotate90);
    assert(t8[0] == Turn::Rotate270 && t6[0] == Turn::Rotate90);
    assert(turned_all(d8, h, w, Seq::<Turn>::empty()) == (h, w, d8));
    assert(turned_all(d6, h, w, Seq::<Turn>::empty()) == (h, w, d6));
    assert(turned_all(data, w, h, t8) == (h, w, d8));
    assert(turned_all(data, w, h, t6) == (h, w, d6));
    assert(h * w == w * h) by (nonlinear_arith);
    assert forall|x: int, y: int, c: int| 0 <= x < h && 0 <= y < w && 0 <= c < 4 implies #[trigger] d8[(y * h
        + x) * 4 + c] == data[(x * w + (w - 1 - y)) * 4 + c] by {
        lemma_pixel_split(x, y, h, c);
        lemma_pixel_index(x, y, h, w, c);
    }
    assert forall|x: int, y: int, c: int| 0 <= x < h && 0 <= y < w && 0 <= c < 4 implies #[trigger] d6[(y * h
        + x) * 4 + c] == data[((h - 1 - x) * w + y) * 4 + c] by {
        lemma_pixel_split(x, y, h, c);
        lemma_pixel_index(x, y, h, w, c);
    }
}

} // verus!
