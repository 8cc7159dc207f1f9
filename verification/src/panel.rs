//! What the settings panels show: codec names, which settings apply given
//! the others, the lossless effort presets of WebP and byte sizes.
use crate::codecs::{value_at, Format, Options};
use crate::text::{assoc_get, assoc_set, decimal, decimal_chars, decimal_chars_wide, digit, string_of};
use vstd::prelude::*;

verus! {

/// The label shown in the codec dropdown: the encoder behind each format.
pub open spec fn spec_format_label(format: Option<Format>) -> Seq<char> {
    match format {
        None => "Image originale"@,
        Some(Format::Jpeg) => "MozJPEG"@,
        Some(Format::Png) => "OxiPNG"@,
        Some(Format::Webp) => "WebP"@,
        Some(Format::Avif) => "AVIF"@,
    }
}

/// The label shown in the codec dropdown: the encoder behind each format.
pub fn format_label(format: Option<Format>) -> (out: &'static str)
    ensures
        out@ == spec_format_label(format),
{
    match format {
        None => "Image originale",
        Some(Format::Jpeg) => "MozJPEG",
        Some(Format::Png) => "OxiPNG",
        Some(Format::Webp) => "WebP",
        Some(Format::Avif) => "AVIF",
    }
}

/// The settings whose values decide whether setting `key` of `f` applies.
pub open spec fn active_reads(f: Format, key: Seq<char>) -> Seq<Seq<char>> {
    match f {
        Format::Jpeg => if key == "progressive"@ {
            seq!["baseline"@]
        } else if key == "optimize_coding"@ {
            seq!["arithmetic"@]
        } else if key == "auto_subsample"@ || key == "separate_chroma_quality"@ {
            seq!["color_space"@]
        } else if key == "chroma_subsample"@ {
            seq!["color_space"@, "auto_subsample"@]
        } else if key == "chroma_quality"@ {
            seq!["color_space"@, "separate_chroma_quality"@]
        } else if key == "trellis_opt_zero"@ {
            seq!["trellis_multipass"@]
        } else {
            seq![]
        },
        Format::Webp => if key == "use_delta_palette"@ {
            seq![]
        } else if key == "near_lossless"@ || key == "image_hint"@ {
            seq!["lossless"@]
        } else if key == "filter_strength"@ {
            seq!["lossless"@, "autofilter"@]
        } else if webp_lossy_only(key) {
            seq!["lossless"@]
        } else if key == "alpha_quality"@ || key == "alpha_filtering"@ {
            seq!["lossless"@, "alpha_compression"@]
        } else {
            seq![]
        },
        Format::Avif => if avif_lossy_only(key) {
            seq!["quality"@]
        } else {
            seq![]
        },
        Format::Png => seq![],
    }
}

/// The WebP settings that only apply to lossy compression.
pub open spec fn webp_lossy_only(key: Seq<char>) -> bool {
    key == "sns_strength"@ || key == "filter_sharpness"@ || key == "filter_type"@ || key
        == "partitions"@ || key == "segments"@ || key == "pass"@ || key == "preprocessing"@ || key
        == "autofilter"@ || key == "partition_limit"@ || key == "use_sharp_yuv"@ || key
        == "alpha_compression"@
}

/// The AVIF settings that do not apply to lossless compression.
pub open spec fn avif_lossy_only(key: Seq<char>) -> bool {
    key == "subsample"@ || key == "qualityAlpha"@ || key == "denoiseLevel"@ || key
        == "chromaDeltaQ"@ || key == "sharpness"@ || key == "tune"@
}

/// Whether setting `key` of `f` applies given the other settings `o`, as
/// the settings panel greys them out: baseline JPEG has no progressive
/// rendering, arithmetic coding no Huffman optimization, chroma settings
/// need YCbCr; lossless WebP ignores the lossy tools and lossy WebP the
/// lossless ones; lossless AVIF (quality 100) ignores the lossy tools; the
/// reserved delta palette never applies.
pub open spec fn spec_active(f: Format, key: Seq<char>, o: Seq<(Seq<char>, i32)>) -> bool {
    let v = |k: Seq<char>| value_at(o, k);
    match f {
        Format::Jpeg => if key == "progressive"@ {
            v("baseline"@) == 0
        } else if key == "optimize_coding"@ {
            v("arithmetic"@) == 0
        } else if key == "auto_subsample"@ || key == "separate_chroma_quality"@ {
            v("color_space"@) == 3
        } else if key == "chroma_subsample"@ {
            v("color_space"@) == 3 && v("auto_subsample"@) == 0
        } else if key == "chroma_quality"@ {
            v("color_space"@) == 3 && v("separate_chroma_quality"@) != 0
        } else if key == "trellis_opt_zero"@ {
            v("trellis_multipass"@) != 0
        } else {
            true
        },
        Format::Webp => if key == "use_delta_palette"@ {
            false
        } else if key == "near_lossless"@ || key == "image_hint"@ {
            v("lossless"@) != 0
        } else if key == "filter_strength"@ {
            v("lossless"@) == 0 && v("autofilter"@) == 0
        } else if webp_lossy_only(key) {
            v("lossless"@) == 0
        } else if key == "alpha_quality"@ || key == "alpha_filtering"@ {
            v("lossless"@) == 0 && v("alpha_compression"@) != 0
        } else {
            true
        },
        Format::Avif => if avif_lossy_only(key) {
            v("quality"@) != 100
        } else {
            true
        },
        Format::Png => true,
    }
}

fn value(o: &Options, k: &str) -> (out: i32)
    requires
        assoc_get(o@, k@) is Some,
    ensures
        out == value_at(o@, k@),
{
    match o.get(k) {
        Some(v) => v,
        None => 0,
    }
}

fn is(key: &[char], name: &str) -> (out: bool)
    ensures
        out == (key@ == name@),
{
    crate::text::chars_equal(key, name)
}

/// Whether setting `key` of `f` applies given the other settings.
pub fn active(f: Format, key: &str, o: &Options) -> (out: bool)
    requires
        forall|i: int|
            0 <= i < active_reads(f, key@).len() ==> assoc_get(
                o@,
                #[trigger] active_reads(f, key@)[i],
            ) is Some,
    ensures
        out == spec_active(f, key@, o@),
{
    let k = crate::text::chars_of(key);
    match f {
        Format::Jpeg => {
            if is(&k, "progressive") {
                assert(active_reads(f, key@)[0] == "baseline"@);
                value(o, "baseline") == 0
            } else if is(&k, "optimize_coding") {
                assert(active_reads(f, key@)[0] == "arithmetic"@);
                value(o, "arithmetic") == 0
            } else if is(&k, "auto_subsample") || is(&k, "separate_chroma_quality") {
                assert(active_reads(f, key@)[0] == "color_space"@);
                value(o, "color_space") == 3
            } else if is(&k, "chroma_subsample") {
                assert(active_reads(f, key@)[0] == "color_space"@);
                assert(active_reads(f, key@)[1] == "auto_subsample"@);
                value(o, "color_space") == 3 && value(o, "auto_subsample") == 0
            } else if is(&k, "chroma_quality") {
                assert(active_reads(f, key@)[0] == "color_space"@);
                assert(active_reads(f, key@)[1] == "separate_chroma_quality"@);
                value(o, "color_space") == 3 && value(o, "separate_chroma_quality") != 0
            } else if is(&k, "trellis_opt_zero") {
                assert(active_reads(f, key@)[0] == "trellis_multipass"@);
                value(o, "trellis_multipass") != 0
            } else {
                true
            }
        },
        Format::Webp => {
            if is(&k, "use_delta_palette") {
                false
            } else if is(&k, "near_lossless") || is(&k, "image_hint") {
                assert(active_reads(f, key@)[0] == "lossless"@);
                value(o, "lossless") != 0
            } else if is(&k, "filter_strength") {
                assert(active_reads(f, key@)[0] == "lossless"@);
                assert(active_reads(f, key@)[1] == "autofilter"@);
                value(o, "lossless") == 0 && value(o, "autofilter") == 0
            } else if is(&k, "sns_strength") || is(&k, "filter_sharpness") || is(&k, "filter_type")
                || is(&k, "partitions") || is(&k, "segments") || is(&k, "pass") || is(
                &k,
                "preprocessing",
            ) || is(&k, "autofilter") || is(&k, "partition_limit") || is(&k, "use_sharp_yuv")
                || is(&k, "alpha_compression") {
                assert(active_reads(f, key@)[0] == "lossless"@);
                value(o, "lossless") == 0
            } else if is(&k, "alpha_quality") || is(&k, "alpha_filtering") {
                assert(active_reads(f, key@)[0] == "lossless"@);
                assert(active_reads(f, key@)[1] == "alpha_compression"@);
                value(o, "lossless") == 0 && value(o, "alpha_compression") != 0
            } else {
                true
            }
        },
        Format::Avif => {
            if is(&k, "subsample") || is(&k, "qualityAlpha") || is(&k, "denoiseLevel") || is(
                &k,
                "chromaDeltaQ",
            ) || is(&k, "sharpness") || is(&k, "tune") {
                assert(active_reads(f, key@)[0] == "quality"@);
                value(o, "quality") != 100
            } else {
                true
            }
        },
        Format::Png => true,
    }
}

/// `1000^e` for the units up to terabytes.
pub open spec fn unit_size(e: nat) -> nat {
    if e == 0 {
        1
    } else if e == 1 {
        1000
    } else if e == 2 {
        1_000_000
    } else if e == 3 {
        1_000_000_000
    } else {
        1_000_000_000_000
    }
}

/// The decimal unit of a byte count: the largest of B, kB, MB, GB and TB
/// that is not larger than the count.
pub open spec fn byte_exponent(b: nat) -> nat {
    if b >= unit_size(4) {
        4
    } else if b >= unit_size(3) {
        3
    } else if b >= unit_size(2) {
        2
    } else if b >= unit_size(1) {
        1
    } else {
        0
    }
}

/// The unit names, by exponent.
pub open spec fn unit_name(e: nat) -> Seq<char> {
    if e == 0 {
        "B"@
    } else if e == 1 {
        "kB"@
    } else if e == 2 {
        "MB"@
    } else if e == 3 {
        "GB"@
    } else {
        "TB"@
    }
}

/// `10^p` for `p <= 2`.
pub open spec fn ten_to(p: nat) -> nat {
    if p == 0 {
        1
    } else if p == 1 {
        10
    } else {
        100
    }
}

/// The text of `n / 10^p` with exactly `p` decimals.
pub open spec fn fixed_point(n: nat, p: nat) -> Seq<char> {
    if p == 0 {
        decimal(n)
    } else if p == 1 {
        decimal(n / 10) + seq!['.', digit(n % 10)]
    } else {
        decimal(n / 100) + seq!['.', digit((n % 100) / 10), digit(n % 10)]
    }
}

/// `2^k`.
pub open spec fn two_to(k: nat) -> nat
    decreases k,
{
    if k == 0 {
        1
    } else {
        2 * two_to((k - 1) as nat)
    }
}

/// `n / d` rounded to the nearest integer, a half to the even neighbor.
pub open spec fn round_even(n: nat, d: nat) -> nat {
    let q = n / d;
    let r = n % d;
    if 2 * r > d || (2 * r == d && q % 2 == 1) {
        q + 1
    } else {
        q
    }
}

/// How many low bits of `b` a double cannot hold: those below its 53 most
/// significant ones (2^53 = 9007199254740992).
pub open spec fn excess_bits(b: nat) -> nat
    decreases b,
{
    if b < 9007199254740992 {
        0
    } else {
        1 + excess_bits(b / 2)
    }
}

/// A count as the nearest double (a conversion `as f64`): exact below
/// 2^53, otherwise rounded to 53 significant bits, a half to the even
/// neighbor.
pub open spec fn as_double(b: nat) -> nat {
    let t = two_to(excess_bits(b));
    round_even(b, t) * t
}

/// The least binary scale `s`, from `s` on and at most 52, at which
/// `n · 2^s ≥ 2^52 · d` (2^52 = 4503599627370496), so that `n / d` has its 53
/// significant bits before the point.
pub open spec fn double_scale(n: nat, d: nat, s: nat) -> nat
    decreases 52 - s,
{
    if s >= 52 || n * two_to(s) >= 4503599627370496 * d {
        s
    } else {
        double_scale(n, d, s + 1)
    }
}

/// `n / d`, for `n ≥ d ≥ 1`, as the nearest double (a division of
/// doubles): the pair `(m, s)` of its value `m / 2^s`.
pub open spec fn double_quotient(n: nat, d: nat) -> (nat, nat) {
    let s = double_scale(n, d, 0);
    (round_even(n * two_to(s), d), s)
}

/// Decimals shown for the value `m / 2^s`: none from 100 on, one from 10,
/// two below, for three significant digits.
pub open spec fn shown_decimals(m: nat, s: nat) -> nat {
    if m >= 100 * two_to(s) {
        0
    } else if m >= 10 * two_to(s) {
        1
    } else {
        2
    }
}

/// Decimals that keep three significant digits once the value `m / 2^s`
/// is rounded: those of [`shown_decimals`], one fewer when the rounding
/// reaches the next power of ten (10.00 becomes 10.0, 100.0 becomes 100).
pub open spec fn significant_decimals(m: nat, s: nat) -> nat {
    let p = shown_decimals(m, s);
    if p > 0 && round_even(m * ten_to(p), two_to(s)) >= 1000 {
        (p - 1) as nat
    } else {
        p
    }
}

/// The number shown for a byte count, without its unit: the count itself
/// for bytes; otherwise the count as a double divided by its unit as a
/// double, with three significant digits: printed with the decimals of
/// [`significant_decimals`], its exact binary value rounded to them with a
/// half to the even neighbor.
pub open spec fn spec_pretty_number(b: nat) -> Seq<char> {
    let e = byte_exponent(b);
    if e == 0 {
        decimal(b)
    } else {
        let (m, s) = double_quotient(as_double(b), unit_size(e));
        let p = significant_decimals(m, s);
        fixed_point(round_even(m * ten_to(p), two_to(s)), p)
    }
}

fn round_even_exec(n: u128, d: u128) -> (out: u128)
    requires
        d > 0,
    ensures
        out == round_even(n as nat, d as nat),
        out <= n / d + 1,
{
    let q = n / d;
    let r = n % d;
    if r > d - r || (r == d - r && q % 2 == 1) {
        assert(r > 0);
        assert(q + 1 <= u128::MAX) by (nonlinear_arith)
            requires
                d >= 2,
                q == n / d,
                n <= u128::MAX,
        ;
        q + 1
    } else {
        q
    }
}

proof fn lemma_two_to_mono(a: nat, b: nat)
    requires
        a <= b,
    ensures
        two_to(a) <= two_to(b),
        two_to(a) >= 1,
    decreases b,
{
    if b > 0 {
        if a < b {
            lemma_two_to_mono(a, (b - 1) as nat);
        } else {
            lemma_two_to_mono((a - 1) as nat, (b - 1) as nat);
        }
    }
}

proof fn lemma_two_to_52()
    ensures
        two_to(52) == 4503599627370496,
{
    reveal_with_fuel(two_to, 53);
}

/// A count as the nearest double, with its value.
fn double_of(b: u64) -> (out: u128)
    ensures
        out == as_double(b as nat),
        out <= 0x1_0000_0000_0000_0000u128 + 4096,
        b < 9007199254740992 ==> out == b,
        b >= 9007199254740992 ==> out >= 4503599627370496,
{
    let mut q: u128 = b as u128;
    let mut p: u128 = 1;
    let ghost mut k: nat = 0;
    while q >= 9007199254740992
        invariant
            q == (b as nat) / (p as nat),
            p as nat == two_to(k),
            1 <= p <= 4096,
            excess_bits(b as nat) == k + excess_bits(q as nat),
            k == 0 ==> q == b,
            k > 0 ==> q >= 4503599627370496,
        decreases q,
    {
        proof {
            vstd::arithmetic::div_mod::lemma_div_denominator(b as int, p as int, 2);
            assert(p * 9007199254740992 <= p * q) by (nonlinear_arith)
                requires
                    q >= 9007199254740992,
            ;
            assert(p * q <= b) by (nonlinear_arith)
                requires
                    q == (b as nat) / (p as nat),
                    p >= 1,
            ;
        }
        q = q / 2;
        p = p * 2;
        proof {
            k = k + 1;
        }
    }
    let r = round_even_exec(b as u128, p);
    assert(r <= q + 1);
    assert(r * p <= 9007199254740992 * 4096) by (nonlinear_arith)
        requires
            r <= 9007199254740992,
            p <= 4096,
    ;
    proof {
        if b >= 9007199254740992 {
            assert(r * p >= q * p) by (nonlinear_arith)
                requires
                    r >= q,
            ;
            assert(q * p >= q) by (nonlinear_arith)
                requires
                    p >= 1,
            ;
        }
        assert(r * p <= b + p) by (nonlinear_arith)
            requires
                r <= (b as nat) / (p as nat) + 1,
                p >= 1,
        ;
    }
    r * p
}

/// `n / d` as the nearest double: `(m, s)` with value `m / 2^s`, and `2^s`.
fn quotient(n: u128, d: u128) -> (out: (u128, u32, u128))
    requires
        1 <= d <= 1_000_000_000_000,
        d <= n,
        n <= 0x1_0000_0000_0000_0000u128 + 4096,
    ensures
        double_quotient(n as nat, d as nat) == (out.0 as nat, out.1 as nat),
        out.2 as nat == two_to(out.1 as nat),
        1 <= out.2 <= 4503599627370496,
        out.0 <= (0x1_0000_0000_0000_0000u128 + 4096) * 4503599627370496 + 1,
{
    proof {
        lemma_two_to_52();
    }
    let p52: u128 = 4503599627370496;
    assert(p52 * d <= 4503599627370496 * 1_000_000_000_000) by (nonlinear_arith)
        requires
            p52 == 4503599627370496,
            d <= 1_000_000_000_000,
    ;
    let limit = p52 * d;
    let mut s: u32 = 0;
    let mut p2: u128 = 1;
    while s < 52 && n * p2 < limit
        invariant
            p2 as nat == two_to(s as nat),
            s <= 52,
            1 <= p2 <= 4503599627370496,
            1 <= d <= 1_000_000_000_000,
            d <= n,
            n <= 0x1_0000_0000_0000_0000u128 + 4096,
            n * p2 <= (0x1_0000_0000_0000_0000u128 + 4096) * 4503599627370496,
            limit == 4503599627370496 * d,
            two_to(52) == 4503599627370496,
            double_scale(n as nat, d as nat, 0) == double_scale(n as nat, d as nat, s as nat),
        decreases 52 - s,
    {
        proof {
            lemma_two_to_mono((s + 1) as nat, 52);
        }
        s = s + 1;
        p2 = p2 * 2;
        assert(n * p2 <= (0x1_0000_0000_0000_0000u128 + 4096) * 4503599627370496) by (nonlinear_arith)
            requires
                n <= 0x1_0000_0000_0000_0000u128 + 4096,
                p2 <= 4503599627370496,
        ;
    }
    let big = n * p2;
    let m = round_even_exec(big, d);
    assert(big / d <= big) by (nonlinear_arith)
        requires
            d >= 1,
    ;
    (m, s, p2)
}

/// Formats a byte count with decimal units and three significant digits,
/// as a double printed with a fixed number of decimals; see
/// [`spec_pretty_number`].
pub fn pretty_bytes(bytes: u64) -> (out: (String, &'static str))
    ensures
        out.0@ == spec_pretty_number(bytes as nat),
        out.1@ == unit_name(byte_exponent(bytes as nat)),
{
    let (e, size): (u64, u64) = if bytes >= 1_000_000_000_000 {
        (4, 1_000_000_000_000)
    } else if bytes >= 1_000_000_000 {
        (3, 1_000_000_000)
    } else if bytes >= 1_000_000 {
        (2, 1_000_000)
    } else if bytes >= 1000 {
        (1, 1000)
    } else {
        (0, 1)
    };
    assert(size == unit_size(e as nat) && e == byte_exponent(bytes as nat));
    let unit = if e == 0 {
        "B"
    } else if e == 1 {
        "kB"
    } else if e == 2 {
        "MB"
    } else if e == 3 {
        "GB"
    } else {
        "TB"
    };
    if e == 0 {
        return (string_of(&decimal_chars(bytes)), unit);
    }
    let n = double_of(bytes);
    let (m, s, p2) = quotient(n, size as u128);
    let (p0, ten0): (u64, u128) = if m >= 100 * p2 {
        (0, 1)
    } else if m >= 10 * p2 {
        (1, 10)
    } else {
        (2, 100)
    };
    assert(p0 == shown_decimals(m as nat, s as nat) && ten0 == ten_to(p0 as nat));
    assert(m * 100 <= ((0x1_0000_0000_0000_0000u128 + 4096) * 4503599627370496 + 1) * 100)
        by (nonlinear_arith)
        requires
            m <= (0x1_0000_0000_0000_0000u128 + 4096) * 4503599627370496 + 1,
    ;
    assert(m * ten0 <= m * 100) by (nonlinear_arith)
        requires
            ten0 <= 100,
    ;
    let r0 = round_even_exec(m * ten0, p2);
    let (p, ten): (u64, u128) = if p0 > 0 && r0 >= 1000 {
        if p0 == 2 {
            (1, 10)
        } else {
            (0, 1)
        }
    } else {
        (p0, ten0)
    };
    assert(p == significant_decimals(m as nat, s as nat) && ten == ten_to(p as nat));
    assert(m * ten <= m * 100) by (nonlinear_arith)
        requires
            ten <= 100,
    ;
    let r = round_even_exec(m * ten, p2);
    let mut text = decimal_chars_wide(r / ten);
    if p == 1 {
        text.push('.');
        text.push(digit_of((r % 10) as u64));
    } else if p == 2 {
        text.push('.');
        text.push(digit_of(((r % 100) / 10) as u64));
        text.push(digit_of((r % 10) as u64));
    }
    assert(text@ =~= fixed_point(r as nat, p as nat));
    (string_of(&text), unit)
}

fn digit_of(d: u64) -> (c: char)
    requires
        d < 10,
    ensures
        c == digit(d as nat),
{
    let b: u8 = d as u8;
    (b + 48) as char
}

/// A byte count with its unit, such as `1.23 MB`.
pub fn size(bytes: u64) -> (out: String)
    ensures
        out@ == spec_pretty_number(bytes as nat) + seq![' '] + unit_name(
            byte_exponent(bytes as nat),
        ),
{
    let (value, unit) = pretty_bytes(bytes);
    let mut text = crate::text::chars_of(value.as_str());
    text.push(' ');
    let u = crate::text::chars_of(unit);
    crate::text::append_chars(&mut text, &u);
    string_of(&text)
}


/// The lossless effort steps of WebP, 0 to 9: the method and quality that
/// each step sets.
pub open spec fn webp_presets() -> Seq<(i32, i32)> {
    seq![(0, 0), (1, 20), (2, 25), (3, 30), (3, 50), (4, 50), (4, 75), (4, 90), (5, 90), (6, 100)]
}

/// Lossless effort step `i` of WebP: its method and quality.
pub fn webp_preset(i: usize) -> (out: (i32, i32))
    requires
        i < 10,
    ensures
        out == webp_presets()[i as int],
{
    match i {
        0 => (0, 0),
        1 => (1, 20),
        2 => (2, 25),
        3 => (3, 30),
        4 => (3, 50),
        5 => (4, 50),
        6 => (4, 75),
        7 => (4, 90),
        8 => (5, 90),
        _ => (6, 100),
    }
}

/// The first step from `i` on whose method and quality are `m` and `q`,
/// or step 6 when none is.
pub open spec fn preset_from(m: i32, q: i32, i: int) -> int
    decreases 10 - i,
{
    if i >= 10 {
        6
    } else if webp_presets()[i] == (m, q) {
        i
    } else {
        preset_from(m, q, i + 1)
    }
}

/// The lossless effort step that WebP settings show.
pub fn webp_effort(o: &Options) -> (out: usize)
    requires
        assoc_get(o@, "method"@) is Some,
        assoc_get(o@, "quality"@) is Some,
    ensures
        out == preset_from(value_at(o@, "method"@), value_at(o@, "quality"@), 0),
        out < 10,
{
    let m = match o.get("method") {
        Some(v) => v,
        None => 0,
    };
    let q = match o.get("quality") {
        Some(v) => v,
        None => 0,
    };
    let mut i: usize = 0;
    while i < 10
        invariant
            i <= 10,
            m == value_at(o@, "method"@),
            q == value_at(o@, "quality"@),
            preset_from(m, q, 0) == preset_from(m, q, i as int),
        decreases 10 - i,
    {
        let (pm, pq) = webp_preset(i);
        if pm == m && pq == q {
            return i;
        }
        i += 1;
    }
    6
}

/// Sets WebP settings to lossless effort step `preset`.
pub fn set_webp_effort(o: &mut Options, preset: usize)
    requires
        preset < 10,
    ensures
        final(o)@ == assoc_set(
            assoc_set(old(o)@, "method"@, webp_presets()[preset as int].0),
            "quality"@,
            webp_presets()[preset as int].1,
        ),
{
    let (m, q) = webp_preset(preset);
    o.insert("method".to_owned(), m);
    o.insert("quality".to_owned(), q);
}

/// AVIF settings after the lossless switch: quality 100 with 4:4:4
/// chroma when lossless, quality 50 otherwise; alpha quality linked to
/// the color quality either way.
pub open spec fn spec_avif_lossless(o: Seq<(Seq<char>, i32)>, lossless: bool) -> Seq<(Seq<char>, i32)> {
    let quality: i32 = if lossless {
        100
    } else {
        50
    };
    let linked = assoc_set(assoc_set(o, "quality"@, quality), "qualityAlpha"@, -1i32);
    if lossless {
        assoc_set(linked, "subsample"@, 3i32)
    } else {
        linked
    }
}

/// Turns lossless AVIF compression on or off.
pub fn set_avif_lossless(o: &mut Options, lossless: bool)
    ensures
        final(o)@ == spec_avif_lossless(old(o)@, lossless),
{
    o.insert("quality".to_owned(), if lossless { 100 } else { 50 });
    o.insert("qualityAlpha".to_owned(), -1);
    if lossless {
        o.insert("subsample".to_owned(), 3);
    }
}

/// Whether setting `key` of `f` sits under the advanced settings rather
/// than in the main controls: everything but quality for JPEG; nothing
/// for PNG; everything but quality, method, lossless and near-lossless for
/// WebP; everything but quality and speed for AVIF.
pub open spec fn spec_is_advanced(f: Format, key: Seq<char>) -> bool {
    match f {
        Format::Jpeg => key != "quality"@,
        Format::Png => false,
        Format::Webp => !(key == "quality"@ || key == "method"@ || key == "lossless"@ || key
            == "near_lossless"@),
        Format::Avif => !(key == "quality"@ || key == "speed"@),
    }
}

/// Whether setting `key` of `f` sits under the advanced settings.
pub fn is_advanced(f: Format, key: &str) -> (out: bool)
    ensures
        out == spec_is_advanced(f, key@),
{
    let k = crate::text::chars_of(key);
    match f {
        Format::Jpeg => !crate::text::chars_equal(&k, "quality"),
        Format::Png => false,
        Format::Webp => !(crate::text::chars_equal(&k, "quality") || crate::text::chars_equal(&k, "method")
            || crate::text::chars_equal(&k, "lossless") || crate::text::chars_equal(&k, "near_lossless")),
        Format::Avif => !(crate::text::chars_equal(&k, "quality") || crate::text::chars_equal(&k, "speed")),
    }
}

/// The value that an inverted slider counts down from: AVIF speed, WebP
/// near-lossless and WebP filter sharpness read better inverted.
pub open spec fn spec_inverted(f: Format, key: Seq<char>) -> Option<i32> {
    if f == Format::Avif && key == "speed"@ {
        Some(10)
    } else if f == Format::Webp && key == "near_lossless"@ {
        Some(100)
    } else if f == Format::Webp && key == "filter_sharpness"@ {
        Some(7)
    } else {
        None
    }
}

/// What the slider of a setting shows for `value`, and the value that a
/// slider position stands for: `top - value` on an inverted slider, the
/// value itself on the others.
pub open spec fn spec_slider_value(f: Format, key: Seq<char>, value: i32) -> int {
    match spec_inverted(f, key) {
        Some(top) => top - value,
        None => value as int,
    }
}

/// The slider position of `value` for setting `key` of `format` (and,
/// applied to a position, the value it stands for).
pub fn slider_value(format: Format, key: &str, value: i32) -> (out: i32)
    requires
        spec_inverted(format, key@) matches Some(top) ==> value >= top - i32::MAX,
    ensures
        out == spec_slider_value(format, key@, value),
{
    let k = crate::text::chars_of(key);
    let top: i32 = match format {
        Format::Avif => if is(&k, "speed") {
            10
        } else {
            return value;
        },
        Format::Webp => if is(&k, "near_lossless") {
            100
        } else if is(&k, "filter_sharpness") {
            7
        } else {
            return value;
        },
        _ => return value,
    };
    top - value
}

/// A slider shows the position of a value, and that position stands for
/// the value again.
pub proof fn lemma_slider_round_trip(f: Format, key: Seq<char>, value: i32)
    requires
        spec_inverted(f, key) matches Some(top) ==> value >= top - i32::MAX,
    ensures
        spec_slider_value(f, key, spec_slider_value(f, key, value) as i32) == value,
{
}

/// How the size of a result compares with its source.
#[derive(Debug, Clone, Copy, PartialEq, Eq, Structural)]
pub enum SizeChange {
    Smaller,
    Same,
    Larger,
}

/// The size of a result as a percent of its source, rounded to the
/// nearest whole number, halves up.
pub open spec fn rounded_percent(out: nat, src: nat) -> nat
    recommends
        src > 0,
{
    ((200 * out + src) / (2 * src)) as nat
}

/// What the results bubble shows: how many percent smaller or larger the
/// result is than its source, and which way it changed.
pub open spec fn spec_size_change(out: nat, src: nat) -> (nat, SizeChange)
    recommends
        src > 0,
{
    let p = rounded_percent(out, src);
    if out > src {
        ((p - 100) as nat, SizeChange::Larger)
    } else if out < src {
        ((100 - p) as nat, SizeChange::Smaller)
    } else {
        (0, SizeChange::Same)
    }
}

/// The change shown in the results bubble for a result of `out` bytes from
/// a source of `src` bytes; see [`spec_size_change`].
pub fn size_change(out: u64, src: u64) -> (r: (u128, SizeChange))
    requires
        src > 0,
    ensures
        r.0 == spec_size_change(out as nat, src as nat).0,
        r.1 == spec_size_change(out as nat, src as nat).1,
{
    let o = out as u128;
    let s = src as u128;
    assert(200 * o + s <= 201 * 0xFFFF_FFFF_FFFF_FFFFu128) by (nonlinear_arith)
        requires
            o <= 0xFFFF_FFFF_FFFF_FFFFu128,
            s <= 0xFFFF_FFFF_FFFF_FFFFu128,
    ;
    let p = (200 * o + s) / (2 * s);
    assert(p == rounded_percent(out as nat, src as nat));
    if out > src {
        assert(p >= 100) by (nonlinear_arith)
            requires
                p == (200 * o + s) / (2 * s),
                o > s,
                s > 0,
        ;
        (p - 100, SizeChange::Larger)
    } else if out < src {
        assert(p <= 100) by (nonlinear_arith)
            requires
                p == (200 * o + s) / (2 * s),
                o < s,
                s > 0,
        ;
        (100 - p, SizeChange::Smaller)
    } else {
        (0, SizeChange::Same)
    }
}

} // verus!
