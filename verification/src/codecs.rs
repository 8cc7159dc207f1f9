//! The output codecs: their option registry (defaults, bounds and English
//! labels shared by the interface and the engine), option validation, the
//! image size limits and the messages of the native encoders.
use crate::i18n::{spec_t, t, Catalog, format_from, Lang};
use crate::text::{
    assoc_get, assoc_set, chars_of, find_key, keys_distinct, lemma_assoc_set_distinct, lemma_find_key,
    lemma_find_key_bound, signed_decimal, signed_decimal_chars, string_of,
};
use vstd::prelude::*;

verus! {

/// An output format.
#[derive(Debug, Clone, Copy, PartialEq, Eq, Hash, Structural)]
pub enum Format {
    Jpeg,
    Png,
    Webp,
    Avif,
}

/// The registry key of a format.
pub open spec fn spec_key(f: Format) -> Seq<char> {
    match f {
        Format::Jpeg => "jpeg"@,
        Format::Png => "png"@,
        Format::Webp => "webp"@,
        Format::Avif => "avif"@,
    }
}

/// The file extension of a format.
pub open spec fn spec_extension(f: Format) -> Seq<char> {
    if f == Format::Jpeg {
        "jpg"@
    } else {
        spec_key(f)
    }
}

impl Format {
    /// Every format, in the order of the codec picker.
    pub fn all() -> (out: [Format; 4])
        ensures
            out@ == seq![Format::Jpeg, Format::Png, Format::Webp, Format::Avif],
    {
        let out = [Format::Jpeg, Format::Png, Format::Webp, Format::Avif];
        assert(out@ =~= seq![Format::Jpeg, Format::Png, Format::Webp, Format::Avif]);
        out
    }

    /// The registry key: `jpeg`, `png`, `webp` or `avif`.
    pub fn key(self) -> (out: &'static str)
        ensures
            out@ == spec_key(self),
    {
        match self {
            Format::Jpeg => "jpeg",
            Format::Png => "png",
            Format::Webp => "webp",
            Format::Avif => "avif",
        }
    }

    /// The file extension: `jpg` for JPEG, the key otherwise.
    pub fn extension(self) -> (out: &'static str)
        ensures
            out@ == spec_extension(self),
    {
        if self == Format::Jpeg {
            "jpg"
        } else {
            self.key()
        }
    }
}

/// One codec setting: its key, English label, default, bounds and, for a
/// list, the English label of each value from `min` on.
pub struct OptionSpec {
    pub key: String,
    pub label: String,
    pub default: i32,
    pub min: i32,
    pub max: i32,
    pub choices: Vec<String>,
}

/// Key, label, default, minimum, maximum and choices of a setting.
pub type OptionSpecView = (Seq<char>, Seq<char>, i32, i32, i32, Seq<Seq<char>>);

impl View for OptionSpec {
    type V = OptionSpecView;

    open spec fn view(&self) -> OptionSpecView {
        (
            self.key@,
            self.label@,
            self.default,
            self.min,
            self.max,
            self.choices@.map_values(|c: String| c@),
        )
    }
}

/// The views of a list of settings.
pub open spec fn specs_view(v: Seq<OptionSpec>) -> Seq<OptionSpecView> {
    v.map_values(|s: OptionSpec| s@)
}

fn entry(key: &str, label: &str, default: i32, min: i32, max: i32, choices: Vec<&str>) -> (out:
    OptionSpec)
    ensures
        out@ == (key@, label@, default, min, max, choices@.map_values(|c: &str| c@)),
{
    let mut list: Vec<String> = Vec::new();
    let mut i: usize = 0;
    while i < choices.len()
        invariant
            i <= choices@.len(),
            list@.len() == i,
            forall|j: int| 0 <= j < i ==> #[trigger] list@[j]@ == choices@[j]@,
        decreases choices@.len() - i,
    {
        list.push(choices[i].to_owned());
        i += 1;
    }
    let out = OptionSpec {
        key: key.to_owned(),
        label: label.to_owned(),
        default,
        min,
        max,
        choices: list,
    };
    assert(out@.5 =~= choices@.map_values(|c: &str| c@));
    out
}

/// The settings of Jpeg, in the order the native encoder reads them.
pub open spec fn spec_jpeg_specs() -> Seq<OptionSpecView> {
    seq![
        ("quality"@, "Quality"@, 75i32, 0i32, 100i32, Seq::empty()),
        ("baseline"@, "Baseline JPEG"@, 0i32, 0i32, 1i32, Seq::empty()),
        ("arithmetic"@, "Arithmetic coding"@, 0i32, 0i32, 1i32, Seq::empty()),
        ("progressive"@, "Progressive rendering"@, 1i32, 0i32, 1i32, Seq::empty()),
        ("optimize_coding"@, "Optimize Huffman table"@, 1i32, 0i32, 1i32, Seq::empty()),
        ("smoothing"@, "Smoothing"@, 0i32, 0i32, 100i32, Seq::empty()),
        ("color_space"@, "Channels"@, 3i32, 1i32, 3i32, seq!["Grayscale"@, "RGB"@, "YCbCr"@]),
        ("quant_table"@, "Quantization table"@, 3i32, 0i32, 8i32, seq!["JPEG Annex K"@, "Flat"@, "MSSIM-tuned Kodak"@, "ImageMagick"@, "PSNR-HVS-M-tuned Kodak"@, "Klein et al"@, "Watson et al"@, "Ahumada et al"@, "Peterson et al"@]),
        ("trellis_multipass"@, "Trellis multipass"@, 0i32, 0i32, 1i32, Seq::empty()),
        ("trellis_opt_zero"@, "Optimize zero block runs"@, 0i32, 0i32, 1i32, Seq::empty()),
        ("trellis_opt_table"@, "Optimize after trellis quantization"@, 0i32, 0i32, 1i32, Seq::empty()),
        ("trellis_loops"@, "Trellis quantization passes"@, 1i32, 1i32, 50i32, Seq::empty()),
        ("auto_subsample"@, "Auto subsample chroma"@, 1i32, 0i32, 1i32, Seq::empty()),
        ("chroma_subsample"@, "Subsample chroma by"@, 2i32, 1i32, 4i32, Seq::empty()),
        ("separate_chroma_quality"@, "Separate chroma quality"@, 0i32, 0i32, 1i32, Seq::empty()),
        ("chroma_quality"@, "Chroma quality"@, 75i32, 0i32, 100i32, Seq::empty()),
    ]
}

/// The settings of Png, in the order the native encoder reads them.
pub open spec fn spec_png_specs() -> Seq<OptionSpecView> {
    seq![
        ("level"@, "Optimization level"@, 2i32, 0i32, 6i32, Seq::empty()),
        ("interlace"@, "Interlace"@, 0i32, 0i32, 1i32, Seq::empty()),
    ]
}

/// The settings of Webp, in the order the native encoder reads them.
pub open spec fn spec_webp_specs() -> Seq<OptionSpecView> {
    seq![
        ("quality"@, "Quality"@, 75i32, 0i32, 100i32, Seq::empty()),
        ("target_size"@, "Target size (bytes)"@, 0i32, 0i32, 2147483647i32, Seq::empty()),
        ("target_PSNR"@, "Target PSNR"@, 0i32, 0i32, 100i32, Seq::empty()),
        ("method"@, "Effort"@, 4i32, 0i32, 6i32, Seq::empty()),
        ("sns_strength"@, "Spatial noise shaping"@, 50i32, 0i32, 100i32, Seq::empty()),
        ("filter_strength"@, "Filter strength"@, 60i32, 0i32, 100i32, Seq::empty()),
        ("filter_sharpness"@, "Filter sharpness"@, 0i32, 0i32, 7i32, Seq::empty()),
        ("filter_type"@, "Strong filter"@, 1i32, 0i32, 1i32, Seq::empty()),
        ("partitions"@, "Partitions"@, 0i32, 0i32, 3i32, Seq::empty()),
        ("segments"@, "Segments"@, 4i32, 1i32, 4i32, Seq::empty()),
        ("pass"@, "Passes"@, 1i32, 1i32, 10i32, Seq::empty()),
        ("show_compressed"@, "Show compressed"@, 0i32, 0i32, 1i32, Seq::empty()),
        ("preprocessing"@, "Preprocessing"@, 0i32, 0i32, 2i32, seq!["None"@, "Segment smoothing"@, "Pseudo-random dithering"@]),
        ("autofilter"@, "Auto adjust filter strength"@, 0i32, 0i32, 1i32, Seq::empty()),
        ("partition_limit"@, "Partition quality limit"@, 0i32, 0i32, 100i32, Seq::empty()),
        ("alpha_compression"@, "Compress alpha"@, 1i32, 0i32, 1i32, Seq::empty()),
        ("alpha_filtering"@, "Alpha filtering"@, 1i32, 0i32, 2i32, Seq::empty()),
        ("alpha_quality"@, "Alpha quality"@, 100i32, 0i32, 100i32, Seq::empty()),
        ("lossless"@, "Lossless"@, 0i32, 0i32, 1i32, Seq::empty()),
        ("exact"@, "Preserve transparent data"@, 0i32, 0i32, 1i32, Seq::empty()),
        ("image_hint"@, "Image type"@, 0i32, 0i32, 3i32, seq!["Default"@, "Picture"@, "Photo"@, "Graph"@]),
        ("emulate_jpeg_size"@, "Emulate JPEG size"@, 0i32, 0i32, 1i32, Seq::empty()),
        ("thread_level"@, "Multithreading"@, 0i32, 0i32, 1i32, Seq::empty()),
        ("low_memory"@, "Low memory"@, 0i32, 0i32, 1i32, Seq::empty()),
        ("near_lossless"@, "Near-lossless fidelity"@, 100i32, 0i32, 100i32, Seq::empty()),
        ("use_delta_palette"@, "Delta palette (reserved by libwebp)"@, 0i32, 0i32, 1i32, Seq::empty()),
        ("use_sharp_yuv"@, "Sharp YUV"@, 0i32, 0i32, 1i32, Seq::empty()),
    ]
}

/// The settings of Avif, in the order the native encoder reads them.
pub open spec fn spec_avif_specs() -> Seq<OptionSpecView> {
    seq![
        ("quality"@, "Quality"@, 50i32, 0i32, 100i32, Seq::empty()),
        ("qualityAlpha"@, "Alpha quality (−1: linked)"@, -1i32, -1i32, 100i32, Seq::empty()),
        ("denoiseLevel"@, "Noise synthesis"@, 0i32, 0i32, 50i32, Seq::empty()),
        ("tileColsLog2"@, "Log2 of tile columns"@, 0i32, 0i32, 6i32, Seq::empty()),
        ("tileRowsLog2"@, "Log2 of tile rows"@, 0i32, 0i32, 6i32, Seq::empty()),
        ("speed"@, "Speed"@, 6i32, 0i32, 10i32, Seq::empty()),
        ("subsample"@, "Subsample chroma"@, 1i32, 0i32, 3i32, seq!["4:0:0"@, "4:2:0"@, "4:2:2"@, "4:4:4"@]),
        ("chromaDeltaQ"@, "Extra chroma compression"@, 0i32, 0i32, 1i32, Seq::empty()),
        ("sharpness"@, "Sharpness"@, 0i32, 0i32, 7i32, Seq::empty()),
        ("tune"@, "Tuning"@, 0i32, 0i32, 2i32, seq!["Auto"@, "PSNR"@, "SSIM"@]),
        ("enableSharpYUV"@, "Sharp YUV"@, 0i32, 0i32, 1i32, Seq::empty()),
    ]
}

fn jpeg_specs() -> (out: Vec<OptionSpec>)
    ensures
        specs_view(out@) == spec_jpeg_specs(),
{
    let mut out: Vec<OptionSpec> = Vec::new();
    out.push(entry("quality", "Quality", 75, 0, 100, vec![]));
    out.push(entry("baseline", "Baseline JPEG", 0, 0, 1, vec![]));
    out.push(entry("arithmetic", "Arithmetic coding", 0, 0, 1, vec![]));
    out.push(entry("progressive", "Progressive rendering", 1, 0, 1, vec![]));
    out.push(entry("optimize_coding", "Optimize Huffman table", 1, 0, 1, vec![]));
    out.push(entry("smoothing", "Smoothing", 0, 0, 100, vec![]));
    out.push(entry("color_space", "Channels", 3, 1, 3, vec!["Grayscale", "RGB", "YCbCr"]));
    out.push(entry("quant_table", "Quantization table", 3, 0, 8, vec!["JPEG Annex K", "Flat", "MSSIM-tuned Kodak", "ImageMagick", "PSNR-HVS-M-tuned Kodak", "Klein et al", "Watson et al", "Ahumada et al", "Peterson et al"]));
    out.push(entry("trellis_multipass", "Trellis multipass", 0, 0, 1, vec![]));
    out.push(entry("trellis_opt_zero", "Optimize zero block runs", 0, 0, 1, vec![]));
    out.push(entry("trellis_opt_table", "Optimize after trellis quantization", 0, 0, 1, vec![]));
    out.push(entry("trellis_loops", "Trellis quantization passes", 1, 1, 50, vec![]));
    out.push(entry("auto_subsample", "Auto subsample chroma", 1, 0, 1, vec![]));
    out.push(entry("chroma_subsample", "Subsample chroma by", 2, 1, 4, vec![]));
    out.push(entry("separate_chroma_quality", "Separate chroma quality", 0, 0, 1, vec![]));
    out.push(entry("chroma_quality", "Chroma quality", 75, 0, 100, vec![]));
    assert(specs_view(out@) =~~= spec_jpeg_specs());
    out
}

fn png_specs() -> (out: Vec<OptionSpec>)
    ensures
        specs_view(out@) == spec_png_specs(),
{
    let mut out: Vec<OptionSpec> = Vec::new();
    out.push(entry("level", "Optimization level", 2, 0, 6, vec![]));
    out.push(entry("interlace", "Interlace", 0, 0, 1, vec![]));
    assert(specs_view(out@) =~~= spec_png_specs());
    out
}

fn webp_specs() -> (out: Vec<OptionSpec>)
    ensures
        specs_view(out@) == spec_webp_specs(),
{
    let mut out: Vec<OptionSpec> = Vec::new();
    out.push(entry("quality", "Quality", 75, 0, 100, vec![]));
    out.push(entry("target_size", "Target size (bytes)", 0, 0, 2147483647, vec![]));
    out.push(entry("target_PSNR", "Target PSNR", 0, 0, 100, vec![]));
    out.push(entry("method", "Effort", 4, 0, 6, vec![]));
    out.push(entry("sns_strength", "Spatial noise shaping", 50, 0, 100, vec![]));
    out.push(entry("filter_strength", "Filter strength", 60, 0, 100, vec![]));
    out.push(entry("filter_sharpness", "Filter sharpness", 0, 0, 7, vec![]));
    out.push(entry("filter_type", "Strong filter", 1, 0, 1, vec![]));
    out.push(entry("partitions", "Partitions", 0, 0, 3, vec![]));
    out.push(entry("segments", "Segments", 4, 1, 4, vec![]));
    out.push(entry("pass", "Passes", 1, 1, 10, vec![]));
    out.push(entry("show_compressed", "Show compressed", 0, 0, 1, vec![]));
    out.push(entry("preprocessing", "Preprocessing", 0, 0, 2, vec!["None", "Segment smoothing", "Pseudo-random dithering"]));
    out.push(entry("autofilter", "Auto adjust filter strength", 0, 0, 1, vec![]));
    out.push(entry("partition_limit", "Partition quality limit", 0, 0, 100, vec![]));
    out.push(entry("alpha_compression", "Compress alpha", 1, 0, 1, vec![]));
    out.push(entry("alpha_filtering", "Alpha filtering", 1, 0, 2, vec![]));
    out.push(entry("alpha_quality", "Alpha quality", 100, 0, 100, vec![]));
    out.push(entry("lossless", "Lossless", 0, 0, 1, vec![]));
    out.push(entry("exact", "Preserve transparent data", 0, 0, 1, vec![]));
    out.push(entry("image_hint", "Image type", 0, 0, 3, vec!["Default", "Picture", "Photo", "Graph"]));
    out.push(entry("emulate_jpeg_size", "Emulate JPEG size", 0, 0, 1, vec![]));
    out.push(entry("thread_level", "Multithreading", 0, 0, 1, vec![]));
    out.push(entry("low_memory", "Low memory", 0, 0, 1, vec![]));
    out.push(entry("near_lossless", "Near-lossless fidelity", 100, 0, 100, vec![]));
    out.push(entry("use_delta_palette", "Delta palette (reserved by libwebp)", 0, 0, 1, vec![]));
    out.push(entry("use_sharp_yuv", "Sharp YUV", 0, 0, 1, vec![]));
    assert(specs_view(out@) =~~= spec_webp_specs());
    out
}

fn avif_specs() -> (out: Vec<OptionSpec>)
    ensures
        specs_view(out@) == spec_avif_specs(),
{
    let mut out: Vec<OptionSpec> = Vec::new();
    out.push(entry("quality", "Quality", 50, 0, 100, vec![]));
    out.push(entry("qualityAlpha", "Alpha quality (−1: linked)", -1, -1, 100, vec![]));
    out.push(entry("denoiseLevel", "Noise synthesis", 0, 0, 50, vec![]));
    out.push(entry("tileColsLog2", "Log2 of tile columns", 0, 0, 6, vec![]));
    out.push(entry("tileRowsLog2", "Log2 of tile rows", 0, 0, 6, vec![]));
    out.push(entry("speed", "Speed", 6, 0, 10, vec![]));
    out.push(entry("subsample", "Subsample chroma", 1, 0, 3, vec!["4:0:0", "4:2:0", "4:2:2", "4:4:4"]));
    out.push(entry("chromaDeltaQ", "Extra chroma compression", 0, 0, 1, vec![]));
    out.push(entry("sharpness", "Sharpness", 0, 0, 7, vec![]));
    out.push(entry("tune", "Tuning", 0, 0, 2, vec!["Auto", "PSNR", "SSIM"]));
    out.push(entry("enableSharpYUV", "Sharp YUV", 0, 0, 1, vec![]));
    assert(specs_view(out@) =~~= spec_avif_specs());
    out
}

/// The settings of a format, in the order the native encoders read them.
pub open spec fn spec_specs(f: Format) -> Seq<OptionSpecView> {
    match f {
        Format::Jpeg => spec_jpeg_specs(),
        Format::Png => spec_png_specs(),
        Format::Webp => spec_webp_specs(),
        Format::Avif => spec_avif_specs(),
    }
}

/// The registry of a format's settings.
pub fn specs(format: Format) -> (out: Vec<OptionSpec>)
    ensures
        specs_view(out@) == spec_specs(format),
{
    match format {
        Format::Jpeg => jpeg_specs(),
        Format::Png => png_specs(),
        Format::Webp => webp_specs(),
        Format::Avif => avif_specs(),
    }
}

/// The values of a format's settings, by key.
#[derive(Debug)]
pub struct Options {
    entries: Vec<(String, i32)>,
}

/// The characters of each key, with its value.
pub open spec fn options_view(v: Seq<(String, i32)>) -> Seq<(Seq<char>, i32)> {
    v.map_values(|e: (String, i32)| (e.0@, e.1))
}

impl Options {
    /// No key occurs twice.
    #[verifier::type_invariant]
    spec fn keys_unique(self) -> bool {
        keys_distinct(options_view(self.entries@))
    }
}

impl View for Options {
    type V = Seq<(Seq<char>, i32)>;

    closed spec fn view(&self) -> Seq<(Seq<char>, i32)> {
        options_view(self.entries@)
    }
}

impl Clone for Options {
    fn clone(&self) -> (out: Options)
        ensures
            out@ == self@,
    {
        proof {
            use_type_invariant(self);
        }
        let mut entries: Vec<(String, i32)> = Vec::new();
        let mut i: usize = 0;
        while i < self.entries.len()
            invariant
                i <= self.entries@.len(),
                entries@.len() == i,
                options_view(entries@) == options_view(self.entries@).take(i as int),
            decreases self.entries@.len() - i,
        {
            let k = self.entries[i].0.clone();
            assert(k@ == self.entries@[i as int].0@);
            let ghost before = entries@;
            entries.push((k, self.entries[i].1));
            i += 1;
            assert(options_view(entries@) =~= options_view(self.entries@).take(i as int));
        }
        assert(options_view(self.entries@).take(i as int) =~= options_view(self.entries@));
        Options { entries }
    }
}

impl Options {
    /// No setting.
    pub fn new() -> (out: Options)
        ensures
            out@ == Seq::<(Seq<char>, i32)>::empty(),
    {
        let out = Options { entries: Vec::new() };
        assert(out@ =~= Seq::<(Seq<char>, i32)>::empty());
        out
    }

    /// The number of settings; no key occurs twice.
    pub fn len(&self) -> (out: usize)
        ensures
            out == self@.len(),
            keys_distinct(self@),
    {
        proof {
            use_type_invariant(self);
        }
        self.entries.len()
    }

    /// The value of setting `key`.
    pub fn get(&self, key: &str) -> (out: Option<i32>)
        ensures
            out == assoc_get(self@, key@),
    {
        let k = key.to_owned();
        let mut i: usize = 0;
        while i < self.entries.len()
            invariant
                i <= self.entries@.len(),
                k@ == key@,
                forall|j: int| 0 <= j < i ==> (#[trigger] self@[j]).0 != key@,
            decreases self.entries@.len() - i,
        {
            assert(self@[i as int] == (self.entries@[i as int].0@, self.entries@[i as int].1));
            if self.entries[i].0 == k {
                proof {
                    lemma_find_key(self@, key@, i as int);
                }
                return Some(self.entries[i].1);
            }
            i += 1;
        }
        proof {
            lemma_find_key(self@, key@, i as int);
        }
        None
    }

    /// Sets `key` to `value`, in place when the key is already there.
    pub fn insert(&mut self, key: String, value: i32)
        ensures
            final(self)@ == assoc_set(old(self)@, key@, value),
    {
        proof {
            use_type_invariant(&*self);
        }
        let ghost s0 = self@;
        let mut entries: Vec<(String, i32)> = Vec::new();
        std::mem::swap(&mut entries, &mut self.entries);
        proof {
            lemma_assoc_set_distinct(s0, key@, value);
        }
        let mut i: usize = 0;
        while i < entries.len()
            invariant
                i <= entries@.len(),
                options_view(entries@) == s0,
                s0 == old(self)@,
                keys_distinct(assoc_set(s0, key@, value)),
                forall|j: int| 0 <= j < i ==> (#[trigger] s0[j]).0 != key@,
            decreases entries@.len() - i,
        {
            assert(s0[i as int] == (entries@[i as int].0@, entries@[i as int].1));
            if entries[i].0 == key {
                proof {
                    lemma_find_key(s0, key@, i as int);
                }
                entries.set(i, (key, value));
                assert(options_view(entries@) =~= assoc_set(s0, key@, value));
                self.entries = entries;
                return;
            }
            i += 1;
        }
        proof {
            lemma_find_key(s0, key@, i as int);
        }
        entries.push((key, value));
        assert(options_view(entries@) =~= assoc_set(s0, key@, value));
        self.entries = entries;
    }

    /// Every setting with its value, in order.
    pub fn pairs(&self) -> (out: Vec<(String, i32)>)
        ensures
            options_view(out@) == self@,
            keys_distinct(self@),
    {
        proof {
            use_type_invariant(self);
        }
        self.clone().entries
    }

    /// The settings of `pairs`, set one after the other.
    pub fn from_pairs(pairs: Vec<(String, i32)>) -> (out: Options)
        ensures
            out@ == set_all(Seq::empty(), options_view(pairs@)),
    {
        let mut out = Options::new();
        let mut i: usize = 0;
        while i < pairs.len()
            invariant
                i <= pairs@.len(),
                out@ == set_all(Seq::empty(), options_view(pairs@).take(i as int)),
            decreases pairs@.len() - i,
        {
            let (k, v) = (pairs[i].0.clone(), pairs[i].1);
            assert(options_view(pairs@).take(i + 1).drop_last() =~= options_view(pairs@).take(
                i as int,
            ));
            out.insert(k, v);
            i += 1;
        }
        assert(options_view(pairs@).take(i as int) =~= options_view(pairs@));
        out
    }
}

/// `s` after setting each entry of `pairs` in order.
pub open spec fn set_all(s: Seq<(Seq<char>, i32)>, pairs: Seq<(Seq<char>, i32)>) -> Seq<
    (Seq<char>, i32),
>
    decreases pairs.len(),
{
    if pairs.len() == 0 {
        s
    } else {
        let last = pairs.last();
        assoc_set(set_all(s, pairs.drop_last()), last.0, last.1)
    }
}

/// The default value of every setting of a format, in registry order.
pub open spec fn spec_defaults(f: Format) -> Seq<(Seq<char>, i32)> {
    spec_specs(f).map_values(|s: OptionSpecView| (s.0, s.2))
}

/// The default settings of a format.
pub fn defaults(format: Format) -> (out: Options)
    ensures
        out@ == spec_defaults(format),
{
    let list = specs(format);
    let mut entries: Vec<(String, i32)> = Vec::new();
    let mut i: usize = 0;
    while i < list.len()
        invariant
            i <= list@.len(),
            specs_view(list@) == spec_specs(format),
            entries@.len() == i,
            options_view(entries@) == spec_defaults(format).take(i as int),
        decreases list@.len() - i,
    {
        entries.push((list[i].key.clone(), list[i].default));
        i += 1;
        assert(options_view(entries@) =~= spec_defaults(format).take(i as int));
    }
    assert(spec_defaults(format).take(i as int) =~= spec_defaults(format));
    proof {
        lemma_defaults_valid(format);
        lemma_registry(format);
        assert forall|a: int, b: int|
            #![trigger spec_defaults(format)[a], spec_defaults(format)[b]]
            0 <= a < b < spec_defaults(format).len() implies spec_defaults(format)[a].0 != spec_defaults(
                format,
            )[b].0 by {
            assert(spec_specs(format)[a].0 != spec_specs(format)[b].0);
        }
    }
    Options { entries }
}

/// Why settings or an image were refused.
#[derive(Debug)]
pub enum CodecError {
    /// Not as many settings as the registry has.
    Count,
    /// A registry setting is absent.
    Missing(String),
    /// A setting is out of its bounds.
    Range { label: String, min: i32, max: i32 },
    /// A side is empty or longer than 32,768 pixels.
    Dimensions,
    /// The image has more than 40 megapixels.
    TooLarge,
}

/// A [`CodecError`] with its text as characters.
pub enum CodecErrorView {
    Count,
    Missing(Seq<char>),
    Range(Seq<char>, i32, i32),
    Dimensions,
    TooLarge,
}

impl View for CodecError {
    type V = CodecErrorView;

    open spec fn view(&self) -> CodecErrorView {
        match self {
            CodecError::Count => CodecErrorView::Count,
            CodecError::Missing(k) => CodecErrorView::Missing(k@),
            CodecError::Range { label, min, max } => CodecErrorView::Range(label@, *min, *max),
            CodecError::Dimensions => CodecErrorView::Dimensions,
            CodecError::TooLarge => CodecErrorView::TooLarge,
        }
    }
}

/// The first registry setting, from `specs` on, that is absent or out of
/// bounds in `o`.
pub open spec fn first_invalid(specs: Seq<OptionSpecView>, o: Seq<(Seq<char>, i32)>) -> Option<
    CodecErrorView,
>
    decreases specs.len(),
{
    if specs.len() == 0 {
        None
    } else {
        let s = specs[0];
        match assoc_get(o, s.0) {
            None => Some(CodecErrorView::Missing(s.0)),
            Some(v) => if s.3 <= v <= s.4 {
                first_invalid(specs.drop_first(), o)
            } else {
                Some(CodecErrorView::Range(s.1, s.3, s.4))
            },
        }
    }
}

/// Settings are valid when there are exactly as many as in the registry
/// and every registry setting is present and within its bounds; otherwise
/// the first problem found, in registry order.
pub open spec fn spec_validate(f: Format, o: Seq<(Seq<char>, i32)>) -> Option<CodecErrorView> {
    if o.len() != spec_specs(f).len() {
        Some(CodecErrorView::Count)
    } else {
        first_invalid(spec_specs(f), o)
    }
}

/// Checks a format's settings against the registry.
pub fn validate(format: Format, options: &Options) -> (out: Result<(), CodecError>)
    ensures
        match spec_validate(format, options@) {
            None => out is Ok,
            Some(e) => out is Err && out->Err_0@ == e,
        },
{
    let list = specs(format);
    if options.len() != list.len() {
        assert(specs_view(list@).len() == list@.len());
        return Err(CodecError::Count);
    }
    let mut i: usize = 0;
    assert(spec_specs(format).skip(0) =~= spec_specs(format));
    while i < list.len()
        invariant
            i <= list@.len(),
            specs_view(list@) == spec_specs(format),
            options@.len() == spec_specs(format).len(),
            first_invalid(spec_specs(format), options@) == first_invalid(
                spec_specs(format).skip(i as int),
                options@,
            ),
        decreases list@.len() - i,
    {
        let ghost rest = spec_specs(format).skip(i as int);
        assert(rest[0] == list@[i as int]@);
        assert(rest.drop_first() =~= spec_specs(format).skip(i + 1));
        let s = &list[i];
        match options.get(s.key.as_str()) {
            None => {
                return Err(CodecError::Missing(s.key.clone()));
            },
            Some(v) => {
                if v < s.min || v > s.max {
                    return Err(
                        CodecError::Range { label: s.label.clone(), min: s.min, max: s.max },
                    );
                }
            },
        }
        i += 1;
    }
    assert(spec_specs(format).skip(i as int) =~= Seq::<OptionSpecView>::empty());
    Ok(())
}

/// The pixel limits: each side between 1 and 32,768 and at most 40
/// megapixels. Accepted dimensions give the byte size of the RGBA image.
pub open spec fn spec_checked_dimensions(w: u32, h: u32) -> Result<nat, CodecErrorView> {
    if !(w > 0 && h > 0 && w <= 32768 && h <= 32768) {
        Err(CodecErrorView::Dimensions)
    } else if w * h > 40_000_000 {
        Err(CodecErrorView::TooLarge)
    } else {
        Ok((w * h * 4) as nat)
    }
}

/// Checks image dimensions against the limits; returns the RGBA byte size.
pub fn checked_dimensions(w: u32, h: u32) -> (out: Result<usize, CodecError>)
    ensures
        match spec_checked_dimensions(w, h) {
            Ok(n) => out is Ok && out->Ok_0 == n,
            Err(e) => out is Err && out->Err_0@ == e,
        },
{
    if !(w > 0 && h > 0 && w <= 32768 && h <= 32768) {
        return Err(CodecError::Dimensions);
    }
    assert((w as u64) * (h as u64) <= 32768 * 32768) by (nonlinear_arith)
        requires
            w <= 32768,
            h <= 32768,
    ;
    let pixels: u64 = (w as u64) * (h as u64);
    if pixels > 40_000_000 {
        return Err(CodecError::TooLarge);
    }
    let p: usize = pixels as usize;
    assert(p == pixels);
    Ok(p * 4)
}

/// The text of a refusal in the catalog's language.
pub open spec fn spec_error_message(
    e: CodecErrorView,
    lang: Lang,
    entries: Seq<(Seq<char>, Seq<char>)>,
) -> Seq<char> {
    match e {
        CodecErrorView::Count => spec_t(lang, entries, "Invalid number of settings"@),
        CodecErrorView::Missing(k) => format_from(
            spec_t(lang, entries, "Missing setting: {}"@),
            seq![(None, k)],
            0,
        ),
        CodecErrorView::Range(label, min, max) => format_from(
            spec_t(lang, entries, "{} must be between {} and {}"@),
            seq![
                (None, spec_t(lang, entries, label)),
                (None, signed_decimal(min as int)),
                (None, signed_decimal(max as int)),
            ],
            0,
        ),
        CodecErrorView::Dimensions => spec_t(
            lang,
            entries,
            "Invalid dimensions (at most 32,768 per side)"@,
        ),
        CodecErrorView::TooLarge => spec_t(lang, entries, "Image too large (at most 40 megapixels)"@),
    }
}

impl CodecError {
    /// The text of the refusal in the catalog's language.
    pub fn message(&self, catalog: &Catalog) -> (out: String)
        ensures
            out@ == spec_error_message(self@, catalog.spec_lang(), catalog.spec_entries()),
    {
        match self {
            CodecError::Count => t(catalog, "Invalid number of settings").to_owned(),
            CodecError::Missing(key) => {
                let template = t(catalog, "Missing setting: {}");
                let args = [(None, key.as_str())];
                assert(crate::i18n::args_view(args@) =~= seq![(None, key@)]);
                crate::i18n::format(template, &args)
            },
            CodecError::Range { label, min, max } => {
                let template = t(catalog, "{} must be between {} and {}");
                let low = string_of(&signed_decimal_chars(*min as i64));
                let high = string_of(&signed_decimal_chars(*max as i64));
                let args = [(None, t(catalog, label.as_str())), (None, low.as_str()), (
                    None,
                    high.as_str(),
                )];
                assert(crate::i18n::args_view(args@) =~= seq![
                    (None, spec_t(catalog.spec_lang(), catalog.spec_entries(), label@)),
                    (None, signed_decimal(*min as int)),
                    (None, signed_decimal(*max as int)),
                ]);
                crate::i18n::format(template, &args)
            },
            CodecError::Dimensions => t(
                catalog,
                "Invalid dimensions (at most 32,768 per side)",
            ).to_owned(),
            CodecError::TooLarge => t(catalog, "Image too large (at most 40 megapixels)").to_owned(),
        }
    }
}

/// The messages of the native encoders that have a translation; a message
/// that starts with one of them is translated up to its end.
pub open spec fn native_messages() -> Seq<Seq<char>> {
    seq![
        "Cannot allocate the result"@,
        "Cannot allocate JPEG memory"@,
        "Cannot allocate AVIF memory"@,
        "Incompatible libwebp ABI"@,
        "Incompatible WebP ABI"@,
        "Invalid WebP settings"@,
        "Profile or image too large"@,
        "Invalid ICC profile"@,
        "Unsupported ICC profile"@,
        "HDR AVIF is not supported by the SDR pipeline"@,
        "Invalid AVIF crop"@,
        "JPEG exceeds the dimension limit"@,
        "Invalid CMYK profile"@,
        "WebP failed"@,
    ]
}

fn native_message_list() -> (out: Vec<&'static str>)
    ensures
        out@.map_values(|m: &str| m@) == native_messages(),
{
    let out = vec![
        "Cannot allocate the result",
        "Cannot allocate JPEG memory",
        "Cannot allocate AVIF memory",
        "Incompatible libwebp ABI",
        "Incompatible WebP ABI",
        "Invalid WebP settings",
        "Profile or image too large",
        "Invalid ICC profile",
        "Unsupported ICC profile",
        "HDR AVIF is not supported by the SDR pipeline",
        "Invalid AVIF crop",
        "JPEG exceeds the dimension limit",
        "Invalid CMYK profile",
        "WebP failed",
    ];
    assert(out@.map_values(|m: &str| m@) =~= native_messages());
    out
}

/// The first message of `list` that `m` starts with.
pub open spec fn first_prefix(list: Seq<Seq<char>>, m: Seq<char>) -> Option<Seq<char>>
    decreases list.len(),
{
    if list.len() == 0 {
        None
    } else if list[0].len() <= m.len() && m.take(list[0].len() as int) == list[0] {
        Some(list[0])
    } else {
        first_prefix(list.drop_first(), m)
    }
}

/// A native message in the catalog's language: the known English start is
/// translated and the rest (such as ` (code 3)`) is kept; other messages,
/// from the codec libraries themselves, stay as they are.
pub open spec fn spec_translate_native(
    lang: Lang,
    entries: Seq<(Seq<char>, Seq<char>)>,
    m: Seq<char>,
) -> Seq<char> {
    match first_prefix(native_messages(), m) {
        Some(en) => spec_t(lang, entries, en) + m.skip(en.len() as int),
        None => m,
    }
}

fn starts_with(m: &[char], p: &[char]) -> (out: bool)
    ensures
        out == (p@.len() <= m@.len() && m@.take(p@.len() as int) == p@),
{
    if p.len() > m.len() {
        return false;
    }
    let mut i: usize = 0;
    while i < p.len()
        invariant
            p@.len() <= m@.len(),
            i <= p@.len(),
            forall|j: int| 0 <= j < i ==> m@[j] == p@[j],
        decreases p@.len() - i,
    {
        if m[i] != p[i] {
            assert(m@.take(p@.len() as int)[i as int] != p@[i as int]);
            return false;
        }
        i += 1;
    }
    assert(m@.take(p@.len() as int) =~= p@);
    true
}

/// Translates a message of the native encoders.
pub fn translate_native(catalog: &Catalog, message: &str) -> (out: String)
    ensures
        out@ == spec_translate_native(catalog.spec_lang(), catalog.spec_entries(), message@),
{
    let list = native_message_list();
    let m = chars_of(message);
    let ghost all = native_messages();
    let mut i: usize = 0;
    assert(all.skip(0) =~= all);
    while i < list.len()
        invariant
            i <= list@.len(),
            all == native_messages(),
            list@.map_values(|x: &str| x@) == all,
            m@ == message@,
            first_prefix(all, m@) == first_prefix(all.skip(i as int), m@),
        decreases list@.len() - i,
    {
        assert(all.skip(i as int).drop_first() =~= all.skip(i + 1));
        assert(all.skip(i as int)[0] == list@[i as int]@);
        let p = chars_of(list[i]);
        if starts_with(&m, &p) {
            let head = t(catalog, list[i]);
            let mut out = chars_of(head);
            let mut k = p.len();
            while k < m.len()
                invariant
                    p@.len() <= k <= m@.len(),
                    out@ == spec_t(catalog.spec_lang(), catalog.spec_entries(), p@) + m@.subrange(
                        p@.len() as int,
                        k as int,
                    ),
                decreases m@.len() - k,
            {
                out.push(m[k]);
                k += 1;
                assert(m@.subrange(p@.len() as int, k as int) =~= m@.subrange(
                    p@.len() as int,
                    k - 1,
                ).push(m@[k - 1]));
            }
            assert(m@.subrange(p@.len() as int, k as int) =~= m@.skip(p@.len() as int));
            return string_of(&out);
        }
        i += 1;
    }
    assert(all.skip(i as int) =~= Seq::<Seq<char>>::empty());
    message.to_owned()
}

/// What an encoder is handed once the image and settings are accepted.
#[derive(Debug)]
pub enum EncodePlan {
    /// OxiPNG with this optimization level preset, interlaced or not.
    Png { level: u8, interlace: bool },
    /// A native encoder with the settings in registry order.
    Native { values: Vec<i32> },
}

/// The value of a setting known to be present.
pub open spec fn value_at(o: Seq<(Seq<char>, i32)>, k: Seq<char>) -> i32 {
    assoc_get(o, k)->0
}

/// Checks an image and its settings, then prepares the encoder's input:
/// the PNG level and interlacing, or every setting in registry order.
pub fn encode_plan(width: u32, height: u32, format: Format, options: &Options) -> (out: Result<
    EncodePlan,
    CodecError,
>)
    ensures
        match spec_checked_dimensions(width, height) {
            Err(e) => out is Err && out->Err_0@ == e,
            Ok(_) => match spec_validate(format, options@) {
                Some(e) => out is Err && out->Err_0@ == e,
                None => out is Ok && match out->Ok_0 {
                    EncodePlan::Png { level, interlace } => format == Format::Png && level
                        == value_at(options@, "level"@) && interlace == (value_at(
                        options@,
                        "interlace"@,
                    ) == 1),
                    EncodePlan::Native { values } => format != Format::Png && values@.len()
                        == spec_specs(format).len() && forall|i: int|
                        0 <= i < values@.len() ==> #[trigger] values@[i] == value_at(
                            options@,
                            spec_specs(format)[i].0,
                        ),
                },
            },
        },
{
    if let Err(e) = checked_dimensions(width, height) {
        return Err(e);
    }
    if let Err(e) = validate(format, options) {
        return Err(e);
    }
    let list = specs(format);
    proof {
        reveal_strlit("level");
        reveal_strlit("interlace");
    }
    if format == Format::Png {
        assert(spec_specs(format)[0].0 == "level"@);
        assert(spec_specs(format)[1].0 == "interlace"@);
        proof {
            lemma_valid_values(format, options@, 0);
            lemma_valid_values(format, options@, 1);
        }
        let level = options.get("level");
        let interlace = options.get("interlace");
        match (level, interlace) {
            (Some(l), Some(i)) => {
                return Ok(EncodePlan::Png { level: l as u8, interlace: i == 1 });
            },
            _ => {
                return Err(CodecError::Count);
            },
        }
    }
    let mut values: Vec<i32> = Vec::new();
    let mut i: usize = 0;
    while i < list.len()
        invariant
            i <= list@.len(),
            specs_view(list@) == spec_specs(format),
            spec_validate(format, options@) is None,
            values@.len() == i,
            forall|j: int|
                0 <= j < i ==> #[trigger] values@[j] == value_at(
                    options@,
                    spec_specs(format)[j].0,
                ),
        decreases list@.len() - i,
    {
        assert(list@[i as int]@ == spec_specs(format)[i as int]);
        proof {
            lemma_valid_values(format, options@, i as int);
        }
        match options.get(list[i].key.as_str()) {
            Some(v) => values.push(v),
            None => return Err(CodecError::Count),
        }
        i += 1;
    }
    Ok(EncodePlan::Native { values })
}

/// Every registry setting of valid settings is present and in bounds.
pub proof fn lemma_valid_values(f: Format, o: Seq<(Seq<char>, i32)>, i: int)
    requires
        spec_validate(f, o) is None,
        0 <= i < spec_specs(f).len(),
    ensures
        assoc_get(o, spec_specs(f)[i].0) is Some,
        spec_specs(f)[i].3 <= value_at(o, spec_specs(f)[i].0) <= spec_specs(f)[i].4,
{
    lemma_first_invalid_none(spec_specs(f), o, i);
}

proof fn lemma_first_invalid_none(specs: Seq<OptionSpecView>, o: Seq<(Seq<char>, i32)>, i: int)
    requires
        first_invalid(specs, o) is None,
        0 <= i < specs.len(),
    ensures
        assoc_get(o, specs[i].0) is Some,
        specs[i].3 <= assoc_get(o, specs[i].0)->0 <= specs[i].4,
    decreases i,
{
    if i > 0 {
        lemma_first_invalid_none(specs.drop_first(), o, i - 1);
        assert(specs.drop_first()[i - 1] == specs[i]);
    }
}

} // verus!

verus! {

/// A registry setting is well formed: its default lies within its bounds,
/// and a setting with named choices names each of its values.
pub open spec fn well_formed_setting(s: OptionSpecView) -> bool {
    &&& s.3 <= s.2 <= s.4
    &&& (s.5.len() == 0 || s.5.len() == s.4 - s.3 + 1)
}

/// Every setting of a registry is well formed and no two share a key.
pub open spec fn well_formed_registry(specs: Seq<OptionSpecView>) -> bool {
    &&& forall|i: int| 0 <= i < specs.len() ==> well_formed_setting(#[trigger] specs[i])
    &&& forall|i: int, j: int|
        #![trigger specs[i], specs[j]]
        0 <= i < j < specs.len() ==> specs[i].0 != specs[j].0
}

proof fn lemma_jpeg_registry()
    ensures
        well_formed_registry(spec_jpeg_specs()),
        spec_jpeg_specs().len() == 16,
{
    reveal_strlit("quality");
    reveal_strlit("baseline");
    reveal_strlit("arithmetic");
    reveal_strlit("progressive");
    reveal_strlit("optimize_coding");
    reveal_strlit("smoothing");
    reveal_strlit("color_space");
    reveal_strlit("quant_table");
    reveal_strlit("trellis_multipass");
    reveal_strlit("trellis_opt_zero");
    reveal_strlit("trellis_opt_table");
    reveal_strlit("trellis_loops");
    reveal_strlit("auto_subsample");
    reveal_strlit("chroma_subsample");
    reveal_strlit("separate_chroma_quality");
    reveal_strlit("chroma_quality");
    assert("auto_subsample"@[0] == 'a');
    assert("chroma_quality"@[0] == 'c');
    assert("chroma_subsample"@[0] == 'c');
    assert("color_space"@[0] == 'c');
    assert("progressive"@[0] == 'p');
    assert("quant_table"@[0] == 'q');
    assert("trellis_multipass"@[8] == 'm');
    assert("trellis_opt_table"@[8] == 'o');
    assert("trellis_opt_zero"@[0] == 't');
    assert("arithmetic"@.len() == 10);
    assert("auto_subsample"@.len() == 14);
    assert("baseline"@.len() == 8);
    assert("chroma_quality"@.len() == 14);
    assert("chroma_subsample"@.len() == 16);
    assert("color_space"@.len() == 11);
    assert("optimize_coding"@.len() == 15);
    assert("progressive"@.len() == 11);
    assert("quality"@.len() == 7);
    assert("quant_table"@.len() == 11);
    assert("separate_chroma_quality"@.len() == 23);
    assert("smoothing"@.len() == 9);
    assert("trellis_loops"@.len() == 13);
    assert("trellis_multipass"@.len() == 17);
    assert("trellis_opt_table"@.len() == 17);
    assert("trellis_opt_zero"@.len() == 16);
}

proof fn lemma_png_registry()
    ensures
        well_formed_registry(spec_png_specs()),
        spec_png_specs().len() == 2,
{
    reveal_strlit("level");
    reveal_strlit("interlace");
    assert("interlace"@.len() == 9);
    assert("level"@.len() == 5);
}

proof fn lemma_webp_registry()
    ensures
        well_formed_registry(spec_webp_specs()),
        spec_webp_specs().len() == 27,
{
    reveal_strlit("quality");
    reveal_strlit("target_size");
    reveal_strlit("target_PSNR");
    reveal_strlit("method");
    reveal_strlit("sns_strength");
    reveal_strlit("filter_strength");
    reveal_strlit("filter_sharpness");
    reveal_strlit("filter_type");
    reveal_strlit("partitions");
    reveal_strlit("segments");
    reveal_strlit("pass");
    reveal_strlit("show_compressed");
    reveal_strlit("preprocessing");
    reveal_strlit("autofilter");
    reveal_strlit("partition_limit");
    reveal_strlit("alpha_compression");
    reveal_strlit("alpha_filtering");
    reveal_strlit("alpha_quality");
    reveal_strlit("lossless");
    reveal_strlit("exact");
    reveal_strlit("image_hint");
    reveal_strlit("emulate_jpeg_size");
    reveal_strlit("thread_level");
    reveal_strlit("low_memory");
    reveal_strlit("near_lossless");
    reveal_strlit("use_delta_palette");
    reveal_strlit("use_sharp_yuv");
    assert("alpha_compression"@[0] == 'a');
    assert("alpha_filtering"@[0] == 'a');
    assert("alpha_quality"@[0] == 'a');
    assert("autofilter"@[0] == 'a');
    assert("emulate_jpeg_size"@[0] == 'e');
    assert("filter_strength"@[0] == 'f');
    assert("filter_type"@[0] == 'f');
    assert("image_hint"@[0] == 'i');
    assert("lossless"@[0] == 'l');
    assert("low_memory"@[0] == 'l');
    assert("near_lossless"@[0] == 'n');
    assert("partition_limit"@[0] == 'p');
    assert("partitions"@[0] == 'p');
    assert("preprocessing"@[0] == 'p');
    assert("segments"@[0] == 's');
    assert("show_compressed"@[0] == 's');
    assert("sns_strength"@[0] == 's');
    assert("target_PSNR"@[0] == 't');
    assert("target_PSNR"@[7] == 'P');
    assert("target_size"@[0] == 't');
    assert("target_size"@[7] == 's');
    assert("thread_level"@[0] == 't');
    assert("use_delta_palette"@[0] == 'u');
    assert("use_sharp_yuv"@[0] == 'u');
    assert("alpha_compression"@.len() == 17);
    assert("alpha_filtering"@.len() == 15);
    assert("alpha_quality"@.len() == 13);
    assert("autofilter"@.len() == 10);
    assert("emulate_jpeg_size"@.len() == 17);
    assert("exact"@.len() == 5);
    assert("filter_sharpness"@.len() == 16);
    assert("filter_strength"@.len() == 15);
    assert("filter_type"@.len() == 11);
    assert("image_hint"@.len() == 10);
    assert("lossless"@.len() == 8);
    assert("low_memory"@.len() == 10);
    assert("method"@.len() == 6);
    assert("near_lossless"@.len() == 13);
    assert("partition_limit"@.len() == 15);
    assert("partitions"@.len() == 10);
    assert("pass"@.len() == 4);
    assert("preprocessing"@.len() == 13);
    assert("quality"@.len() == 7);
    assert("segments"@.len() == 8);
    assert("show_compressed"@.len() == 15);
    assert("sns_strength"@.len() == 12);
    assert("target_PSNR"@.len() == 11);
    assert("target_size"@.len() == 11);
    assert("thread_level"@.len() == 12);
    assert("use_delta_palette"@.len() == 17);
    assert("use_sharp_yuv"@.len() == 13);
}

proof fn lemma_avif_registry()
    ensures
        well_formed_registry(spec_avif_specs()),
        spec_avif_specs().len() == 11,
{
    reveal_strlit("quality");
    reveal_strlit("qualityAlpha");
    reveal_strlit("denoiseLevel");
    reveal_strlit("tileColsLog2");
    reveal_strlit("tileRowsLog2");
    reveal_strlit("speed");
    reveal_strlit("subsample");
    reveal_strlit("chromaDeltaQ");
    reveal_strlit("sharpness");
    reveal_strlit("tune");
    reveal_strlit("enableSharpYUV");
    assert("chromaDeltaQ"@[0] == 'c');
    assert("denoiseLevel"@[0] == 'd');
    assert("qualityAlpha"@[0] == 'q');
    assert("sharpness"@[1] == 'h');
    assert("subsample"@[1] == 'u');
    assert("tileColsLog2"@[0] == 't');
    assert("tileColsLog2"@[4] == 'C');
    assert("tileRowsLog2"@[0] == 't');
    assert("tileRowsLog2"@[4] == 'R');
    assert("chromaDeltaQ"@.len() == 12);
    assert("denoiseLevel"@.len() == 12);
    assert("enableSharpYUV"@.len() == 14);
    assert("quality"@.len() == 7);
    assert("qualityAlpha"@.len() == 12);
    assert("sharpness"@.len() == 9);
    assert("speed"@.len() == 5);
    assert("subsample"@.len() == 9);
    assert("tileColsLog2"@.len() == 12);
    assert("tileRowsLog2"@.len() == 12);
    assert("tune"@.len() == 4);
}

/// The registry of every format is well formed: each default lies within
/// its bounds, named choices name each value, and no two settings of a
/// format share a key. JPEG has 16 settings, quality first, PNG 2, WebP 27
/// and AVIF 11.
pub proof fn lemma_registry(f: Format)
    ensures
        well_formed_registry(spec_specs(f)),
        spec_specs(Format::Jpeg).len() == 16,
        spec_specs(Format::Png).len() == 2,
        spec_specs(Format::Webp).len() == 27,
        spec_specs(Format::Avif).len() == 11,
        spec_specs(Format::Jpeg)[0].0 == "quality"@,
{
    lemma_jpeg_registry();
    lemma_png_registry();
    lemma_webp_registry();
    lemma_avif_registry();
    reveal_strlit("quality");
}

proof fn lemma_default_lookup(specs: Seq<OptionSpecView>, i: int)
    requires
        well_formed_registry(specs),
        0 <= i < specs.len(),
    ensures
        assoc_get(specs.map_values(|s: OptionSpecView| (s.0, s.2)), specs[i].0) == Some(specs[i].2),
{
    let d = specs.map_values(|s: OptionSpecView| (s.0, s.2));
    assert forall|j: int| 0 <= j < i implies (#[trigger] d[j]).0 != specs[i].0 by {
        assert(specs[j].0 != specs[i].0);
    }
    lemma_find_key(d, specs[i].0, i);
}

proof fn lemma_all_valid_first_invalid(specs: Seq<OptionSpecView>, o: Seq<(Seq<char>, i32)>)
    requires
        forall|i: int|
            0 <= i < specs.len() ==> (#[trigger] assoc_get(o, specs[i].0) matches Some(v) && specs[i].3
                <= v <= specs[i].4),
    ensures
        first_invalid(specs, o) is None,
    decreases specs.len(),
{
    if specs.len() > 0 {
        let rest = specs.drop_first();
        assert forall|i: int| 0 <= i < rest.len() implies (#[trigger] assoc_get(o, rest[i].0) matches Some(
            v,
        ) && rest[i].3 <= v <= rest[i].4) by {
            assert(rest[i] == specs[i + 1]);
            assert(assoc_get(o, specs[i + 1].0) matches Some(v) && specs[i + 1].3 <= v <= specs[i + 1].4);
        }
        lemma_all_valid_first_invalid(rest, o);
        assert(assoc_get(o, specs[0].0) matches Some(v) && specs[0].3 <= v <= specs[0].4);
    }
}

/// The default settings of every format pass validation: there is one per
/// registry setting, and each setting reads its own default.
pub proof fn lemma_defaults_valid(f: Format)
    ensures
        spec_validate(f, spec_defaults(f)) is None,
        spec_defaults(f).len() == spec_specs(f).len(),
        forall|i: int|
            0 <= i < spec_specs(f).len() ==> assoc_get(spec_defaults(f), (#[trigger] spec_specs(f)[i]).0)
                == Some(spec_specs(f)[i].2),
{
    lemma_registry(f);
    let specs = spec_specs(f);
    let d = spec_defaults(f);
    assert forall|i: int| 0 <= i < specs.len() implies assoc_get(d, (#[trigger] specs[i]).0) == Some(
        specs[i].2,
    ) by {
        lemma_default_lookup(specs, i);
    }
    assert forall|i: int| 0 <= i < specs.len() implies (#[trigger] assoc_get(d, specs[i].0) matches Some(v)
        && specs[i].3 <= v <= specs[i].4) by {
        lemma_default_lookup(specs, i);
        assert(well_formed_setting(specs[i]));
    }
    lemma_all_valid_first_invalid(specs, d);
}

} // verus!
