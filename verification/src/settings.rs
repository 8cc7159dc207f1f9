//! The settings of the two sides of the comparison, their validation, and
//! per-image exceptions to the common settings.
use crate::codecs::{
    defaults, spec_defaults, spec_key, spec_validate, validate, CodecError, CodecErrorView, Format,
    Options,
};
use crate::text::{
    append_chars, assoc_get, assoc_set, chars_of, decimal, decimal_chars, keys_distinct,
    lemma_assoc_set_distinct, lemma_find_key, string_of,
};
use vstd::prelude::*;

verus! {

/// A resize method.
#[derive(Debug, Clone, Copy, PartialEq, Eq, Hash, Structural)]
pub enum Filter {
    Triangle,
    Catrom,
    Mitchell,
    Lanczos3,
    Hqx,
    Pixelated,
    BrowserLow,
    BrowserMedium,
    BrowserHigh,
    Vector,
}

/// The resize method that an image gets when it is selected: the vector
/// renderer for an SVG source; for any other source, Lanczos3 in place of
/// the vector renderer and the current method otherwise.
pub fn filter_for_source(current: Filter, svg: bool) -> (out: Filter)
    ensures
        out == if svg {
            Filter::Vector
        } else if current == Filter::Vector {
            Filter::Lanczos3
        } else {
            current
        },
{
    if svg {
        Filter::Vector
    } else if current == Filter::Vector {
        Filter::Lanczos3
    } else {
        current
    }
}

/// The label of a resize method in the method picker.
pub open spec fn spec_filter_label(f: Filter) -> Seq<char> {
    match f {
        Filter::Triangle => "Triangle"@,
        Filter::Catrom => "Catmull-Rom"@,
        Filter::Mitchell => "Mitchell"@,
        Filter::Lanczos3 => "Lanczos3"@,
        Filter::Hqx => "HQX"@,
        Filter::Pixelated => "Pixelated (voisin)"@,
        Filter::BrowserLow => "Navigateur faible (triangle)"@,
        Filter::BrowserMedium => "Navigateur moyen (bicubique)"@,
        Filter::BrowserHigh => "Navigateur élevé (Lanczos3)"@,
        Filter::Vector => "Vectoriel (SVG)"@,
    }
}

impl Filter {
    /// Every method, in the order of the method picker.
    pub fn all() -> (out: [Filter; 10])
        ensures
            out@ == seq![
                Filter::Triangle,
                Filter::Catrom,
                Filter::Mitchell,
                Filter::Lanczos3,
                Filter::Hqx,
                Filter::Pixelated,
                Filter::BrowserLow,
                Filter::BrowserMedium,
                Filter::BrowserHigh,
                Filter::Vector,
            ],
    {
        let out = [
            Filter::Triangle,
            Filter::Catrom,
            Filter::Mitchell,
            Filter::Lanczos3,
            Filter::Hqx,
            Filter::Pixelated,
            Filter::BrowserLow,
            Filter::BrowserMedium,
            Filter::BrowserHigh,
            Filter::Vector,
        ];
        assert(out@ =~= seq![
            Filter::Triangle,
            Filter::Catrom,
            Filter::Mitchell,
            Filter::Lanczos3,
            Filter::Hqx,
            Filter::Pixelated,
            Filter::BrowserLow,
            Filter::BrowserMedium,
            Filter::BrowserHigh,
            Filter::Vector,
        ]);
        out
    }

    /// The label of the method in the method picker.
    pub fn label(self) -> (out: &'static str)
        ensures
            out@ == spec_filter_label(self),
    {
        match self {
            Filter::Triangle => "Triangle",
            Filter::Catrom => "Catmull-Rom",
            Filter::Mitchell => "Mitchell",
            Filter::Lanczos3 => "Lanczos3",
            Filter::Hqx => "HQX",
            Filter::Pixelated => "Pixelated (voisin)",
            Filter::BrowserLow => "Navigateur faible (triangle)",
            Filter::BrowserMedium => "Navigateur moyen (bicubique)",
            Filter::BrowserHigh => "Navigateur élevé (Lanczos3)",
            Filter::Vector => "Vectoriel (SVG)",
        }
    }
}

/// The resize step of a side.
#[derive(Debug, Clone, Copy, PartialEq, Eq, Structural)]
pub struct Resize {
    pub enabled: bool,
    pub width: u32,
    pub height: u32,
    pub lock_ratio: bool,
    pub crop: bool,
    pub filter: Filter,
    pub premultiply: bool,
    pub linear_rgb: bool,
}

/// No resize; when enabled, Lanczos3 with a locked ratio, premultiplied
/// alpha and linear RGB.
pub open spec fn default_resize() -> Resize {
    Resize {
        enabled: false,
        width: 0,
        height: 0,
        lock_ratio: true,
        crop: false,
        filter: Filter::Lanczos3,
        premultiply: true,
        linear_rgb: true,
    }
}

impl Default for Resize {
    fn default() -> (out: Resize)
        ensures
            out == default_resize(),
    {
        Resize {
            enabled: false,
            width: 0,
            height: 0,
            lock_ratio: true,
            crop: false,
            filter: Filter::Lanczos3,
            premultiply: true,
            linear_rgb: true,
        }
    }
}

/// The IEEE 754 bits of the `f32` 1.0.
pub const ONE_BITS: u32 = 0x3F80_0000u32;

/// The palette reduction step of a side. `dither` holds the IEEE 754 bits
/// of the dithering level, a float between 0 and 1.
#[derive(Debug, Clone, Copy, PartialEq, Eq, Structural)]
pub struct Palette {
    pub enabled: bool,
    pub colors: u32,
    pub dither: u32,
    pub zx: bool,
}

/// No reduction; when enabled, 256 colors with full dithering.
pub open spec fn default_palette() -> Palette {
    Palette { enabled: false, colors: 256, dither: ONE_BITS, zx: false }
}

impl Default for Palette {
    fn default() -> (out: Palette)
        ensures
            out == default_palette(),
    {
        Palette { enabled: false, colors: 256, dither: ONE_BITS, zx: false }
    }
}

/// Whether the float with IEEE 754 bits `b` is finite and between 0 and 1:
/// the bits of +0.0 up to those of 1.0 (positive floats order like their
/// bits), and -0.0.
pub open spec fn valid_dither(b: u32) -> bool {
    b == 0x8000_0000u32 || b <= ONE_BITS
}

/// The settings of every format of a side, by format key.
#[derive(Debug)]
pub struct OptionSets {
    entries: Vec<(String, Options)>,
}

/// The characters of each key, with the settings of that format.
pub open spec fn sets_view(v: Seq<(String, Options)>) -> Seq<(Seq<char>, Seq<(Seq<char>, i32)>)> {
    v.map_values(|e: (String, Options)| (e.0@, e.1@))
}

impl OptionSets {
    /// No format occurs twice.
    #[verifier::type_invariant]
    spec fn formats_unique(self) -> bool {
        keys_distinct(sets_view(self.entries@))
    }
}

impl View for OptionSets {
    type V = Seq<(Seq<char>, Seq<(Seq<char>, i32)>)>;

    closed spec fn view(&self) -> Seq<(Seq<char>, Seq<(Seq<char>, i32)>)> {
        sets_view(self.entries@)
    }
}

impl Clone for OptionSets {
    fn clone(&self) -> (out: OptionSets)
        ensures
            out@ == self@,
    {
        proof {
            use_type_invariant(self);
        }
        let mut entries: Vec<(String, Options)> = Vec::new();
        let mut i: usize = 0;
        while i < self.entries.len()
            invariant
                i <= self.entries@.len(),
                entries@.len() == i,
                sets_view(entries@) == sets_view(self.entries@).take(i as int),
            decreases self.entries@.len() - i,
        {
            let k = self.entries[i].0.clone();
            let o = self.entries[i].1.clone();
            entries.push((k, o));
            i += 1;
            assert(sets_view(entries@) =~= sets_view(self.entries@).take(i as int));
        }
        assert(sets_view(self.entries@).take(i as int) =~= sets_view(self.entries@));
        OptionSets { entries }
    }
}

impl OptionSets {
    /// No format.
    pub fn new() -> (out: OptionSets)
        ensures
            out@ == Seq::<(Seq<char>, Seq<(Seq<char>, i32)>)>::empty(),
    {
        let out = OptionSets { entries: Vec::new() };
        assert(out@ =~= Seq::<(Seq<char>, Seq<(Seq<char>, i32)>)>::empty());
        out
    }

    /// The number of formats; no format occurs twice.
    pub fn len(&self) -> (out: usize)
        ensures
            out == self@.len(),
            keys_distinct(self@),
    {
        proof {
            use_type_invariant(self);
        }
        self.entries.len()
    }

    fn position(&self, key: &str) -> (out: usize)
        ensures
            out == crate::text::find_key(self@, key@),
            out <= self@.len(),
    {
        let k = key.to_owned();
        let mut i: usize = 0;
        while i < self.entries.len()
            invariant
                i <= self.entries@.len(),
                k@ == key@,
                forall|j: int| 0 <= j < i ==> (#[trigger] self@[j]).0 != key@,
            decreases self.entries@.len() - i,
        {
            assert(self@[i as int] == (self.entries@[i as int].0@, self.entries@[i as int].1@));
            if self.entries[i].0 == k {
                proof {
                    lemma_find_key(self@, key@, i as int);
                }
                return i;
            }
            i += 1;
        }
        proof {
            lemma_find_key(self@, key@, i as int);
        }
        i
    }

    /// The settings of the format with registry key `key`.
    pub fn get(&self, key: &str) -> (out: Option<&Options>)
        ensures
            match assoc_get(self@, key@) {
                Some(o) => out is Some && out->0@ == o,
                None => out is None,
            },
    {
        let i = self.position(key);
        if i < self.entries.len() {
            assert(self@[i as int].1 == self.entries@[i as int].1@);
            Some(&self.entries[i].1)
        } else {
            None
        }
    }

    /// Sets the settings of format `key`, in place when it is already there.
    pub fn insert(&mut self, key: String, options: Options)
        ensures
            final(self)@ == assoc_set(old(self)@, key@, options@),
    {
        proof {
            use_type_invariant(&*self);
            lemma_assoc_set_distinct(self@, key@, options@);
        }
        let i = self.position(key.as_str());
        let ghost o = options@;
        let mut entries: Vec<(String, Options)> = Vec::new();
        std::mem::swap(&mut entries, &mut self.entries);
        if i < entries.len() {
            entries.set(i, (key, options));
        } else {
            entries.push((key, options));
        }
        assert(sets_view(entries@) =~= assoc_set(old(self)@, key@, o));
        self.entries = entries;
    }

    /// Sets setting `option` of format `key` to `value`; `false`, with
    /// nothing changed, when the format is not there.
    pub fn set_option(&mut self, key: &str, option: String, value: i32) -> (out: bool)
        ensures
            out == (assoc_get(old(self)@, key@) is Some),
            out ==> final(self)@ == assoc_set(
                old(self)@,
                key@,
                assoc_set(assoc_get(old(self)@, key@)->0, option@, value),
            ),
            !out ==> final(self)@ == old(self)@,
    {
        let i = self.position(key);
        if i >= self.entries.len() {
            return false;
        }
        proof {
            crate::text::lemma_find_key_bound(self@, key@);
        }
        assert(self@[i as int] == (self.entries@[i as int].0@, self.entries@[i as int].1@));
        let mut options = self.entries[i].1.clone();
        options.insert(option, value);
        let k = self.entries[i].0.clone();
        assert(k@ == key@);
        self.insert(k, options);
        true
    }

    /// Every format with its settings, in order.
    pub fn pairs(&self) -> (out: Vec<(String, Options)>)
        ensures
            sets_view(out@) == self@,
            keys_distinct(self@),
    {
        proof {
            use_type_invariant(self);
        }
        self.clone().entries
    }
}

/// The default settings of every format, by key.
pub open spec fn default_sets() -> Seq<(Seq<char>, Seq<(Seq<char>, i32)>)> {
    seq![
        (spec_key(Format::Jpeg), spec_defaults(Format::Jpeg)),
        (spec_key(Format::Png), spec_defaults(Format::Png)),
        (spec_key(Format::Webp), spec_defaults(Format::Webp)),
        (spec_key(Format::Avif), spec_defaults(Format::Avif)),
    ]
}

fn default_option_sets() -> (out: OptionSets)
    ensures
        out@ == default_sets(),
{
    let mut entries: Vec<(String, Options)> = Vec::new();
    entries.push((Format::Jpeg.key().to_owned(), defaults(Format::Jpeg)));
    entries.push((Format::Png.key().to_owned(), defaults(Format::Png)));
    entries.push((Format::Webp.key().to_owned(), defaults(Format::Webp)));
    entries.push((Format::Avif.key().to_owned(), defaults(Format::Avif)));
    proof {
        reveal_strlit("jpeg");
        reveal_strlit("png");
        reveal_strlit("webp");
        reveal_strlit("avif");
        assert("jpeg"@[0] == 'j' && "webp"@[0] == 'w' && "avif"@[0] == 'a');
        assert("png"@.len() == 3 && "jpeg"@.len() == 4 && "webp"@.len() == 4 && "avif"@.len() == 4);
        assert(sets_view(entries@) =~= default_sets());
        assert(keys_distinct(default_sets()));
    }
    let out = OptionSets { entries };
    assert(out@ =~= default_sets());
    out
}

/// One side of the comparison: the output format (`None` shows the
/// original), the settings of every format, the edits and the background
/// that replaces transparency in JPEG.
#[derive(Debug)]
pub struct Side {
    pub format: Option<Format>,
    pub options: OptionSets,
    pub resize: Resize,
    pub palette: Palette,
    pub background: [u8; 3],
}

/// A [`Side`] as values.
pub struct SideView {
    pub format: Option<Format>,
    pub options: Seq<(Seq<char>, Seq<(Seq<char>, i32)>)>,
    pub resize: Resize,
    pub palette: Palette,
    pub background: Seq<u8>,
}

impl View for Side {
    type V = SideView;

    open spec fn view(&self) -> SideView {
        SideView {
            format: self.format,
            options: self.options@,
            resize: self.resize,
            palette: self.palette,
            background: self.background@,
        }
    }
}

impl Clone for Side {
    fn clone(&self) -> (out: Side)
        ensures
            out@ == self@,
    {
        Side {
            format: self.format,
            options: self.options.clone(),
            resize: self.resize,
            palette: self.palette,
            background: self.background,
        }
    }
}

/// JPEG output with every format at its defaults, no edits and a white
/// background.
pub open spec fn default_side() -> SideView {
    SideView {
        format: Some(Format::Jpeg),
        options: default_sets(),
        resize: default_resize(),
        palette: default_palette(),
        background: seq![255u8, 255u8, 255u8],
    }
}

impl Default for Side {
    fn default() -> (out: Side)
        ensures
            out@ == default_side(),
    {
        let out = Side {
            format: Some(Format::Jpeg),
            options: default_option_sets(),
            resize: Resize::default(),
            palette: Palette::default(),
            background: [255u8; 3],
        };
        assert(out@.background =~= seq![255u8, 255u8, 255u8]);
        out
    }
}

/// The settings of a comparison: the rotation shared by both sides, the
/// two sides, and the side that is exported.
#[derive(Debug)]
pub struct Settings {
    pub rotation: u16,
    pub sides: [Side; 2],
    pub export_side: usize,
}

/// [`Settings`] as values.
pub struct SettingsView {
    pub rotation: u16,
    pub sides: Seq<SideView>,
    pub export_side: usize,
}

impl View for Settings {
    type V = SettingsView;

    open spec fn view(&self) -> SettingsView {
        SettingsView {
            rotation: self.rotation,
            sides: self.sides@.map_values(|s: Side| s@),
            export_side: self.export_side,
        }
    }
}

impl Clone for Settings {
    fn clone(&self) -> (out: Settings)
        ensures
            out@ == self@,
    {
        let out = Settings {
            rotation: self.rotation,
            sides: [self.sides[0].clone(), self.sides[1].clone()],
            export_side: self.export_side,
        };
        assert(out@.sides =~= self@.sides);
        out
    }
}

/// No rotation; the original on the left, AVIF on the right, the right
/// side exported.
pub open spec fn default_settings() -> SettingsView {
    SettingsView {
        rotation: 0,
        sides: seq![
            SideView { format: None, ..default_side() },
            SideView { format: Some(Format::Avif), ..default_side() },
        ],
        export_side: 1,
    }
}

impl Default for Settings {
    fn default() -> (out: Settings)
        ensures
            out@ == default_settings(),
    {
        let mut left = Side::default();
        left.format = None;
        let mut right = Side::default();
        right.format = Some(Format::Avif);
        let out = Settings { rotation: 0, sides: [left, right], export_side: 1 };
        assert(out@.sides =~= default_settings().sides);
        out
    }
}

/// Why settings were refused.
#[derive(Debug)]
pub enum SettingsError {
    /// The rotation is not 0, 90, 180 or 270 degrees.
    Rotation,
    /// The exported side is neither 0 nor 1.
    Side,
    /// A resize dimension is larger than 32,768 pixels.
    Dimensions,
    /// A palette has fewer than 2 or more than 256 colors.
    Colors,
    /// A dithering level is not a number between 0 and 1.
    Dither,
    /// A side lacks the settings of a format.
    MissingOptions,
    /// The settings of a format are refused.
    Codec(CodecError),
    /// An exception names a setting that the settings do not have.
    UnknownSetting(String),
}

/// A [`SettingsError`] with its text as characters.
pub enum SettingsErrorView {
    Rotation,
    Side,
    Dimensions,
    Colors,
    Dither,
    MissingOptions,
    Codec(CodecErrorView),
    UnknownSetting(Seq<char>),
}

impl View for SettingsError {
    type V = SettingsErrorView;

    open spec fn view(&self) -> SettingsErrorView {
        match self {
            SettingsError::Rotation => SettingsErrorView::Rotation,
            SettingsError::Side => SettingsErrorView::Side,
            SettingsError::Dimensions => SettingsErrorView::Dimensions,
            SettingsError::Colors => SettingsErrorView::Colors,
            SettingsError::Dither => SettingsErrorView::Dither,
            SettingsError::MissingOptions => SettingsErrorView::MissingOptions,
            SettingsError::Codec(e) => SettingsErrorView::Codec(e@),
            SettingsError::UnknownSetting(p) => SettingsErrorView::UnknownSetting(p@),
        }
    }
}

/// The text of a refusal of settings: a fixed sentence for each problem,
/// the codec's own text for refused format settings, and the JSON pointer
/// of an unknown exception.
pub open spec fn spec_settings_message(
    e: SettingsErrorView,
    lang: crate::i18n::Lang,
    entries: Seq<(Seq<char>, Seq<char>)>,
) -> Seq<char> {
    match e {
        SettingsErrorView::Rotation => "Rotation invalide"@,
        SettingsErrorView::Side => "Côté invalide"@,
        SettingsErrorView::Dimensions => "Dimensions trop grandes"@,
        SettingsErrorView::Colors => "Palette : 2 à 256 couleurs"@,
        SettingsErrorView::Dither => "Tramage invalide"@,
        SettingsErrorView::MissingOptions => "Réglages absents"@,
        SettingsErrorView::Codec(c) => crate::codecs::spec_error_message(c, lang, entries),
        SettingsErrorView::UnknownSetting(p) => "Réglage inconnu : "@ + p,
    }
}

impl SettingsError {
    /// The text of the refusal; see [`spec_settings_message`].
    pub fn message(&self, catalog: &crate::i18n::Catalog) -> (out: String)
        ensures
            out@ == spec_settings_message(self@, catalog.spec_lang(), catalog.spec_entries()),
    {
        match self {
            SettingsError::Rotation => "Rotation invalide".to_owned(),
            SettingsError::Side => "Côté invalide".to_owned(),
            SettingsError::Dimensions => "Dimensions trop grandes".to_owned(),
            SettingsError::Colors => "Palette : 2 à 256 couleurs".to_owned(),
            SettingsError::Dither => "Tramage invalide".to_owned(),
            SettingsError::MissingOptions => "Réglages absents".to_owned(),
            SettingsError::Codec(c) => c.message(catalog),
            SettingsError::UnknownSetting(p) => {
                let mut text = chars_of("Réglage inconnu : ");
                let tail = chars_of(p.as_str());
                append_chars(&mut text, &tail);
                string_of(&text)
            },
        }
    }
}

/// The formats, in registry order.
pub open spec fn all_formats() -> Seq<Format> {
    seq![Format::Jpeg, Format::Png, Format::Webp, Format::Avif]
}

/// The first problem with the settings of the formats `fs` of a side.
pub open spec fn formats_problem(
    sets: Seq<(Seq<char>, Seq<(Seq<char>, i32)>)>,
    fs: Seq<Format>,
) -> Option<SettingsErrorView>
    decreases fs.len(),
{
    if fs.len() == 0 {
        None
    } else {
        match assoc_get(sets, spec_key(fs[0])) {
            None => Some(SettingsErrorView::MissingOptions),
            Some(o) => match spec_validate(fs[0], o) {
                Some(e) => Some(SettingsErrorView::Codec(e)),
                None => formats_problem(sets, fs.drop_first()),
            },
        }
    }
}

/// The first problem with one side: resize dimensions, palette size,
/// dithering level, then the settings of each format in registry order.
pub open spec fn side_problem(s: SideView) -> Option<SettingsErrorView> {
    if !(s.resize.width <= 32768 && s.resize.height <= 32768) {
        Some(SettingsErrorView::Dimensions)
    } else if !(2 <= s.palette.colors <= 256) {
        Some(SettingsErrorView::Colors)
    } else if !valid_dither(s.palette.dither) {
        Some(SettingsErrorView::Dither)
    } else {
        formats_problem(s.options, all_formats())
    }
}

/// The first problem with settings, if any: the rotation, the exported
/// side, then each side in order.
pub open spec fn settings_problem(s: SettingsView) -> Option<SettingsErrorView> {
    if !(s.rotation == 0 || s.rotation == 90 || s.rotation == 180 || s.rotation == 270) {
        Some(SettingsErrorView::Rotation)
    } else if !(s.export_side < 2) {
        Some(SettingsErrorView::Side)
    } else if side_problem(s.sides[0]) is Some {
        side_problem(s.sides[0])
    } else {
        side_problem(s.sides[1])
    }
}

fn check_side(s: &Side) -> (out: Result<(), SettingsError>)
    ensures
        match side_problem(s@) {
            None => out is Ok,
            Some(e) => out is Err && out->Err_0@ == e,
        },
{
    if !(s.resize.width <= 32768 && s.resize.height <= 32768) {
        return Err(SettingsError::Dimensions);
    }
    if !(2 <= s.palette.colors && s.palette.colors <= 256) {
        return Err(SettingsError::Colors);
    }
    if !(s.palette.dither == 0x8000_0000u32 || s.palette.dither <= ONE_BITS) {
        return Err(SettingsError::Dither);
    }
    let formats = Format::all();
    let mut i: usize = 0;
    assert(all_formats().skip(0) =~= all_formats());
    while i < 4
        invariant
            i <= 4,
            formats@ == all_formats(),
            side_problem(s@) == formats_problem(s@.options, all_formats().skip(i as int)),
        decreases 4 - i,
    {
        let f = formats[i];
        assert(all_formats().skip(i as int)[0] == f);
        assert(all_formats().skip(i as int).drop_first() =~= all_formats().skip(i + 1));
        match s.options.get(f.key()) {
            None => return Err(SettingsError::MissingOptions),
            Some(o) => match validate(f, o) {
                Err(e) => return Err(SettingsError::Codec(e)),
                Ok(()) => {},
            },
        }
        i += 1;
    }
    assert(all_formats().skip(4) =~= Seq::<Format>::empty());
    Ok(())
}

impl Settings {
    /// Checks the settings: rotation, exported side, then each side.
    pub fn validate(&self) -> (out: Result<(), SettingsError>)
        ensures
            match settings_problem(self@) {
                None => out is Ok,
                Some(e) => out is Err && out->Err_0@ == e,
            },
    {
        if !(self.rotation == 0 || self.rotation == 90 || self.rotation == 180 || self.rotation
            == 270) {
            return Err(SettingsError::Rotation);
        }
        if !(self.export_side < 2) {
            return Err(SettingsError::Side);
        }
        check_side(&self.sides[0])?;
        check_side(&self.sides[1])
    }
}

/// A single setting of [`Settings`], named like its JSON pointer: the
/// rotation, the exported side, a field of side `i` (and channel `c` of its
/// background), the settings of format `k` of side `i`, or setting `key` of
/// that format.
#[derive(Debug)]
pub enum Field {
    Rotation,
    ExportSide,
    Format(usize),
    ResizeEnabled(usize),
    Width(usize),
    Height(usize),
    LockRatio(usize),
    Crop(usize),
    Filter(usize),
    Premultiply(usize),
    LinearRgb(usize),
    PaletteEnabled(usize),
    Colors(usize),
    Dither(usize),
    Zx(usize),
    Background(usize, usize),
    OptionSet(usize, String),
    OptionValue(usize, String, String),
}

/// A [`Field`] with its keys as characters.
pub enum FieldView {
    Rotation,
    ExportSide,
    Format(usize),
    ResizeEnabled(usize),
    Width(usize),
    Height(usize),
    LockRatio(usize),
    Crop(usize),
    Filter(usize),
    Premultiply(usize),
    LinearRgb(usize),
    PaletteEnabled(usize),
    Colors(usize),
    Dither(usize),
    Zx(usize),
    Background(usize, usize),
    OptionSet(usize, Seq<char>),
    OptionValue(usize, Seq<char>, Seq<char>),
}

impl View for Field {
    type V = FieldView;

    open spec fn view(&self) -> FieldView {
        match self {
            Field::Rotation => FieldView::Rotation,
            Field::ExportSide => FieldView::ExportSide,
            Field::Format(i) => FieldView::Format(*i),
            Field::ResizeEnabled(i) => FieldView::ResizeEnabled(*i),
            Field::Width(i) => FieldView::Width(*i),
            Field::Height(i) => FieldView::Height(*i),
            Field::LockRatio(i) => FieldView::LockRatio(*i),
            Field::Crop(i) => FieldView::Crop(*i),
            Field::Filter(i) => FieldView::Filter(*i),
            Field::Premultiply(i) => FieldView::Premultiply(*i),
            Field::LinearRgb(i) => FieldView::LinearRgb(*i),
            Field::PaletteEnabled(i) => FieldView::PaletteEnabled(*i),
            Field::Colors(i) => FieldView::Colors(*i),
            Field::Dither(i) => FieldView::Dither(*i),
            Field::Zx(i) => FieldView::Zx(*i),
            Field::Background(i, c) => FieldView::Background(*i, *c),
            Field::OptionSet(i, k) => FieldView::OptionSet(*i, k@),
            Field::OptionValue(i, k, key) => FieldView::OptionValue(*i, k@, key@),
        }
    }
}

/// The value of a [`Field`].
#[derive(Debug)]
pub enum Value {
    Bool(bool),
    U16(u16),
    U32(u32),
    Index(usize),
    U8(u8),
    Format(Option<Format>),
    Filter(Filter),
    Dither(u32),
    Int(i32),
    Options(Options),
}

/// A [`Value`] with settings as values.
pub enum ValueView {
    Bool(bool),
    U16(u16),
    U32(u32),
    Index(usize),
    U8(u8),
    Format(Option<Format>),
    Filter(Filter),
    Dither(u32),
    Int(i32),
    Options(Seq<(Seq<char>, i32)>),
}

impl View for Value {
    type V = ValueView;

    open spec fn view(&self) -> ValueView {
        match self {
            Value::Bool(b) => ValueView::Bool(*b),
            Value::U16(v) => ValueView::U16(*v),
            Value::U32(v) => ValueView::U32(*v),
            Value::Index(v) => ValueView::Index(*v),
            Value::U8(v) => ValueView::U8(*v),
            Value::Format(f) => ValueView::Format(*f),
            Value::Filter(f) => ValueView::Filter(*f),
            Value::Dither(d) => ValueView::Dither(*d),
            Value::Int(v) => ValueView::Int(*v),
            Value::Options(o) => ValueView::Options(o@),
        }
    }
}

/// Side `i` of settings, when there is one.
pub open spec fn side_of(s: SettingsView, i: usize) -> Option<SideView> {
    if i < 2 && i < s.sides.len() {
        Some(s.sides[i as int])
    } else {
        None
    }
}

/// The side that a field belongs to; `None` for the rotation and the
/// exported side.
pub open spec fn field_side(f: FieldView) -> Option<usize> {
    match f {
        FieldView::Rotation => None,
        FieldView::ExportSide => None,
        FieldView::Format(i) => Some(i),
        FieldView::ResizeEnabled(i) => Some(i),
        FieldView::Width(i) => Some(i),
        FieldView::Height(i) => Some(i),
        FieldView::LockRatio(i) => Some(i),
        FieldView::Crop(i) => Some(i),
        FieldView::Filter(i) => Some(i),
        FieldView::Premultiply(i) => Some(i),
        FieldView::LinearRgb(i) => Some(i),
        FieldView::PaletteEnabled(i) => Some(i),
        FieldView::Colors(i) => Some(i),
        FieldView::Dither(i) => Some(i),
        FieldView::Zx(i) => Some(i),
        FieldView::Background(i, _) => Some(i),
        FieldView::OptionSet(i, _) => Some(i),
        FieldView::OptionValue(i, _, _) => Some(i),
    }
}

/// The value of a field of a side, `None` when the side has no such field.
pub open spec fn get_in_side(d: SideView, f: FieldView) -> Option<ValueView> {
    match f {
        FieldView::Format(_) => Some(ValueView::Format(d.format)),
        FieldView::ResizeEnabled(_) => Some(ValueView::Bool(d.resize.enabled)),
        FieldView::Width(_) => Some(ValueView::U32(d.resize.width)),
        FieldView::Height(_) => Some(ValueView::U32(d.resize.height)),
        FieldView::LockRatio(_) => Some(ValueView::Bool(d.resize.lock_ratio)),
        FieldView::Crop(_) => Some(ValueView::Bool(d.resize.crop)),
        FieldView::Filter(_) => Some(ValueView::Filter(d.resize.filter)),
        FieldView::Premultiply(_) => Some(ValueView::Bool(d.resize.premultiply)),
        FieldView::LinearRgb(_) => Some(ValueView::Bool(d.resize.linear_rgb)),
        FieldView::PaletteEnabled(_) => Some(ValueView::Bool(d.palette.enabled)),
        FieldView::Colors(_) => Some(ValueView::U32(d.palette.colors)),
        FieldView::Dither(_) => Some(ValueView::Dither(d.palette.dither)),
        FieldView::Zx(_) => Some(ValueView::Bool(d.palette.zx)),
        FieldView::Background(_, c) => if c < 3 && c < d.background.len() {
            Some(ValueView::U8(d.background[c as int]))
        } else {
            None
        },
        FieldView::OptionSet(_, k) => match assoc_get(d.options, k) {
            Some(o) => Some(ValueView::Options(o)),
            None => None,
        },
        FieldView::OptionValue(_, k, key) => match assoc_get(d.options, k) {
            Some(o) => match assoc_get(o, key) {
                Some(v) => Some(ValueView::Int(v)),
                None => None,
            },
            None => None,
        },
        _ => None,
    }
}

/// The value of a field, `None` when the settings have no such field.
pub open spec fn get_field(s: SettingsView, f: FieldView) -> Option<ValueView> {
    match f {
        FieldView::Rotation => Some(ValueView::U16(s.rotation)),
        FieldView::ExportSide => Some(ValueView::Index(s.export_side)),
        _ => match field_side(f) {
            Some(i) => match side_of(s, i) {
                Some(d) => get_in_side(d, f),
                None => None,
            },
            None => None,
        },
    }
}

/// The settings with side `i` replaced.
pub open spec fn with_side(s: SettingsView, i: usize, d: SideView) -> SettingsView {
    SettingsView { sides: s.sides.update(i as int, d), ..s }
}

/// A resize with one field set, `None` when the field is not a resize
/// field or the value is not of its kind.
pub open spec fn set_in_resize(r: Resize, f: FieldView, v: ValueView) -> Option<Resize> {
    match (f, v) {
        (FieldView::ResizeEnabled(_), ValueView::Bool(x)) => Some(Resize { enabled: x, ..r }),
        (FieldView::Width(_), ValueView::U32(x)) => Some(Resize { width: x, ..r }),
        (FieldView::Height(_), ValueView::U32(x)) => Some(Resize { height: x, ..r }),
        (FieldView::LockRatio(_), ValueView::Bool(x)) => Some(Resize { lock_ratio: x, ..r }),
        (FieldView::Crop(_), ValueView::Bool(x)) => Some(Resize { crop: x, ..r }),
        (FieldView::Filter(_), ValueView::Filter(x)) => Some(Resize { filter: x, ..r }),
        (FieldView::Premultiply(_), ValueView::Bool(x)) => Some(Resize { premultiply: x, ..r }),
        (FieldView::LinearRgb(_), ValueView::Bool(x)) => Some(Resize { linear_rgb: x, ..r }),
        _ => None,
    }
}

/// A palette with one field set, `None` when the field is not a palette
/// field or the value is not of its kind.
pub open spec fn set_in_palette(p: Palette, f: FieldView, v: ValueView) -> Option<Palette> {
    match (f, v) {
        (FieldView::PaletteEnabled(_), ValueView::Bool(x)) => Some(Palette { enabled: x, ..p }),
        (FieldView::Colors(_), ValueView::U32(x)) => Some(Palette { colors: x, ..p }),
        (FieldView::Dither(_), ValueView::Dither(x)) => Some(Palette { dither: x, ..p }),
        (FieldView::Zx(_), ValueView::Bool(x)) => Some(Palette { zx: x, ..p }),
        _ => None,
    }
}

/// Whether a field is a resize field.
pub open spec fn is_resize_field(f: FieldView) -> bool {
    f is ResizeEnabled || f is Width || f is Height || f is LockRatio || f is Crop || f is Filter
        || f is Premultiply || f is LinearRgb
}

/// Whether a field is a palette field.
pub open spec fn is_palette_field(f: FieldView) -> bool {
    f is PaletteEnabled || f is Colors || f is Dither || f is Zx
}

/// A side with one field set, `None` when the side has no such field or
/// the value is not of its kind.
pub open spec fn set_in_side(d: SideView, f: FieldView, v: ValueView) -> Option<SideView> {
    if is_resize_field(f) {
        match set_in_resize(d.resize, f, v) {
            Some(r) => Some(SideView { resize: r, ..d }),
            None => None,
        }
    } else if is_palette_field(f) {
        match set_in_palette(d.palette, f, v) {
            Some(p) => Some(SideView { palette: p, ..d }),
            None => None,
        }
    } else {
        match (f, v) {
            (FieldView::Format(_), ValueView::Format(x)) => Some(SideView { format: x, ..d }),
            (FieldView::Background(_, c), ValueView::U8(x)) => if c < 3 && c < d.background.len() {
                Some(SideView { background: d.background.update(c as int, x), ..d })
            } else {
                None
            },
            (FieldView::OptionSet(_, k), ValueView::Options(o)) => if assoc_get(d.options, k) is Some {
                Some(SideView { options: assoc_set(d.options, k, o), ..d })
            } else {
                None
            },
            (FieldView::OptionValue(_, k, key), ValueView::Int(x)) => match assoc_get(d.options, k) {
                Some(o) => if assoc_get(o, key) is Some {
                    Some(SideView { options: assoc_set(d.options, k, assoc_set(o, key, x)), ..d })
                } else {
                    None
                },
                None => None,
            },
            _ => None,
        }
    }
}

/// The settings with one field set, `None` when the settings have no such
/// field or the value is not of the field's kind.
pub open spec fn set_field(s: SettingsView, f: FieldView, v: ValueView) -> Option<SettingsView> {
    match (f, v) {
        (FieldView::Rotation, ValueView::U16(x)) => Some(SettingsView { rotation: x, ..s }),
        (FieldView::ExportSide, ValueView::Index(x)) => Some(SettingsView { export_side: x, ..s }),
        _ => match field_side(f) {
            Some(i) => match side_of(s, i) {
                Some(d) => match set_in_side(d, f, v) {
                    Some(d2) => Some(with_side(s, i, d2)),
                    None => None,
                },
                None => None,
            },
            None => None,
        },
    }
}

/// Whether the float with IEEE 754 bits `b` is infinite or not a number.
pub open spec fn non_finite(b: u32) -> bool {
    b % 0x8000_0000u32 >= 0x7F80_0000u32
}

/// Whether two dithering levels are the same number in JSON: finite floats
/// compare as numbers (so +0 and -0 are equal), every non-finite float is
/// `null`.
pub open spec fn same_dither(a: u32, b: u32) -> bool {
    if non_finite(a) || non_finite(b) {
        non_finite(a) && non_finite(b)
    } else {
        a == b || (a % 0x8000_0000u32 == 0 && b % 0x8000_0000u32 == 0)
    }
}

/// `acc` with `(f, v)` appended when `changed`.
pub open spec fn push_if(
    acc: Seq<(FieldView, ValueView)>,
    changed: bool,
    f: FieldView,
    v: ValueView,
) -> Seq<(FieldView, ValueView)> {
    if changed {
        acc.push((f, v))
    } else {
        acc
    }
}

/// `acc` followed by the settings of format `k` of side `i` that differ in
/// `after`: values that are not in `before` or differ from it, in the order
/// of `after`.
pub open spec fn value_diffs(
    acc: Seq<(FieldView, ValueView)>,
    i: usize,
    k: Seq<char>,
    before: Seq<(Seq<char>, i32)>,
    after: Seq<(Seq<char>, i32)>,
) -> Seq<(FieldView, ValueView)>
    decreases after.len(),
{
    if after.len() == 0 {
        acc
    } else {
        let (key, v) = after.last();
        push_if(
            value_diffs(acc, i, k, before, after.drop_last()),
            assoc_get(before, key) != Some(v),
            FieldView::OptionValue(i, k, key),
            ValueView::Int(v),
        )
    }
}

/// `acc` followed by the format settings of side `i` that differ in
/// `after`: a whole format when `before` lacks it, otherwise each value
/// that differs.
pub open spec fn sets_diffs(
    acc: Seq<(FieldView, ValueView)>,
    i: usize,
    before: Seq<(Seq<char>, Seq<(Seq<char>, i32)>)>,
    after: Seq<(Seq<char>, Seq<(Seq<char>, i32)>)>,
) -> Seq<(FieldView, ValueView)>
    decreases after.len(),
{
    if after.len() == 0 {
        acc
    } else {
        let (k, o) = after.last();
        let prior = sets_diffs(acc, i, before, after.drop_last());
        match assoc_get(before, k) {
            None => prior.push((FieldView::OptionSet(i, k), ValueView::Options(o))),
            Some(b) => value_diffs(prior, i, k, b, o),
        }
    }
}

/// `acc` followed by the resize fields of side `i` that differ in `a`.
pub open spec fn resize_diffs(acc: Seq<(FieldView, ValueView)>, i: usize, b: Resize, a: Resize) -> Seq<
    (FieldView, ValueView),
> {
    let s1 = push_if(acc, b.enabled != a.enabled, FieldView::ResizeEnabled(i), ValueView::Bool(a.enabled));
    let s2 = push_if(s1, b.width != a.width, FieldView::Width(i), ValueView::U32(a.width));
    let s3 = push_if(s2, b.height != a.height, FieldView::Height(i), ValueView::U32(a.height));
    let s4 = push_if(s3, b.lock_ratio != a.lock_ratio, FieldView::LockRatio(i), ValueView::Bool(a.lock_ratio));
    let s5 = push_if(s4, b.crop != a.crop, FieldView::Crop(i), ValueView::Bool(a.crop));
    let s6 = push_if(s5, b.filter != a.filter, FieldView::Filter(i), ValueView::Filter(a.filter));
    let s7 = push_if(s6, b.premultiply != a.premultiply, FieldView::Premultiply(i), ValueView::Bool(a.premultiply));
    push_if(s7, b.linear_rgb != a.linear_rgb, FieldView::LinearRgb(i), ValueView::Bool(a.linear_rgb))
}

/// `acc` followed by the palette fields of side `i` that differ in `a`.
pub open spec fn palette_diffs(acc: Seq<(FieldView, ValueView)>, i: usize, b: Palette, a: Palette) -> Seq<
    (FieldView, ValueView),
> {
    let s1 = push_if(acc, b.enabled != a.enabled, FieldView::PaletteEnabled(i), ValueView::Bool(a.enabled));
    let s2 = push_if(s1, b.colors != a.colors, FieldView::Colors(i), ValueView::U32(a.colors));
    let s3 = push_if(s2, !same_dither(b.dither, a.dither), FieldView::Dither(i), ValueView::Dither(a.dither));
    push_if(s3, b.zx != a.zx, FieldView::Zx(i), ValueView::Bool(a.zx))
}

/// `acc` followed by the background channels of side `i` that differ in `a`.
pub open spec fn background_diffs(acc: Seq<(FieldView, ValueView)>, i: usize, b: Seq<u8>, a: Seq<u8>) -> Seq<
    (FieldView, ValueView),
> {
    let s1 = push_if(acc, b[0] != a[0], FieldView::Background(i, 0), ValueView::U8(a[0]));
    let s2 = push_if(s1, b[1] != a[1], FieldView::Background(i, 1), ValueView::U8(a[1]));
    push_if(s2, b[2] != a[2], FieldView::Background(i, 2), ValueView::U8(a[2]))
}

/// `acc` followed by the fields of side `i` that differ in `a`, in the
/// order of the side's JSON form: format, format settings, resize,
/// palette, background.
pub open spec fn side_diffs(acc: Seq<(FieldView, ValueView)>, i: usize, b: SideView, a: SideView) -> Seq<
    (FieldView, ValueView),
> {
    let s1 = push_if(acc, b.format != a.format, FieldView::Format(i), ValueView::Format(a.format));
    let s2 = sets_diffs(s1, i, b.options, a.options);
    let s3 = resize_diffs(s2, i, b.resize, a.resize);
    let s4 = palette_diffs(s3, i, b.palette, a.palette);
    background_diffs(s4, i, b.background, a.background)
}

/// Every field that differs in `a`, with its new value, in the order of
/// the JSON form of settings.
pub open spec fn settings_diffs(b: SettingsView, a: SettingsView) -> Seq<(FieldView, ValueView)> {
    let s1 = push_if(Seq::empty(), b.rotation != a.rotation, FieldView::Rotation, ValueView::U16(a.rotation));
    let s2 = side_diffs(s1, 0, b.sides[0], a.sides[0]);
    let s3 = side_diffs(s2, 1, b.sides[1], a.sides[1]);
    push_if(s3, b.export_side != a.export_side, FieldView::ExportSide, ValueView::Index(a.export_side))
}

/// The position of the pin of field `f`, or the number of pins.
pub open spec fn find_pin(pins: Seq<(FieldView, ValueView)>, f: FieldView) -> nat
    decreases pins.len(),
{
    if pins.len() == 0 {
        0
    } else if pins[0].0 == f {
        0
    } else {
        1 + find_pin(pins.drop_first(), f)
    }
}

/// The pins with field `f` pinned to `v`: the pin of `f` is replaced in
/// place, or a new pin is appended.
pub open spec fn pin(pins: Seq<(FieldView, ValueView)>, f: FieldView, v: ValueView) -> Seq<
    (FieldView, ValueView),
> {
    let i = find_pin(pins, f);
    if i < pins.len() {
        pins.update(i as int, (f, v))
    } else {
        pins.push((f, v))
    }
}

/// The pins after pinning each of `diffs` in order.
pub open spec fn pin_all(pins: Seq<(FieldView, ValueView)>, diffs: Seq<(FieldView, ValueView)>) -> Seq<
    (FieldView, ValueView),
>
    decreases diffs.len(),
{
    if diffs.len() == 0 {
        pins
    } else {
        let (f, v) = diffs.last();
        pin(pin_all(pins, diffs.drop_last()), f, v)
    }
}

/// Whether a pin replaces the settings of a whole format.
pub open spec fn is_set_pin(p: (FieldView, ValueView)) -> bool {
    p.0 is OptionSet
}

/// The pins that replace whole formats, in order.
pub open spec fn set_pins(pins: Seq<(FieldView, ValueView)>) -> Seq<(FieldView, ValueView)>
    decreases pins.len(),
{
    if pins.len() == 0 {
        pins
    } else if is_set_pin(pins[0]) {
        seq![pins[0]] + set_pins(pins.drop_first())
    } else {
        set_pins(pins.drop_first())
    }
}

/// The other pins, in order.
pub open spec fn leaf_pins(pins: Seq<(FieldView, ValueView)>) -> Seq<(FieldView, ValueView)>
    decreases pins.len(),
{
    if pins.len() == 0 {
        pins
    } else if !is_set_pin(pins[0]) {
        seq![pins[0]] + leaf_pins(pins.drop_first())
    } else {
        leaf_pins(pins.drop_first())
    }
}

/// The settings with each pin applied in order, or the first field that
/// the settings lack.
pub open spec fn apply_pins(s: SettingsView, pins: Seq<(FieldView, ValueView)>) -> Result<
    SettingsView,
    FieldView,
>
    decreases pins.len(),
{
    if pins.len() == 0 {
        Ok(s)
    } else {
        match set_field(s, pins[0].0, pins[0].1) {
            Some(t) => apply_pins(t, pins.drop_first()),
            None => Err(pins[0].0),
        }
    }
}

/// The JSON pointer of a field.
pub open spec fn field_path(f: FieldView) -> Seq<char> {
    match f {
        FieldView::Rotation => "/rotation"@,
        FieldView::ExportSide => "/export_side"@,
        FieldView::Format(i) => side_path(i) + "/format"@,
        FieldView::ResizeEnabled(i) => side_path(i) + "/resize/enabled"@,
        FieldView::Width(i) => side_path(i) + "/resize/width"@,
        FieldView::Height(i) => side_path(i) + "/resize/height"@,
        FieldView::LockRatio(i) => side_path(i) + "/resize/lock_ratio"@,
        FieldView::Crop(i) => side_path(i) + "/resize/crop"@,
        FieldView::Filter(i) => side_path(i) + "/resize/filter"@,
        FieldView::Premultiply(i) => side_path(i) + "/resize/premultiply"@,
        FieldView::LinearRgb(i) => side_path(i) + "/resize/linear_rgb"@,
        FieldView::PaletteEnabled(i) => side_path(i) + "/palette/enabled"@,
        FieldView::Colors(i) => side_path(i) + "/palette/colors"@,
        FieldView::Dither(i) => side_path(i) + "/palette/dither"@,
        FieldView::Zx(i) => side_path(i) + "/palette/zx"@,
        FieldView::Background(i, c) => side_path(i) + "/background/"@ + decimal(c as nat),
        FieldView::OptionSet(i, k) => side_path(i) + "/options/"@ + k,
        FieldView::OptionValue(i, k, key) => side_path(i) + "/options/"@ + k + "/"@ + key,
    }
}

/// The JSON pointer of side `i`.
pub open spec fn side_path(i: usize) -> Seq<char> {
    "/sides/"@ + decimal(i as nat)
}

/// The common settings with per-image exceptions: the pins that replace a
/// whole format first, then the others, each in order; an exception whose
/// field the settings lack is refused with its JSON pointer; the result
/// must be valid.
pub open spec fn spec_resolve(pins: Seq<(FieldView, ValueView)>, common: SettingsView) -> Result<
    SettingsView,
    SettingsErrorView,
> {
    match apply_pins(common, set_pins(pins)) {
        Err(f) => Err(SettingsErrorView::UnknownSetting(field_path(f))),
        Ok(s1) => match apply_pins(s1, leaf_pins(pins)) {
            Err(f) => Err(SettingsErrorView::UnknownSetting(field_path(f))),
            Ok(s2) => match settings_problem(s2) {
                Some(e) => Err(e),
                None => Ok(s2),
            },
        },
    }
}

impl Clone for Field {
    fn clone(&self) -> (out: Field)
        ensures
            out@ == self@,
    {
        match self {
            Field::Rotation => Field::Rotation,
            Field::ExportSide => Field::ExportSide,
            Field::Format(i) => Field::Format(*i),
            Field::ResizeEnabled(i) => Field::ResizeEnabled(*i),
            Field::Width(i) => Field::Width(*i),
            Field::Height(i) => Field::Height(*i),
            Field::LockRatio(i) => Field::LockRatio(*i),
            Field::Crop(i) => Field::Crop(*i),
            Field::Filter(i) => Field::Filter(*i),
            Field::Premultiply(i) => Field::Premultiply(*i),
            Field::LinearRgb(i) => Field::LinearRgb(*i),
            Field::PaletteEnabled(i) => Field::PaletteEnabled(*i),
            Field::Colors(i) => Field::Colors(*i),
            Field::Dither(i) => Field::Dither(*i),
            Field::Zx(i) => Field::Zx(*i),
            Field::Background(i, c) => Field::Background(*i, *c),
            Field::OptionSet(i, k) => Field::OptionSet(*i, k.clone()),
            Field::OptionValue(i, k, key) => Field::OptionValue(*i, k.clone(), key.clone()),
        }
    }
}

impl Clone for Value {
    fn clone(&self) -> (out: Value)
        ensures
            out@ == self@,
    {
        match self {
            Value::Bool(b) => Value::Bool(*b),
            Value::U16(v) => Value::U16(*v),
            Value::U32(v) => Value::U32(*v),
            Value::Index(v) => Value::Index(*v),
            Value::U8(v) => Value::U8(*v),
            Value::Format(f) => Value::Format(*f),
            Value::Filter(f) => Value::Filter(*f),
            Value::Dither(d) => Value::Dither(*d),
            Value::Int(v) => Value::Int(*v),
            Value::Options(o) => Value::Options(o.clone()),
        }
    }
}

/// Whether two fields are the same.
fn same_field(a: &Field, b: &Field) -> (out: bool)
    ensures
        out == (a@ == b@),
{
    match a {
        Field::Rotation => match b {
            Field::Rotation => true,
            _ => false,
        },
        Field::ExportSide => match b {
            Field::ExportSide => true,
            _ => false,
        },
        Field::Format(i) => match b {
            Field::Format(j) => i == j,
            _ => false,
        },
        Field::ResizeEnabled(i) => match b {
            Field::ResizeEnabled(j) => i == j,
            _ => false,
        },
        Field::Width(i) => match b {
            Field::Width(j) => i == j,
            _ => false,
        },
        Field::Height(i) => match b {
            Field::Height(j) => i == j,
            _ => false,
        },
        Field::LockRatio(i) => match b {
            Field::LockRatio(j) => i == j,
            _ => false,
        },
        Field::Crop(i) => match b {
            Field::Crop(j) => i == j,
            _ => false,
        },
        Field::Filter(i) => match b {
            Field::Filter(j) => i == j,
            _ => false,
        },
        Field::Premultiply(i) => match b {
            Field::Premultiply(j) => i == j,
            _ => false,
        },
        Field::LinearRgb(i) => match b {
            Field::LinearRgb(j) => i == j,
            _ => false,
        },
        Field::PaletteEnabled(i) => match b {
            Field::PaletteEnabled(j) => i == j,
            _ => false,
        },
        Field::Colors(i) => match b {
            Field::Colors(j) => i == j,
            _ => false,
        },
        Field::Dither(i) => match b {
            Field::Dither(j) => i == j,
            _ => false,
        },
        Field::Zx(i) => match b {
            Field::Zx(j) => i == j,
            _ => false,
        },
        Field::Background(i, c) => match b {
            Field::Background(j, d) => i == j && c == d,
            _ => false,
        },
        Field::OptionSet(i, k) => match b {
            Field::OptionSet(j, l) => i == j && *k == *l,
            _ => false,
        },
        Field::OptionValue(i, k, x) => match b {
            Field::OptionValue(j, l, y) => i == j && *k == *l && *x == *y,
            _ => false,
        },
    }
}

fn replace_side(s: &mut Settings, i: usize, d: Side)
    requires
        i < 2,
    ensures
        final(s)@ == with_side(old(s)@, i, d@),
{
    s.sides[i] = d;
    assert(s@.sides =~= old(s)@.sides.update(i as int, d@));
}

fn set_in_resize_exec(r: &mut Resize, f: &Field, v: &Value) -> (out: bool)
    ensures
        out == (set_in_resize(*old(r), f@, v@) is Some),
        out ==> *final(r) == set_in_resize(*old(r), f@, v@)->0,
        !out ==> *final(r) == *old(r),
{
    match (f, v) {
        (Field::ResizeEnabled(_), Value::Bool(x)) => {
            r.enabled = *x;
            true
        },
        (Field::Width(_), Value::U32(x)) => {
            r.width = *x;
            true
        },
        (Field::Height(_), Value::U32(x)) => {
            r.height = *x;
            true
        },
        (Field::LockRatio(_), Value::Bool(x)) => {
            r.lock_ratio = *x;
            true
        },
        (Field::Crop(_), Value::Bool(x)) => {
            r.crop = *x;
            true
        },
        (Field::Filter(_), Value::Filter(x)) => {
            r.filter = *x;
            true
        },
        (Field::Premultiply(_), Value::Bool(x)) => {
            r.premultiply = *x;
            true
        },
        (Field::LinearRgb(_), Value::Bool(x)) => {
            r.linear_rgb = *x;
            true
        },
        _ => false,
    }
}

fn set_in_palette_exec(p: &mut Palette, f: &Field, v: &Value) -> (out: bool)
    ensures
        out == (set_in_palette(*old(p), f@, v@) is Some),
        out ==> *final(p) == set_in_palette(*old(p), f@, v@)->0,
        !out ==> *final(p) == *old(p),
{
    match (f, v) {
        (Field::PaletteEnabled(_), Value::Bool(x)) => {
            p.enabled = *x;
            true
        },
        (Field::Colors(_), Value::U32(x)) => {
            p.colors = *x;
            true
        },
        (Field::Dither(_), Value::Dither(x)) => {
            p.dither = *x;
            true
        },
        (Field::Zx(_), Value::Bool(x)) => {
            p.zx = *x;
            true
        },
        _ => false,
    }
}

fn is_resize_field_exec(f: &Field) -> (out: bool)
    ensures
        out == is_resize_field(f@),
{
    match f {
        Field::ResizeEnabled(_) | Field::Width(_) | Field::Height(_) | Field::LockRatio(_)
        | Field::Crop(_) | Field::Filter(_) | Field::Premultiply(_) | Field::LinearRgb(_) => true,
        _ => false,
    }
}

fn is_palette_field_exec(f: &Field) -> (out: bool)
    ensures
        out == is_palette_field(f@),
{
    match f {
        Field::PaletteEnabled(_) | Field::Colors(_) | Field::Dither(_) | Field::Zx(_) => true,
        _ => false,
    }
}

fn set_in_side_exec(d: &mut Side, f: &Field, v: &Value) -> (out: bool)
    ensures
        out == (set_in_side(old(d)@, f@, v@) is Some),
        out ==> final(d)@ == set_in_side(old(d)@, f@, v@)->0,
        !out ==> final(d)@ == old(d)@,
{
    if is_resize_field_exec(f) {
        let mut r = d.resize;
        let ok = set_in_resize_exec(&mut r, f, v);
        d.resize = r;
        return ok;
    }
    if is_palette_field_exec(f) {
        let mut p = d.palette;
        let ok = set_in_palette_exec(&mut p, f, v);
        d.palette = p;
        return ok;
    }
    match (f, v) {
        (Field::Format(_), Value::Format(x)) => {
            d.format = *x;
            true
        },
        (Field::Background(_, c), Value::U8(x)) => {
            if *c >= 3 {
                return false;
            }
            let ghost before = d.background@;
            d.background[*c] = *x;
            assert(d.background@ =~= before.update(*c as int, *x));
            true
        },
        (Field::OptionSet(_, k), Value::Options(o)) => {
            if d.options.get(k.as_str()).is_none() {
                return false;
            }
            d.options.insert(k.clone(), o.clone());
            true
        },
        (Field::OptionValue(_, k, key), Value::Int(x)) => {
            let present = match d.options.get(k.as_str()) {
                Some(o) => o.get(key.as_str()).is_some(),
                None => false,
            };
            if !present {
                return false;
            }
            d.options.set_option(k.as_str(), key.clone(), *x);
            true
        },
        _ => false,
    }
}

fn field_side_exec(f: &Field) -> (out: Option<usize>)
    ensures
        out == field_side(f@),
{
    match f {
        Field::Rotation => None,
        Field::ExportSide => None,
        Field::Format(i) | Field::ResizeEnabled(i) | Field::Width(i) | Field::Height(i)
        | Field::LockRatio(i) | Field::Crop(i) | Field::Filter(i) | Field::Premultiply(i)
        | Field::LinearRgb(i) | Field::PaletteEnabled(i) | Field::Colors(i) | Field::Dither(i)
        | Field::Zx(i) => Some(*i),
        Field::Background(i, _) => Some(*i),
        Field::OptionSet(i, _) => Some(*i),
        Field::OptionValue(i, _, _) => Some(*i),
    }
}

/// Sets one field of `s` to `v`; `false`, with nothing changed, when `s`
/// has no such field or `v` is not of its kind.
fn set_field_exec(s: &mut Settings, f: &Field, v: &Value) -> (out: bool)
    ensures
        out == (set_field(old(s)@, f@, v@) is Some),
        out ==> final(s)@ == set_field(old(s)@, f@, v@)->0,
        !out ==> final(s)@ == old(s)@,
{
    match (f, v) {
        (Field::Rotation, Value::U16(x)) => {
            s.rotation = *x;
            return true;
        },
        (Field::ExportSide, Value::Index(x)) => {
            s.export_side = *x;
            return true;
        },
        _ => {},
    }
    let i = match field_side_exec(f) {
        Some(i) => i,
        None => return false,
    };
    if i >= 2 {
        return false;
    }
    let mut d = s.sides[i].clone();
    assert(d@ == old(s)@.sides[i as int]);
    if !set_in_side_exec(&mut d, f, v) {
        return false;
    }
    replace_side(s, i, d);
    true
}
/// The fields and values of a list of pins.
pub open spec fn pins_view(v: Seq<(Field, Value)>) -> Seq<(FieldView, ValueView)> {
    v.map_values(|p: (Field, Value)| (p.0@, p.1@))
}

fn push_pin(out: &mut Vec<(Field, Value)>, changed: bool, f: Field, v: Value)
    ensures
        pins_view(final(out)@) == push_if(pins_view(old(out)@), changed, f@, v@),
{
    let ghost fv = f@;
    let ghost vv = v@;
    if changed {
        out.push((f, v));
    }
    assert(pins_view(out@) =~= push_if(pins_view(old(out)@), changed, fv, vv));
}

fn same_dither_exec(a: u32, b: u32) -> (out: bool)
    ensures
        out == same_dither(a, b),
{
    let fa = a % 0x8000_0000u32 >= 0x7F80_0000u32;
    let fb = b % 0x8000_0000u32 >= 0x7F80_0000u32;
    if fa || fb {
        fa && fb
    } else {
        a == b || (a % 0x8000_0000u32 == 0 && b % 0x8000_0000u32 == 0)
    }
}

fn same_format(a: Option<Format>, b: Option<Format>) -> (out: bool)
    ensures
        out == (a == b),
{
    match (a, b) {
        (None, None) => true,
        (Some(x), Some(y)) => x == y,
        _ => false,
    }
}

fn value_diffs_exec(
    out: &mut Vec<(Field, Value)>,
    i: usize,
    k: &String,
    before: &Options,
    after: &Options,
)
    ensures
        pins_view(final(out)@) == value_diffs(pins_view(old(out)@), i, k@, before@, after@),
{
    let pairs = after.pairs();
    let ghost a = after@;
    let ghost s0 = pins_view(out@);
    let mut j: usize = 0;
    assert(a.take(0) =~= Seq::<(Seq<char>, i32)>::empty());
    while j < pairs.len()
        invariant
            j <= pairs@.len(),
            crate::codecs::options_view(pairs@) == a,
            a == after@,
            pins_view(out@) == value_diffs(s0, i, k@, before@, a.take(j as int)),
        decreases pairs@.len() - j,
    {
        let key = &pairs[j].0;
        let v = pairs[j].1;
        assert(a[j as int] == (key@, v));
        assert(a.take(j + 1).drop_last() =~= a.take(j as int));
        let changed = match before.get(key.as_str()) {
            Some(b) => b != v,
            None => true,
        };
        push_pin(out, changed, Field::OptionValue(i, k.clone(), key.clone()), Value::Int(v));
        j += 1;
    }
    assert(a.take(j as int) =~= a);
}

fn sets_diffs_exec(out: &mut Vec<(Field, Value)>, i: usize, before: &OptionSets, after: &OptionSets)
    ensures
        pins_view(final(out)@) == sets_diffs(pins_view(old(out)@), i, before@, after@),
{
    let pairs = after.pairs();
    let ghost a = after@;
    let ghost s0 = pins_view(out@);
    let mut j: usize = 0;
    assert(a.take(0) =~= Seq::<(Seq<char>, Seq<(Seq<char>, i32)>)>::empty());
    while j < pairs.len()
        invariant
            j <= pairs@.len(),
            sets_view(pairs@) == a,
            a == after@,
            pins_view(out@) == sets_diffs(s0, i, before@, a.take(j as int)),
        decreases pairs@.len() - j,
    {
        let k = &pairs[j].0;
        let o = &pairs[j].1;
        assert(a[j as int] == (k@, o@));
        assert(a.take(j + 1).drop_last() =~= a.take(j as int));
        match before.get(k.as_str()) {
            None => {
                let ghost mid = pins_view(out@);
                out.push((Field::OptionSet(i, k.clone()), Value::Options(o.clone())));
                assert(pins_view(out@) =~= mid.push(
                    (FieldView::OptionSet(i, k@), ValueView::Options(o@)),
                ));
            },
            Some(b) => {
                value_diffs_exec(out, i, k, b, o);
            },
        }
        j += 1;
    }
    assert(a.take(j as int) =~= a);
}

fn resize_diffs_exec(out: &mut Vec<(Field, Value)>, i: usize, b: Resize, a: Resize)
    ensures
        pins_view(final(out)@) == resize_diffs(pins_view(old(out)@), i, b, a),
{
    push_pin(out, b.enabled != a.enabled, Field::ResizeEnabled(i), Value::Bool(a.enabled));
    push_pin(out, b.width != a.width, Field::Width(i), Value::U32(a.width));
    push_pin(out, b.height != a.height, Field::Height(i), Value::U32(a.height));
    push_pin(out, b.lock_ratio != a.lock_ratio, Field::LockRatio(i), Value::Bool(a.lock_ratio));
    push_pin(out, b.crop != a.crop, Field::Crop(i), Value::Bool(a.crop));
    push_pin(out, b.filter != a.filter, Field::Filter(i), Value::Filter(a.filter));
    push_pin(out, b.premultiply != a.premultiply, Field::Premultiply(i), Value::Bool(a.premultiply));
    push_pin(out, b.linear_rgb != a.linear_rgb, Field::LinearRgb(i), Value::Bool(a.linear_rgb));
}

fn palette_diffs_exec(out: &mut Vec<(Field, Value)>, i: usize, b: Palette, a: Palette)
    ensures
        pins_view(final(out)@) == palette_diffs(pins_view(old(out)@), i, b, a),
{
    push_pin(out, b.enabled != a.enabled, Field::PaletteEnabled(i), Value::Bool(a.enabled));
    push_pin(out, b.colors != a.colors, Field::Colors(i), Value::U32(a.colors));
    push_pin(out, !same_dither_exec(b.dither, a.dither), Field::Dither(i), Value::Dither(a.dither));
    push_pin(out, b.zx != a.zx, Field::Zx(i), Value::Bool(a.zx));
}

fn background_diffs_exec(out: &mut Vec<(Field, Value)>, i: usize, b: [u8; 3], a: [u8; 3])
    ensures
        pins_view(final(out)@) == background_diffs(pins_view(old(out)@), i, b@, a@),
{
    push_pin(out, b[0] != a[0], Field::Background(i, 0), Value::U8(a[0]));
    push_pin(out, b[1] != a[1], Field::Background(i, 1), Value::U8(a[1]));
    push_pin(out, b[2] != a[2], Field::Background(i, 2), Value::U8(a[2]));
}

fn side_diffs_exec(out: &mut Vec<(Field, Value)>, i: usize, b: &Side, a: &Side)
    ensures
        pins_view(final(out)@) == side_diffs(pins_view(old(out)@), i, b@, a@),
{
    push_pin(out, !same_format(b.format, a.format), Field::Format(i), Value::Format(a.format));
    sets_diffs_exec(out, i, &b.options, &a.options);
    resize_diffs_exec(out, i, b.resize, a.resize);
    palette_diffs_exec(out, i, b.palette, a.palette);
    background_diffs_exec(out, i, b.background, a.background);
}

fn settings_diffs_exec(b: &Settings, a: &Settings) -> (out: Vec<(Field, Value)>)
    ensures
        pins_view(out@) == settings_diffs(b@, a@),
{
    let mut out: Vec<(Field, Value)> = Vec::new();
    assert(pins_view(out@) =~= Seq::<(FieldView, ValueView)>::empty());
    push_pin(&mut out, b.rotation != a.rotation, Field::Rotation, Value::U16(a.rotation));
    side_diffs_exec(&mut out, 0, &b.sides[0], &a.sides[0]);
    side_diffs_exec(&mut out, 1, &b.sides[1], &a.sides[1]);
    push_pin(
        &mut out,
        b.export_side != a.export_side,
        Field::ExportSide,
        Value::Index(a.export_side),
    );
    out
}

/// Per-image exceptions to the common settings: each pins one field to the
/// value the image was given, and every other field follows the common
/// settings.
#[derive(Debug)]
pub struct Overrides {
    pins: Vec<(Field, Value)>,
}

impl View for Overrides {
    type V = Seq<(FieldView, ValueView)>;

    closed spec fn view(&self) -> Seq<(FieldView, ValueView)> {
        pins_view(self.pins@)
    }
}

impl Default for Overrides {
    fn default() -> (out: Overrides)
        ensures
            out@ == Seq::<(FieldView, ValueView)>::empty(),
    {
        let out = Overrides { pins: Vec::new() };
        assert(out@ =~= Seq::<(FieldView, ValueView)>::empty());
        out
    }
}

impl Clone for Overrides {
    fn clone(&self) -> (out: Overrides)
        ensures
            out@ == self@,
    {
        let mut pins: Vec<(Field, Value)> = Vec::new();
        let mut i: usize = 0;
        while i < self.pins.len()
            invariant
                i <= self.pins@.len(),
                pins@.len() == i,
                pins_view(pins@) == pins_view(self.pins@).take(i as int),
            decreases self.pins@.len() - i,
        {
            pins.push((self.pins[i].0.clone(), self.pins[i].1.clone()));
            i += 1;
            assert(pins_view(pins@) =~= pins_view(self.pins@).take(i as int));
        }
        assert(pins_view(self.pins@).take(i as int) =~= pins_view(self.pins@));
        Overrides { pins }
    }
}

impl Overrides {
    /// The number of pinned fields.
    pub fn len(&self) -> (out: usize)
        ensures
            out == self@.len(),
    {
        self.pins.len()
    }

    fn pin_one(&mut self, f: Field, v: Value)
        ensures
            final(self)@ == pin(old(self)@, f@, v@),
    {
        let ghost (fv, vv) = (f@, v@);
        let mut i: usize = 0;
        while i < self.pins.len()
            invariant
                i <= self.pins@.len(),
                self.pins@ == old(self).pins@,
                fv == f@,
                vv == v@,
                forall|j: int| 0 <= j < i ==> (#[trigger] self@[j]).0 != fv,
            decreases self.pins@.len() - i,
        {
            assert(self@[i as int] == (self.pins@[i as int].0@, self.pins@[i as int].1@));
            if same_field(&self.pins[i].0, &f) {
                proof {
                    lemma_find_pin(self@, fv, i as int);
                }
                self.pins.set(i, (f, v));
                assert(self@ =~= pin(old(self)@, fv, vv));
                return;
            }
            i += 1;
        }
        proof {
            lemma_find_pin(self@, fv, i as int);
        }
        self.pins.push((f, v));
        assert(self@ =~= pin(old(self)@, fv, vv));
    }

    /// Pins every field whose value differs between `before` and `after`
    /// to its value in `after`; the other pins are kept.
    pub fn record(&mut self, before: &Settings, after: &Settings)
        ensures
            final(self)@ == pin_all(old(self)@, settings_diffs(before@, after@)),
    {
        let diffs = settings_diffs_exec(before, after);
        let ghost d = pins_view(diffs@);
        let mut i: usize = 0;
        assert(d.take(0) =~= Seq::<(FieldView, ValueView)>::empty());
        while i < diffs.len()
            invariant
                i <= diffs@.len(),
                d == pins_view(diffs@),
                d == settings_diffs(before@, after@),
                self@ == pin_all(old(self)@, d.take(i as int)),
            decreases diffs@.len() - i,
        {
            assert(d.take(i + 1).drop_last() =~= d.take(i as int));
            assert(d[i as int] == (diffs@[i as int].0@, diffs@[i as int].1@));
            self.pin_one(diffs[i].0.clone(), diffs[i].1.clone());
            i += 1;
        }
        assert(d.take(i as int) =~= d);
    }

    /// The common settings with these exceptions applied; see
    /// [`spec_resolve`].
    pub fn resolve(&self, common: &Settings) -> (out: Result<Settings, SettingsError>)
        ensures
            match spec_resolve(self@, common@) {
                Ok(s) => out is Ok && out->Ok_0@ == s,
                Err(e) => out is Err && out->Err_0@ == e,
            },
    {
        let mut s = common.clone();
        let ghost p = self@;
        let mut i: usize = 0;
        assert(p.skip(0) =~= p);
        while i < self.pins.len()
            invariant
                i <= self.pins@.len(),
                p == self@,
                apply_pins(common@, set_pins(p)) == apply_pins(s@, set_pins(p.skip(i as int))),
            decreases self.pins@.len() - i,
        {
            let ghost rest = p.skip(i as int);
            assert(rest[0] == (self.pins@[i as int].0@, self.pins@[i as int].1@));
            assert(rest.drop_first() =~= p.skip(i + 1));
            if is_set_field(&self.pins[i].0) {
                assert(set_pins(rest) == seq![rest[0]] + set_pins(rest.drop_first()));
                assert((seq![rest[0]] + set_pins(rest.drop_first())).drop_first() =~= set_pins(
                    rest.drop_first(),
                ));
                if !set_field_exec(&mut s, &self.pins[i].0, &self.pins[i].1) {
                    return Err(SettingsError::UnknownSetting(field_path_exec(&self.pins[i].0)));
                }
            }
            i += 1;
        }
        assert(p.skip(i as int) =~= Seq::<(FieldView, ValueView)>::empty());
        let ghost s1 = s@;
        let mut i: usize = 0;
        while i < self.pins.len()
            invariant
                i <= self.pins@.len(),
                p == self@,
                apply_pins(common@, set_pins(p)) == Ok::<SettingsView, FieldView>(s1),
                apply_pins(s1, leaf_pins(p)) == apply_pins(s@, leaf_pins(p.skip(i as int))),
            decreases self.pins@.len() - i,
        {
            let ghost rest = p.skip(i as int);
            assert(rest[0] == (self.pins@[i as int].0@, self.pins@[i as int].1@));
            assert(rest.drop_first() =~= p.skip(i + 1));
            if !is_set_field(&self.pins[i].0) {
                assert(leaf_pins(rest) == seq![rest[0]] + leaf_pins(rest.drop_first()));
                assert((seq![rest[0]] + leaf_pins(rest.drop_first())).drop_first() =~= leaf_pins(
                    rest.drop_first(),
                ));
                if !set_field_exec(&mut s, &self.pins[i].0, &self.pins[i].1) {
                    return Err(SettingsError::UnknownSetting(field_path_exec(&self.pins[i].0)));
                }
            }
            i += 1;
        }
        assert(p.skip(i as int) =~= Seq::<(FieldView, ValueView)>::empty());
        s.validate()?;
        Ok(s)
    }
}

fn is_set_field(f: &Field) -> (out: bool)
    ensures
        out == (f@ is OptionSet),
{
    match f {
        Field::OptionSet(_, _) => true,
        _ => false,
    }
}

proof fn lemma_find_pin(pins: Seq<(FieldView, ValueView)>, f: FieldView, i: int)
    requires
        0 <= i <= pins.len(),
        forall|j: int| 0 <= j < i ==> (#[trigger] pins[j]).0 != f,
        i == pins.len() || pins[i].0 == f,
    ensures
        find_pin(pins, f) == i,
    decreases i,
{
    if i > 0 {
        assert forall|j: int| 0 <= j < i - 1 implies (#[trigger] pins.drop_first()[j]).0 != f by {
            assert(pins.drop_first()[j] == pins[j + 1]);
        }
        lemma_find_pin(pins.drop_first(), f, i - 1);
    }
}

fn push_str(out: &mut Vec<char>, s: &str)
    ensures
        final(out)@ == old(out)@ + s@,
{
    let c = chars_of(s);
    append_chars(out, &c);
}

fn side_path_exec(i: usize) -> (out: Vec<char>)
    ensures
        out@ == side_path(i),
{
    let mut out = chars_of("/sides/");
    let d = decimal_chars(i as u64);
    append_chars(&mut out, &d);
    out
}

fn field_path_exec(f: &Field) -> (out: String)
    ensures
        out@ == field_path(f@),
{
    let mut out: Vec<char> = match f {
        Field::Rotation => chars_of("/rotation"),
        Field::ExportSide => chars_of("/export_side"),
        _ => Vec::new(),
    };
    match f {
        Field::Rotation | Field::ExportSide => {},
        Field::Format(i) => {
            out = side_path_exec(*i);
            push_str(&mut out, "/format");
        },
        Field::ResizeEnabled(i) => {
            out = side_path_exec(*i);
            push_str(&mut out, "/resize/enabled");
        },
        Field::Width(i) => {
            out = side_path_exec(*i);
            push_str(&mut out, "/resize/width");
        },
        Field::Height(i) => {
            out = side_path_exec(*i);
            push_str(&mut out, "/resize/height");
        },
        Field::LockRatio(i) => {
            out = side_path_exec(*i);
            push_str(&mut out, "/resize/lock_ratio");
        },
        Field::Crop(i) => {
            out = side_path_exec(*i);
            push_str(&mut out, "/resize/crop");
        },
        Field::Filter(i) => {
            out = side_path_exec(*i);
            push_str(&mut out, "/resize/filter");
        },
        Field::Premultiply(i) => {
            out = side_path_exec(*i);
            push_str(&mut out, "/resize/premultiply");
        },
        Field::LinearRgb(i) => {
            out = side_path_exec(*i);
            push_str(&mut out, "/resize/linear_rgb");
        },
        Field::PaletteEnabled(i) => {
            out = side_path_exec(*i);
            push_str(&mut out, "/palette/enabled");
        },
        Field::Colors(i) => {
            out = side_path_exec(*i);
            push_str(&mut out, "/palette/colors");
        },
        Field::Dither(i) => {
            out = side_path_exec(*i);
            push_str(&mut out, "/palette/dither");
        },
        Field::Zx(i) => {
            out = side_path_exec(*i);
            push_str(&mut out, "/palette/zx");
        },
        Field::Background(i, c) => {
            out = side_path_exec(*i);
            push_str(&mut out, "/background/");
            let d = decimal_chars(*c as u64);
            append_chars(&mut out, &d);
        },
        Field::OptionSet(i, k) => {
            out = side_path_exec(*i);
            push_str(&mut out, "/options/");
            push_str(&mut out, k.as_str());
        },
        Field::OptionValue(i, k, key) => {
            out = side_path_exec(*i);
            push_str(&mut out, "/options/");
            push_str(&mut out, k.as_str());
            push_str(&mut out, "/");
            push_str(&mut out, key.as_str());
        },
    }
    string_of(&out)
}

/// Whether a field names a single value (not the settings of a whole
/// format).
pub open spec fn is_leaf(f: FieldView) -> bool {
    !(f is OptionSet)
}

/// Whether `v` is of the kind of field `f`.
pub open spec fn fits(f: FieldView, v: ValueView) -> bool {
    match f {
        FieldView::Rotation => v is U16,
        FieldView::ExportSide => v is Index,
        FieldView::Format(_) => v is Format,
        FieldView::Width(_) | FieldView::Height(_) | FieldView::Colors(_) => v is U32,
        FieldView::Filter(_) => v is Filter,
        FieldView::Dither(_) => v is Dither,
        FieldView::Background(_, _) => v is U8,
        FieldView::OptionSet(_, _) => v is Options,
        FieldView::OptionValue(_, _, _) => v is Int,
        _ => v is Bool,
    }
}

/// Whether every pin names a single value and holds a value of its kind.
pub open spec fn pins_fit(pins: Seq<(FieldView, ValueView)>) -> bool {
    forall|i: int| 0 <= i < pins.len() ==> is_leaf(#[trigger] pins[i].0) && fits(pins[i].0, pins[i].1)
}

/// The value of the last pin of field `g`.
pub open spec fn last_value(pins: Seq<(FieldView, ValueView)>, g: FieldView) -> Option<ValueView>
    decreases pins.len(),
{
    if pins.len() == 0 {
        None
    } else {
        match last_value(pins.drop_first(), g) {
            Some(v) => Some(v),
            None => if pins[0].0 == g {
                Some(pins[0].1)
            } else {
                None
            },
        }
    }
}

proof fn lemma_resize_set_get(d: SideView, f: FieldView, v: ValueView, g: FieldView)
    requires
        is_resize_field(f),
        fits(f, v),
        is_leaf(g),
        field_side(g) == field_side(f),
    ensures
        set_in_side(d, f, v) is Some,
        get_in_side(set_in_side(d, f, v)->0, g) == if g == f {
            Some(v)
        } else {
            get_in_side(d, g)
        },
{
}

proof fn lemma_palette_set_get(d: SideView, f: FieldView, v: ValueView, g: FieldView)
    requires
        is_palette_field(f),
        fits(f, v),
        is_leaf(g),
        field_side(g) == field_side(f),
    ensures
        set_in_side(d, f, v) is Some,
        get_in_side(set_in_side(d, f, v)->0, g) == if g == f {
            Some(v)
        } else {
            get_in_side(d, g)
        },
{
}

proof fn lemma_option_set_get(d: SideView, f: FieldView, v: ValueView, g: FieldView)
    requires
        f is OptionValue,
        fits(f, v),
        is_leaf(g),
        field_side(g) == field_side(f),
    ensures
        (set_in_side(d, f, v) is Some) == (get_in_side(d, f) is Some),
        set_in_side(d, f, v) is Some ==> get_in_side(set_in_side(d, f, v)->0, g) == if g == f {
            Some(v)
        } else {
            get_in_side(d, g)
        },
{
    if let FieldView::OptionValue(i, k, key) = f {
        if let Some(o) = assoc_get(d.options, k) {
            let x = v->Int_0;
            crate::text::lemma_assoc_set_get(o, key, x, key);
            crate::text::lemma_assoc_set_get(d.options, k, assoc_set(o, key, x), k);
            if let FieldView::OptionValue(i2, k2, key2) = g {
                crate::text::lemma_assoc_set_get(d.options, k, assoc_set(o, key, x), k2);
                crate::text::lemma_assoc_set_get(o, key, x, key2);
            }
        }
    }
}

proof fn lemma_other_set_get(d: SideView, f: FieldView, v: ValueView, g: FieldView)
    requires
        f is Format || f is Background,
        fits(f, v),
        is_leaf(g),
        field_side(g) == field_side(f),
    ensures
        (set_in_side(d, f, v) is Some) == (get_in_side(d, f) is Some),
        set_in_side(d, f, v) is Some ==> get_in_side(set_in_side(d, f, v)->0, g) == if g == f {
            Some(v)
        } else {
            get_in_side(d, g)
        },
{
}

/// Setting a single value exists exactly when the field does, and changes
/// what that field reads and no other single value.
pub proof fn lemma_set_get(s: SettingsView, f: FieldView, v: ValueView, g: FieldView)
    requires
        is_leaf(f),
        fits(f, v),
        is_leaf(g),
    ensures
        (set_field(s, f, v) is Some) == (get_field(s, f) is Some),
        set_field(s, f, v) is Some ==> get_field(set_field(s, f, v)->0, g) == if g == f {
            Some(v)
        } else {
            get_field(s, g)
        },
{
    if let Some(i) = field_side(f) {
        if let Some(d) = side_of(s, i) {
            if field_side(g) == field_side(f) {
                if is_resize_field(f) {
                    lemma_resize_set_get(d, f, v, g);
                    lemma_resize_set_get(d, f, v, f);
                } else if is_palette_field(f) {
                    lemma_palette_set_get(d, f, v, g);
                    lemma_palette_set_get(d, f, v, f);
                } else if f is OptionValue {
                    lemma_option_set_get(d, f, v, g);
                } else {
                    lemma_other_set_get(d, f, v, g);
                }
            } else {
                if is_resize_field(f) {
                    lemma_resize_set_get(d, f, v, f);
                } else if is_palette_field(f) {
                    lemma_palette_set_get(d, f, v, f);
                } else if f is OptionValue {
                    lemma_option_set_get(d, f, v, f);
                } else {
                    lemma_other_set_get(d, f, v, f);
                }
            }
        }
    }
}

/// Applying single-value pins succeeds exactly when the settings have
/// every pinned field, and then each field reads its last pin, or its
/// value in `s` when it has none.
pub proof fn lemma_apply_leaf_pins(s: SettingsView, pins: Seq<(FieldView, ValueView)>, g: FieldView)
    requires
        pins_fit(pins),
        is_leaf(g),
    ensures
        (apply_pins(s, pins) is Ok) == (forall|i: int|
            0 <= i < pins.len() ==> get_field(s, #[trigger] pins[i].0) is Some),
        apply_pins(s, pins) is Ok ==> get_field(apply_pins(s, pins)->Ok_0, g) == match last_value(
            pins,
            g,
        ) {
            Some(v) => Some(v),
            None => get_field(s, g),
        },
    decreases pins.len(),
{
    if pins.len() > 0 {
        let (f, v) = pins[0];
        assert(is_leaf(pins[0].0) && fits(pins[0].0, pins[0].1));
        lemma_set_get(s, f, v, g);
        let rest = pins.drop_first();
        assert(pins_fit(rest)) by {
            assert forall|i: int| 0 <= i < rest.len() implies is_leaf(#[trigger] rest[i].0) && fits(
                rest[i].0,
                rest[i].1,
            ) by {
                assert(rest[i] == pins[i + 1]);
            }
        }
        if let Some(t) = set_field(s, f, v) {
            lemma_apply_leaf_pins(t, rest, g);
            assert forall|i: int| 0 <= i < rest.len() implies (get_field(t, #[trigger] rest[i].0)
                is Some) == (get_field(s, rest[i].0) is Some) by {
                assert(rest[i] == pins[i + 1]);
                lemma_set_get(s, f, v, rest[i].0);
            }
            if apply_pins(s, pins) is Ok {
                assert forall|i: int| 0 <= i < pins.len() implies get_field(
                    s,
                    #[trigger] pins[i].0,
                ) is Some by {
                    if i > 0 {
                        assert(rest[i - 1] == pins[i]);
                    }
                }
            } else {
                let j = choose|j: int| 0 <= j < rest.len() && !(get_field(t, #[trigger] rest[j].0) is Some);
                assert(pins[j + 1] == rest[j]);
                assert(!(get_field(s, pins[j + 1].0) is Some));
            }
        } else {
            assert(!(get_field(s, pins[0].0) is Some));
        }
    }
}

/// Exceptions pin single fields: resolving gives each pinned field its
/// pinned value, and every other field its value in the common settings.
pub proof fn lemma_resolve_inherits(
    pins: Seq<(FieldView, ValueView)>,
    common: SettingsView,
    g: FieldView,
)
    requires
        pins_fit(pins),
        spec_resolve(pins, common) is Ok,
        is_leaf(g),
    ensures
        get_field(spec_resolve(pins, common)->Ok_0, g) == match last_value(pins, g) {
            Some(v) => Some(v),
            None => get_field(common, g),
        },
{
    lemma_fit_pins_split(pins);
    lemma_apply_leaf_pins(common, pins, g);
}

/// Pins that all name single values are all applied in the second pass.
proof fn lemma_fit_pins_split(pins: Seq<(FieldView, ValueView)>)
    requires
        pins_fit(pins),
    ensures
        set_pins(pins) == Seq::<(FieldView, ValueView)>::empty(),
        leaf_pins(pins) == pins,
    decreases pins.len(),
{
    if pins.len() > 0 {
        let rest = pins.drop_first();
        assert(pins_fit(rest)) by {
            assert forall|i: int| 0 <= i < rest.len() implies is_leaf(#[trigger] rest[i].0) && fits(
                rest[i].0,
                rest[i].1,
            ) by {
                assert(rest[i] == pins[i + 1]);
            }
        }
        lemma_fit_pins_split(rest);
        assert(is_leaf(pins[0].0));
        assert(seq![pins[0]] + rest =~= pins);
    }
}

/// Whether pin field `f` replaces the whole format set that holds field
/// `g`.
pub open spec fn covers(f: FieldView, g: FieldView) -> bool {
    f matches FieldView::OptionSet(i, k) && g matches FieldView::OptionValue(j, k2, _) && i == j && k == k2
}

/// A single-value field that accepts a value accepts it only of its kind.
proof fn lemma_set_field_fits(s: SettingsView, f: FieldView, v: ValueView)
    requires
        is_leaf(f),
        set_field(s, f, v) is Some,
    ensures
        fits(f, v),
{
}

/// Replacing a format set leaves every field outside it as it was.
proof fn lemma_set_pin_keeps(s: SettingsView, f: FieldView, v: ValueView, g: FieldView)
    requires
        f is OptionSet,
        set_field(s, f, v) is Some,
        is_leaf(g),
        !covers(f, g),
    ensures
        get_field(set_field(s, f, v)->0, g) == get_field(s, g),
{
    if let FieldView::OptionSet(i, k) = f {
        let d = s.sides[i as int];
        if let ValueView::Options(o) = v {
            let t = set_field(s, f, v)->0;
            assert(t.sides[i as int].options == assoc_set(d.options, k, o));
            if let Some(j) = field_side(g) {
                if j == i {
                    if let FieldView::OptionValue(_, k2, _) = g {
                        crate::text::lemma_assoc_set_get(d.options, k, o, k2);
                    }
                } else if j < s.sides.len() {
                    assert(t.sides[j as int] == s.sides[j as int]);
                }
            }
        }
    }
}

/// The format-set pins leave every field that none of them covers as it
/// was.
proof fn lemma_set_pins_keep(s: SettingsView, pins: Seq<(FieldView, ValueView)>, g: FieldView)
    requires
        is_leaf(g),
        apply_pins(s, set_pins(pins)) is Ok,
        forall|j: int| 0 <= j < pins.len() ==> !covers(#[trigger] pins[j].0, g),
    ensures
        get_field(apply_pins(s, set_pins(pins))->Ok_0, g) == get_field(s, g),
    decreases pins.len(),
{
    if pins.len() > 0 {
        let rest = pins.drop_first();
        assert forall|j: int| 0 <= j < rest.len() implies !covers(#[trigger] rest[j].0, g) by {
            assert(rest[j] == pins[j + 1]);
        }
        if is_set_pin(pins[0]) {
            let q = set_pins(pins);
            assert(q == seq![pins[0]] + set_pins(rest));
            assert(q.drop_first() =~= set_pins(rest));
            assert(q[0] == pins[0]);
            assert(!covers(pins[0].0, g));
            let t = set_field(s, pins[0].0, pins[0].1)->0;
            lemma_set_pin_keeps(s, pins[0].0, pins[0].1, g);
            lemma_set_pins_keep(t, rest, g);
        } else {
            lemma_set_pins_keep(s, rest, g);
        }
    }
}

/// The single-value pins say the same of a single-value field as all pins.
proof fn lemma_leaf_pins_last(pins: Seq<(FieldView, ValueView)>, g: FieldView)
    requires
        is_leaf(g),
    ensures
        last_value(leaf_pins(pins), g) == last_value(pins, g),
        forall|j: int| 0 <= j < leaf_pins(pins).len() ==> is_leaf(#[trigger] leaf_pins(pins)[j].0),
    decreases pins.len(),
{
    if pins.len() > 0 {
        let rest = pins.drop_first();
        lemma_leaf_pins_last(rest, g);
        if !is_set_pin(pins[0]) {
            let q = leaf_pins(pins);
            assert(q == seq![pins[0]] + leaf_pins(rest));
            assert(q.drop_first() =~= leaf_pins(rest));
            assert(q[0] == pins[0]);
            assert forall|j: int| 0 <= j < q.len() implies is_leaf(#[trigger] q[j].0) by {
                if j > 0 {
                    assert(q[j] == leaf_pins(rest)[j - 1]);
                }
            }
        }
    }
}

/// Single-value pins that all apply hold values of their kinds.
proof fn lemma_applied_pins_fit(s: SettingsView, pins: Seq<(FieldView, ValueView)>)
    requires
        forall|j: int| 0 <= j < pins.len() ==> is_leaf(#[trigger] pins[j].0),
        apply_pins(s, pins) is Ok,
    ensures
        pins_fit(pins),
    decreases pins.len(),
{
    if pins.len() > 0 {
        let rest = pins.drop_first();
        assert(is_leaf(pins[0].0));
        lemma_set_field_fits(s, pins[0].0, pins[0].1);
        let t = set_field(s, pins[0].0, pins[0].1)->0;
        assert forall|j: int| 0 <= j < rest.len() implies is_leaf(#[trigger] rest[j].0) by {
            assert(rest[j] == pins[j + 1]);
        }
        lemma_applied_pins_fit(t, rest);
        assert forall|j: int| 0 <= j < pins.len() implies is_leaf(#[trigger] pins[j].0) && fits(
            pins[j].0,
            pins[j].1,
        ) by {
            if j > 0 {
                assert(pins[j] == rest[j - 1]);
            }
        }
    }
}

/// Resolving any exceptions keeps every field that no exception pins: a
/// single-value field reads its last pin when it has one and otherwise its
/// common value, unless a pin replaced the whole format set that holds it.
pub proof fn lemma_resolve_keeps_unpinned(
    pins: Seq<(FieldView, ValueView)>,
    common: SettingsView,
    g: FieldView,
)
    requires
        spec_resolve(pins, common) is Ok,
        is_leaf(g),
        forall|j: int| 0 <= j < pins.len() ==> !covers(#[trigger] pins[j].0, g),
    ensures
        get_field(spec_resolve(pins, common)->Ok_0, g) == match last_value(pins, g) {
            Some(v) => Some(v),
            None => get_field(common, g),
        },
{
    let s1 = apply_pins(common, set_pins(pins))->Ok_0;
    lemma_set_pins_keep(common, pins, g);
    lemma_leaf_pins_last(pins, g);
    lemma_applied_pins_fit(s1, leaf_pins(pins));
    lemma_apply_leaf_pins(s1, leaf_pins(pins), g);
}

} // verus!
