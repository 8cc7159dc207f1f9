//! User-facing languages. Messages are written in English in the code, and
//! that English text is the key of every translation catalog.
//!
//! Placeholders are `{}` (the next argument), `{0}`, `{1}`… (by position, so
//! a translation can reorder them) and `{name}` (named arguments). A missing
//! translation falls back to English.
use crate::text::{
    append_chars, chars_equal, chars_of, keys_distinct, lower, lower_char, string_of, to_lower_char,
};
use std::collections::BTreeMap;
use vstd::prelude::*;

verus! {

/// A language of the interface.
#[derive(Debug, Clone, Copy, PartialEq, Eq, Hash, Structural)]
pub enum Lang {
    En,
    Fr,
    De,
    Es,
    It,
    PtBr,
    Nl,
    Pl,
    Ru,
    Uk,
    Tr,
    Id,
    Vi,
    ZhCn,
    ZhTw,
    Ja,
    Ko,
}

/// The position of a language in [`Lang::ALL`].
pub open spec fn lang_index(l: Lang) -> nat {
    match l {
        Lang::En => 0,
        Lang::Fr => 1,
        Lang::De => 2,
        Lang::Es => 3,
        Lang::It => 4,
        Lang::PtBr => 5,
        Lang::Nl => 6,
        Lang::Pl => 7,
        Lang::Ru => 8,
        Lang::Uk => 9,
        Lang::Tr => 10,
        Lang::Id => 11,
        Lang::Vi => 12,
        Lang::ZhCn => 13,
        Lang::ZhTw => 14,
        Lang::Ja => 15,
        Lang::Ko => 16,
    }
}

/// The language at position `i` of [`Lang::ALL`], English past the end.
pub open spec fn lang_at(i: nat) -> Lang {
    if i == 0 {
        Lang::En
    } else if i == 1 {
        Lang::Fr
    } else if i == 2 {
        Lang::De
    } else if i == 3 {
        Lang::Es
    } else if i == 4 {
        Lang::It
    } else if i == 5 {
        Lang::PtBr
    } else if i == 6 {
        Lang::Nl
    } else if i == 7 {
        Lang::Pl
    } else if i == 8 {
        Lang::Ru
    } else if i == 9 {
        Lang::Uk
    } else if i == 10 {
        Lang::Tr
    } else if i == 11 {
        Lang::Id
    } else if i == 12 {
        Lang::Vi
    } else if i == 13 {
        Lang::ZhCn
    } else if i == 14 {
        Lang::ZhTw
    } else if i == 15 {
        Lang::Ja
    } else if i == 16 {
        Lang::Ko
    } else {
        Lang::En
    }
}

/// The BCP 47 tag of a language, also the name of its catalog.
pub open spec fn spec_code(l: Lang) -> Seq<char> {
    match l {
        Lang::En => "en"@,
        Lang::Fr => "fr"@,
        Lang::De => "de"@,
        Lang::Es => "es"@,
        Lang::It => "it"@,
        Lang::PtBr => "pt-BR"@,
        Lang::Nl => "nl"@,
        Lang::Pl => "pl"@,
        Lang::Ru => "ru"@,
        Lang::Uk => "uk"@,
        Lang::Tr => "tr"@,
        Lang::Id => "id"@,
        Lang::Vi => "vi"@,
        Lang::ZhCn => "zh-CN"@,
        Lang::ZhTw => "zh-TW"@,
        Lang::Ja => "ja"@,
        Lang::Ko => "ko"@,
    }
}

/// The language's own name, as shown in the language picker.
pub open spec fn spec_name(l: Lang) -> Seq<char> {
    match l {
        Lang::En => "English"@,
        Lang::Fr => "Français"@,
        Lang::De => "Deutsch"@,
        Lang::Es => "Español"@,
        Lang::It => "Italiano"@,
        Lang::PtBr => "Português (Brasil)"@,
        Lang::Nl => "Nederlands"@,
        Lang::Pl => "Polski"@,
        Lang::Ru => "Русский"@,
        Lang::Uk => "Українська"@,
        Lang::Tr => "Türkçe"@,
        Lang::Id => "Bahasa Indonesia"@,
        Lang::Vi => "Tiếng Việt"@,
        Lang::ZhCn => "简体中文"@,
        Lang::ZhTw => "繁體中文"@,
        Lang::Ja => "日本語"@,
        Lang::Ko => "한국어"@,
    }
}

/// The language's name in English.
pub open spec fn spec_english_name(l: Lang) -> Seq<char> {
    match l {
        Lang::En => "English"@,
        Lang::Fr => "French"@,
        Lang::De => "German"@,
        Lang::Es => "Spanish"@,
        Lang::It => "Italian"@,
        Lang::PtBr => "Portuguese (Brazil)"@,
        Lang::Nl => "Dutch"@,
        Lang::Pl => "Polish"@,
        Lang::Ru => "Russian"@,
        Lang::Uk => "Ukrainian"@,
        Lang::Tr => "Turkish"@,
        Lang::Id => "Indonesian"@,
        Lang::Vi => "Vietnamese"@,
        Lang::ZhCn => "Chinese (Simplified)"@,
        Lang::ZhTw => "Chinese (Traditional)"@,
        Lang::Ja => "Japanese"@,
        Lang::Ko => "Korean"@,
    }
}

impl Lang {
    /// Every language, English first.
    pub fn all() -> (out: Vec<Lang>)
        ensures
            out@.len() == 17,
            forall|i: int| 0 <= i < 17 ==> #[trigger] out@[i] == lang_at(i as nat),
    {
        let mut out: Vec<Lang> = Vec::new();
        let mut i: u8 = 0;
        while i < 17
            invariant
                i <= 17,
                out@.len() == i,
                forall|j: int| 0 <= j < i ==> #[trigger] out@[j] == lang_at(j as nat),
            decreases 17 - i,
        {
            out.push(lang(i));
            i += 1;
        }
        out
    }

    /// BCP 47 tag, also the catalog file name.
    pub fn code(self) -> (out: &'static str)
        ensures
            out@ == spec_code(self),
    {
        match self {
            Lang::En => "en",
            Lang::Fr => "fr",
            Lang::De => "de",
            Lang::Es => "es",
            Lang::It => "it",
            Lang::PtBr => "pt-BR",
            Lang::Nl => "nl",
            Lang::Pl => "pl",
            Lang::Ru => "ru",
            Lang::Uk => "uk",
            Lang::Tr => "tr",
            Lang::Id => "id",
            Lang::Vi => "vi",
            Lang::ZhCn => "zh-CN",
            Lang::ZhTw => "zh-TW",
            Lang::Ja => "ja",
            Lang::Ko => "ko",
        }
    }

    /// The language's own name, as shown in the language picker.
    pub fn name(self) -> (out: &'static str)
        ensures
            out@ == spec_name(self),
    {
        match self {
            Lang::En => "English",
            Lang::Fr => "Français",
            Lang::De => "Deutsch",
            Lang::Es => "Español",
            Lang::It => "Italiano",
            Lang::PtBr => "Português (Brasil)",
            Lang::Nl => "Nederlands",
            Lang::Pl => "Polski",
            Lang::Ru => "Русский",
            Lang::Uk => "Українська",
            Lang::Tr => "Türkçe",
            Lang::Id => "Bahasa Indonesia",
            Lang::Vi => "Tiếng Việt",
            Lang::ZhCn => "简体中文",
            Lang::ZhTw => "繁體中文",
            Lang::Ja => "日本語",
            Lang::Ko => "한국어",
        }
    }

    /// The language's name in English.
    pub fn english_name(self) -> (out: &'static str)
        ensures
            out@ == spec_english_name(self),
    {
        match self {
            Lang::En => "English",
            Lang::Fr => "French",
            Lang::De => "German",
            Lang::Es => "Spanish",
            Lang::It => "Italian",
            Lang::PtBr => "Portuguese (Brazil)",
            Lang::Nl => "Dutch",
            Lang::Pl => "Polish",
            Lang::Ru => "Russian",
            Lang::Uk => "Ukrainian",
            Lang::Tr => "Turkish",
            Lang::Id => "Indonesian",
            Lang::Vi => "Vietnamese",
            Lang::ZhCn => "Chinese (Simplified)",
            Lang::ZhTw => "Chinese (Traditional)",
            Lang::Ja => "Japanese",
            Lang::Ko => "Korean",
        }
    }
}

/// Marks an English message for translation without translating it yet,
/// for tables that are translated later with [`t`].
pub fn n(english: &str) -> (out: &str)
    ensures
        out@ == english@,
{
    english
}

/// The language stored in the process-wide byte `current`: the language at
/// that position of [`Lang::all`], English when the byte is out of range.
pub fn lang(current: u8) -> (out: Lang)
    ensures
        out == lang_at(current as nat),
{
    match current {
        0 => Lang::En,
        1 => Lang::Fr,
        2 => Lang::De,
        3 => Lang::Es,
        4 => Lang::It,
        5 => Lang::PtBr,
        6 => Lang::Nl,
        7 => Lang::Pl,
        8 => Lang::Ru,
        9 => Lang::Uk,
        10 => Lang::Tr,
        11 => Lang::Id,
        12 => Lang::Vi,
        13 => Lang::ZhCn,
        14 => Lang::ZhTw,
        15 => Lang::Ja,
        16 => Lang::Ko,
        _ => Lang::En,
    }
}

/// The byte to store so that [`lang`] reads `l` back.
pub fn set_lang(l: Lang) -> (out: u8)
    ensures
        out as nat == lang_index(l),
{
    match l {
        Lang::En => 0,
        Lang::Fr => 1,
        Lang::De => 2,
        Lang::Es => 3,
        Lang::It => 4,
        Lang::PtBr => 5,
        Lang::Nl => 6,
        Lang::Pl => 7,
        Lang::Ru => 8,
        Lang::Uk => 9,
        Lang::Tr => 10,
        Lang::Id => 11,
        Lang::Vi => 12,
        Lang::ZhCn => 13,
        Lang::ZhTw => 14,
        Lang::Ja => 15,
        Lang::Ko => 16,
    }
}

/// Storing a language and reading it back gives the same language.
pub proof fn lemma_lang_roundtrip(l: Lang)
    ensures
        lang_at(lang_index(l)) == l,
        lang_index(l) < 17,
{
}

/// Every byte past the last language reads as English.
pub proof fn lemma_lang_out_of_range(b: nat)
    requires
        b >= 17,
    ensures
        lang_at(b) == Lang::En,
{
}

/// The position of the first element of `s` that satisfies `p`, or the
/// length of `s` when none does.
pub open spec fn first_index(s: Seq<char>, p: spec_fn(char) -> bool) -> nat
    decreases s.len(),
{
    if s.len() == 0 {
        0
    } else if p(s[0]) {
        0
    } else {
        1 + first_index(s.drop_first(), p)
    }
}

proof fn lemma_first_index(s: Seq<char>, p: spec_fn(char) -> bool, i: int)
    requires
        0 <= i <= s.len(),
        forall|j: int| 0 <= j < i ==> !p(#[trigger] s[j]),
        i == s.len() || p(s[i]),
    ensures
        first_index(s, p) == i,
    decreases i,
{
    if i > 0 {
        assert forall|j: int| 0 <= j < i - 1 implies !p(#[trigger] s.drop_first()[j]) by {
            assert(s.drop_first()[j] == s[j + 1]);
        }
        lemma_first_index(s.drop_first(), p, i - 1);
    }
}

/// `.` and `@` end the language part of a locale (`fr_FR.UTF-8`, `de@euro`).
pub open spec fn is_cut(c: char) -> bool {
    c == '.' || c == '@'
}

/// `-` and `_` separate the subtags of a locale.
pub open spec fn is_sep(c: char) -> bool {
    c == '-' || c == '_'
}

/// The locale up to its first `.` or `@`.
pub open spec fn locale_head(s: Seq<char>) -> Seq<char> {
    s.take(first_index(s, |c: char| is_cut(c)) as int)
}

/// The primary language subtag of a locale, in lower case.
pub open spec fn locale_language(s: Seq<char>) -> Seq<char> {
    let h = locale_head(s);
    lower(h.take(first_index(h, |c: char| is_sep(c)) as int))
}

/// Whether a later subtag of `h` (not the first) starts at `k` and equals
/// `tag` up to ASCII case.
pub open spec fn subtag_at(h: Seq<char>, k: int, tag: Seq<char>) -> bool {
    &&& 0 < k
    &&& k + tag.len() <= h.len()
    &&& is_sep(h[k - 1])
    &&& (k + tag.len() == h.len() || is_sep(h[k + tag.len()]))
    &&& lower(h.subrange(k, k + tag.len())) == tag
}

/// Whether one of the subtags after the first equals `tag` up to case.
pub open spec fn has_subtag(h: Seq<char>, tag: Seq<char>) -> bool {
    exists|k: int| #[trigger] subtag_at(h, k, tag)
}

/// The language whose code is exactly `c`.
pub open spec fn lang_with_code(c: Seq<char>) -> Option<Lang> {
    if c == spec_code(Lang::En) {
        Some(Lang::En)
    } else if c == spec_code(Lang::Fr) {
        Some(Lang::Fr)
    } else if c == spec_code(Lang::De) {
        Some(Lang::De)
    } else if c == spec_code(Lang::Es) {
        Some(Lang::Es)
    } else if c == spec_code(Lang::It) {
        Some(Lang::It)
    } else if c == spec_code(Lang::PtBr) {
        Some(Lang::PtBr)
    } else if c == spec_code(Lang::Nl) {
        Some(Lang::Nl)
    } else if c == spec_code(Lang::Pl) {
        Some(Lang::Pl)
    } else if c == spec_code(Lang::Ru) {
        Some(Lang::Ru)
    } else if c == spec_code(Lang::Uk) {
        Some(Lang::Uk)
    } else if c == spec_code(Lang::Tr) {
        Some(Lang::Tr)
    } else if c == spec_code(Lang::Id) {
        Some(Lang::Id)
    } else if c == spec_code(Lang::Vi) {
        Some(Lang::Vi)
    } else if c == spec_code(Lang::ZhCn) {
        Some(Lang::ZhCn)
    } else if c == spec_code(Lang::ZhTw) {
        Some(Lang::ZhTw)
    } else if c == spec_code(Lang::Ja) {
        Some(Lang::Ja)
    } else if c == spec_code(Lang::Ko) {
        Some(Lang::Ko)
    } else {
        None
    }
}

/// The language that a locale such as `fr`, `fr_FR.UTF-8`, `pt-BR` or
/// `zh-Hant-HK` selects: Chinese is traditional when a later subtag is
/// `Hant`, `TW`, `HK` or `MO` and simplified otherwise, any Portuguese is
/// Brazilian, and any other primary subtag must be a language code.
pub open spec fn spec_from_locale(s: Seq<char>) -> Option<Lang> {
    let h = locale_head(s);
    let language = locale_language(s);
    if language == "zh"@ {
        if has_subtag(h, "hant"@) || has_subtag(h, "tw"@) || has_subtag(h, "hk"@)
            || has_subtag(h, "mo"@) {
            Some(Lang::ZhTw)
        } else {
            Some(Lang::ZhCn)
        }
    } else if language == "pt"@ {
        Some(Lang::PtBr)
    } else {
        lang_with_code(language)
    }
}

/// The position of the first character of `s` before `end` that is a cut
/// (`cut == true`) or a separator (`cut == false`), or `end`.
fn find_first(s: &[char], end: usize, cut: bool) -> (i: usize)
    requires
        end <= s@.len(),
    ensures
        cut ==> i == first_index(s@.take(end as int), |c: char| is_cut(c)),
        !cut ==> i == first_index(s@.take(end as int), |c: char| is_sep(c)),
        i <= end,
{
    let ghost p: spec_fn(char) -> bool = if cut {
        |c: char| is_cut(c)
    } else {
        |c: char| is_sep(c)
    };
    let ghost t = s@.take(end as int);
    let mut i: usize = 0;
    while i < end
        invariant
            i <= end <= s@.len(),
            t == s@.take(end as int),
            p == (if cut { |c: char| is_cut(c) } else { |c: char| is_sep(c) }),
            forall|j: int| 0 <= j < i ==> !p(#[trigger] t[j]),
        decreases end - i,
    {
        let c = s[i];
        let hit = if cut {
            c == '.' || c == '@'
        } else {
            c == '-' || c == '_'
        };
        if hit {
            assert(p(t[i as int]));
            proof {
                lemma_first_index(t, p, i as int);
            }
            return i;
        }
        i += 1;
    }
    proof {
        lemma_first_index(t, p, end as int);
    }
    end
}

/// Whether `h[k..k + tag.len()]` equals `tag` up to ASCII case.
fn lower_matches(h: &[char], k: usize, tag: &[char]) -> (out: bool)
    requires
        k + tag@.len() <= h@.len(),
    ensures
        out == (lower(h@.subrange(k as int, k + tag@.len())) == tag@),
{
    let ghost part = h@.subrange(k as int, k + tag@.len());
    let hl = h.len();
    let mut m: usize = 0;
    while m < tag.len()
        invariant
            hl == h@.len(),
            k + tag@.len() <= h@.len(),
            m <= tag@.len(),
            part == h@.subrange(k as int, k + tag@.len()),
            forall|j: int| 0 <= j < m ==> lower(part)[j] == tag@[j],
        decreases tag@.len() - m,
    {
        if to_lower_char(h[k + m]) != tag[m] {
            assert(lower(part)[m as int] != tag@[m as int]);
            return false;
        }
        m += 1;
    }
    assert(lower(part) =~= tag@);
    true
}

/// Whether a subtag after the first of `h[..end]` equals `tag` up to case.
fn has_subtag_exec(h: &[char], end: usize, tag: &str) -> (out: bool)
    requires
        end <= h@.len(),
        tag@.len() > 0,
    ensures
        out == has_subtag(h@.take(end as int), tag@),
{
    let t = chars_of(tag);
    let ghost head = h@.take(end as int);
    let n = t.len();
    if n > end {
        assert forall|k: int| !#[trigger] subtag_at(head, k, tag@) by {}
        return false;
    }
    let mut k: usize = 1;
    while k <= end - n
        invariant
            t@ == tag@,
            n == t@.len(),
            1 <= n <= end <= h@.len(),
            1 <= k <= end - n + 1,
            head == h@.take(end as int),
            forall|j: int| 0 <= j < k ==> !#[trigger] subtag_at(head, j, tag@),
        decreases end + 1 - k,
    {
        let before = h[k - 1];
        let boundary = k + n == end || h[k + n] == '-' || h[k + n] == '_';
        if (before == '-' || before == '_') && boundary {
            let same = lower_matches(h, k, &t);
            assert(h@.subrange(k as int, k + n) =~= head.subrange(k as int, k + n));
            if same {
                assert(subtag_at(head, k as int, tag@));
                return true;
            }
        }
        assert(!subtag_at(head, k as int, tag@));
        k += 1;
    }
    assert forall|j: int| !#[trigger] subtag_at(head, j, tag@) by {
        if j >= k {
            assert(j + tag@.len() > head.len());
        }
    }
    false
}

/// The language with code `c`, matched exactly.
fn lang_with_code_exec(c: &[char]) -> (out: Option<Lang>)
    ensures
        out == lang_with_code(c@),
{
    if chars_equal(c, Lang::En.code()) {
        Some(Lang::En)
    } else if chars_equal(c, Lang::Fr.code()) {
        Some(Lang::Fr)
    } else if chars_equal(c, Lang::De.code()) {
        Some(Lang::De)
    } else if chars_equal(c, Lang::Es.code()) {
        Some(Lang::Es)
    } else if chars_equal(c, Lang::It.code()) {
        Some(Lang::It)
    } else if chars_equal(c, Lang::PtBr.code()) {
        Some(Lang::PtBr)
    } else if chars_equal(c, Lang::Nl.code()) {
        Some(Lang::Nl)
    } else if chars_equal(c, Lang::Pl.code()) {
        Some(Lang::Pl)
    } else if chars_equal(c, Lang::Ru.code()) {
        Some(Lang::Ru)
    } else if chars_equal(c, Lang::Uk.code()) {
        Some(Lang::Uk)
    } else if chars_equal(c, Lang::Tr.code()) {
        Some(Lang::Tr)
    } else if chars_equal(c, Lang::Id.code()) {
        Some(Lang::Id)
    } else if chars_equal(c, Lang::Vi.code()) {
        Some(Lang::Vi)
    } else if chars_equal(c, Lang::ZhCn.code()) {
        Some(Lang::ZhCn)
    } else if chars_equal(c, Lang::ZhTw.code()) {
        Some(Lang::ZhTw)
    } else if chars_equal(c, Lang::Ja.code()) {
        Some(Lang::Ja)
    } else if chars_equal(c, Lang::Ko.code()) {
        Some(Lang::Ko)
    } else {
        None
    }
}

impl Lang {
    /// Parses a locale such as `fr`, `fr_FR.UTF-8`, `pt-BR` or `zh-Hant-HK`.
    pub fn from_locale(locale: &str) -> (out: Option<Lang>)
        ensures
            out == spec_from_locale(locale@),
    {
        let s = chars_of(locale);
        let cut = find_first(&s, s.len(), true);
        let sep = find_first(&s, cut, false);
        let ghost h = locale_head(locale@);
        assert(s@.take(s@.len() as int) =~= s@);
        assert(h == s@.take(cut as int));
        let mut language: Vec<char> = Vec::new();
        let mut i: usize = 0;
        while i < sep
            invariant
                sep <= cut <= s@.len(),
                i <= sep,
                language@ == lower(s@.take(i as int)),
            decreases sep - i,
        {
            language.push(to_lower_char(s[i]));
            i += 1;
            assert(lower(s@.take(i as int)) =~= lower(s@.take(i - 1)).push(lower_char(s@[i - 1])));
        }
        assert(s@.take(cut as int).take(sep as int) =~= s@.take(sep as int));
        assert(language@ == locale_language(locale@));
        proof {
            reveal_strlit("hant");
            reveal_strlit("tw");
            reveal_strlit("hk");
            reveal_strlit("mo");
        }
        if chars_equal(&language, "zh") {
            if has_subtag_exec(&s, cut, "hant") || has_subtag_exec(&s, cut, "tw")
                || has_subtag_exec(&s, cut, "hk") || has_subtag_exec(&s, cut, "mo") {
                Some(Lang::ZhTw)
            } else {
                Some(Lang::ZhCn)
            }
        } else if chars_equal(&language, "pt") {
            Some(Lang::PtBr)
        } else {
            lang_with_code_exec(&language)
        }
    }
}

/// Whether `c` is an ASCII digit.
pub open spec fn is_digit(c: char) -> bool {
    '0' <= c && c <= '9'
}

/// The number written by the decimal digits `s`.
pub open spec fn digits_value(s: Seq<char>) -> nat
    decreases s.len(),
{
    if s.len() == 0 {
        0
    } else {
        digits_value(s.drop_last()) * 10 + ((s.last() as nat) - ('0' as nat)) as nat
    }
}

/// The digits of an unsigned number: without its leading `+`, if any.
pub open spec fn unsigned_digits(s: Seq<char>) -> Seq<char> {
    if s.len() > 0 && s[0] == '+' {
        s.drop_first()
    } else {
        s
    }
}

/// Whether every character of `d` is an ASCII digit.
pub open spec fn all_digits(d: Seq<char>) -> bool {
    forall|i: int| 0 <= i < d.len() ==> is_digit(#[trigger] d[i])
}

/// `str::parse::<usize>`: an optional `+`, then at least one ASCII digit,
/// and a value that fits in `usize`.
pub open spec fn spec_parse_usize(s: Seq<char>) -> Option<nat> {
    let d = unsigned_digits(s);
    if d.len() > 0 && all_digits(d) && digits_value(d) <= usize::MAX {
        Some(digits_value(d))
    } else {
        None
    }
}

/// The arguments of a template as characters: a name (for `{name}`) and
/// the text that stands for the argument.
pub open spec fn args_view(args: Seq<(Option<&str>, &str)>) -> Seq<(Option<Seq<char>>, Seq<char>)> {
    args.map_values(
        |a: (Option<&str>, &str)|
            (
                match a.0 {
                    Some(n) => Some(n@),
                    None => None,
                },
                a.1@,
            ),
    )
}

/// The value of the first argument named `name`.
pub open spec fn find_named(args: Seq<(Option<Seq<char>>, Seq<char>)>, name: Seq<char>) -> Option<
    Seq<char>,
>
    decreases args.len(),
{
    if args.len() == 0 {
        None
    } else if args[0].0 == Some(name) {
        Some(args[0].1)
    } else {
        find_named(args.drop_first(), name)
    }
}

/// The argument at position `i`, if any.
pub open spec fn positional(args: Seq<(Option<Seq<char>>, Seq<char>)>, i: nat) -> Option<Seq<char>> {
    if i < args.len() {
        Some(args[i as int].1)
    } else {
        None
    }
}

/// What the placeholder `{inner}` stands for, and the position of the next
/// `{}` argument after it: `{}` takes the next argument, `{3}` the fourth
/// one, `{name}` the first argument with that name.
pub open spec fn placeholder(args: Seq<(Option<Seq<char>>, Seq<char>)>, inner: Seq<char>, next: nat) -> (
    Option<Seq<char>>,
    nat,
) {
    if inner.len() == 0 {
        (positional(args, next), next + 1)
    } else {
        match spec_parse_usize(inner) {
            Some(i) => (positional(args, i), next),
            None => (find_named(args, inner), next),
        }
    }
}

/// The filled template `s`, when the next `{}` takes argument `next`:
/// `{{` and `}}` stand for a brace, a placeholder with no argument stays as
/// written, and an unmatched brace is kept.
pub open spec fn format_from(s: Seq<char>, args: Seq<(Option<Seq<char>>, Seq<char>)>, next: nat) -> Seq<
    char,
>
    decreases s.len(),
{
    if s.len() == 0 {
        Seq::empty()
    } else {
        let c = s[0];
        if c != '{' && c != '}' {
            seq![c] + format_from(s.drop_first(), args, next)
        } else if s.len() >= 2 && s[1] == c {
            seq![c] + format_from(s.skip(2), args, next)
        } else {
            let end = first_index(s, |x: char| x == '}');
            if c == '{' && end < s.len() {
                let (value, after) = placeholder(args, s.subrange(1, end as int), next);
                let text = match value {
                    Some(v) => v,
                    None => s.take(end + 1int),
                };
                text + format_from(s.skip(end + 1int), args, after)
            } else {
                seq![c] + format_from(s.drop_first(), args, next)
            }
        }
    }
}

proof fn lemma_digits_monotone(d: Seq<char>, k: int)
    requires
        0 <= k <= d.len(),
        forall|i: int| 0 <= i < d.len() ==> is_digit(#[trigger] d[i]),
    ensures
        digits_value(d.take(k)) <= digits_value(d),
    decreases d.len() - k,
{
    if k < d.len() {
        let e = d.take(k + 1);
        assert(e.drop_last() =~= d.take(k));
        assert(is_digit(d[k]));
        lemma_digits_monotone(d, k + 1);
    } else {
        assert(d.take(k) =~= d);
    }
}

proof fn lemma_parse_none(t: Seq<char>, d: Seq<char>, j: int)
    requires
        d == unsigned_digits(t),
        0 <= j < d.len(),
        !is_digit(d[j]),
    ensures
        spec_parse_usize(t) is None,
{
    assert(!all_digits(d));
}

proof fn lemma_parse_too_large(t: Seq<char>, d: Seq<char>)
    requires
        d == unsigned_digits(t),
        digits_value(d) > usize::MAX,
    ensures
        spec_parse_usize(t) is None,
{
}

/// `str::parse::<usize>` on the characters `s[from..to]`.
fn parse_usize(s: &[char], from: usize, to: usize) -> (out: Option<usize>)
    requires
        from <= to <= s@.len(),
    ensures
        match spec_parse_usize(s@.subrange(from as int, to as int)) {
            Some(v) => out == Some(v as usize),
            None => out is None,
        },
{
    let ghost t = s@.subrange(from as int, to as int);
    let mut i = from;
    if i < to && s[i] == '+' {
        i += 1;
    }
    let ghost d = s@.subrange(i as int, to as int);
    assert(d =~= unsigned_digits(t));
    if i == to {
        assert(d.len() == 0);
        return None;
    }
    assert(d.take(0) =~= Seq::<char>::empty());
    let mut value: usize = 0;
    let mut k = i;
    while k < to
        invariant
            from <= i <= k <= to <= s@.len(),
            d == s@.subrange(i as int, to as int),
            t == s@.subrange(from as int, to as int),
            d == unsigned_digits(t),
            d.len() > 0,
            forall|j: int| 0 <= j < k - i ==> is_digit(#[trigger] d[j]),
            value as nat == digits_value(d.take(k - i)),
        decreases to - k,
    {
        let c = s[k];
        if c < '0' || c > '9' {
            assert(!is_digit(d[k - i]));
            proof {
                lemma_parse_none(t, d, (k - i) as int);
            }
            return None;
        }
        let digit = (c as u32 - '0' as u32) as usize;
        assert(d.take(k - i + 1).drop_last() =~= d.take(k - i));
        assert(d[k - i] == c);
        assert(digits_value(d.take(k - i + 1)) == digits_value(d.take(k - i)) * 10 + digit);
        if value > (usize::MAX - digit) / 10 {
            proof {
                assert(value * 10 + digit > usize::MAX) by (nonlinear_arith)
                    requires
                        value > (usize::MAX - digit) / 10,
                        digit <= 9,
                ;
                let ghost m = k - i + 1;
                if forall|j: int| 0 <= j < d.len() ==> is_digit(#[trigger] d[j]) {
                    lemma_digits_monotone(d, m);
                    assert(digits_value(d) > usize::MAX);
                    lemma_parse_too_large(t, d);
                } else {
                    let j = choose|j: int| 0 <= j < d.len() && !is_digit(#[trigger] d[j]);
                    lemma_parse_none(t, d, j);
                }
            }
            return None;
        }
        value = value * 10 + digit;
        k += 1;
    }
    assert(d.take(k - i) =~= d);
    Some(value)
}

/// The value of the first argument named `s[from..to]`.
fn find_named_exec(args: &[(Option<&str>, &str)], s: &[char], from: usize, to: usize) -> (out:
    Option<Vec<char>>)
    requires
        from <= to <= s@.len(),
    ensures
        match find_named(args_view(args@), s@.subrange(from as int, to as int)) {
            Some(v) => out is Some && out->0@ == v,
            None => out is None,
        },
{
    let ghost name = s@.subrange(from as int, to as int);
    let mut inner: Vec<char> = Vec::new();
    let mut k = from;
    while k < to
        invariant
            from <= k <= to <= s@.len(),
            inner@ == s@.subrange(from as int, k as int),
        decreases to - k,
    {
        inner.push(s[k]);
        k += 1;
    }
    let mut i: usize = 0;
    assert(args_view(args@).skip(0) =~= args_view(args@));
    while i < args.len()
        invariant
            i <= args@.len(),
            inner@ == name,
            name == s@.subrange(from as int, to as int),
            find_named(args_view(args@), name) == find_named(args_view(args@).skip(i as int), name),
        decreases args@.len() - i,
    {
        assert(args_view(args@).skip(i as int).drop_first() =~= args_view(args@).skip(i + 1));
        assert(args_view(args@).skip(i as int)[0] == args_view(args@)[i as int]);
        match args[i].0 {
            Some(n) => {
                if chars_equal(&inner, n) {
                    let v = chars_of(args[i].1);
                    assert(args_view(args@)[i as int].0 == Some(n@));
                    assert(find_named(args_view(args@).skip(i as int), name) == Some(
                        args@[i as int].1@,
                    ));
                    assert(v@ == args@[i as int].1@);
                    return Some(v);
                }
            },
            None => {
                assert(args_view(args@)[i as int].0 is None);
            },
        }
        i += 1;
    }
    assert(args_view(args@).skip(i as int) =~= Seq::<(Option<Seq<char>>, Seq<char>)>::empty());
    None
}

/// Fills the placeholders of a translated template; see the module docs.
/// Each argument is a name (for `{name}`) and the text that stands for it.
pub fn format(template: &str, args: &[(Option<&str>, &str)]) -> (out: String)
    ensures
        out@ == format_from(template@, args_view(args@), 0),
{
    let s = chars_of(template);
    let mut out: Vec<char> = Vec::new();
    let mut next: usize = 0;
    let mut i: usize = 0;
    assert(s@.skip(0) =~= s@);
    assert(out@ + format_from(s@.skip(0), args_view(args@), 0) =~= format_from(template@, args_view(args@), 0));
    while i < s.len()
        invariant
            s@ == template@,
            i <= s@.len(),
            next <= i,
            out@ + format_from(s@.skip(i as int), args_view(args@), next as nat) == format_from(
                template@,
                args_view(args@),
                0,
            ),
        decreases s@.len() - i,
    {
        let ghost rest = s@.skip(i as int);
        let ghost before = out@;
        let c = s[i];
        assert(rest[0] == c);
        if c != '{' && c != '}' {
            out.push(c);
            assert(rest.drop_first() =~= s@.skip(i + 1));
            i += 1;
            assert(out@ + format_from(s@.skip(i as int), args_view(args@), next as nat) =~= before
                + format_from(rest, args_view(args@), next as nat));
        } else if i + 1 < s.len() && s[i + 1] == c {
            out.push(c);
            assert(rest.skip(2) =~= s@.skip(i + 2));
            assert(rest[1] == s@[i + 1]);
            i += 2;
            assert(out@ + format_from(s@.skip(i as int), args_view(args@), next as nat) =~= before
                + format_from(rest, args_view(args@), next as nat));
        } else {
            let mut j = i;
            while j < s.len() && s[j] != '}'
                invariant
                    i <= j <= s@.len(),
                    rest == s@.skip(i as int),
                    forall|m: int| i <= m < j ==> s@[m] != '}',
                decreases s@.len() - j,
            {
                j += 1;
            }
            let ghost p = |x: char| x == '}';
            proof {
                assert forall|m: int| 0 <= m < j - i implies !p(#[trigger] rest[m]) by {
                    assert(rest[m] == s@[i + m]);
                }
                if j < s@.len() {
                    assert(rest[j - i] == s@[j as int]);
                }
                lemma_first_index(rest, p, j - i);
            }
            if c == '{' && j < s.len() {
                let ghost inner = rest.subrange(1, (j - i) as int);
                assert(inner =~= s@.subrange(i + 1, j as int));
                let ghost (gv, gafter) = placeholder(args_view(args@), inner, next as nat);
                let mut value: Option<Vec<char>> = None;
                if j == i + 1 {
                    if next < args.len() {
                        value = Some(chars_of(args[next].1));
                    }
                    next += 1;
                } else {
                    match parse_usize(&s, i + 1, j) {
                        Some(k) => {
                            if k < args.len() {
                                value = Some(chars_of(args[k].1));
                            }
                        },
                        None => {
                            value = find_named_exec(args, &s, i + 1, j);
                        },
                    }
                }
                assert(next as nat == gafter);
                match value {
                    Some(v) => {
                        assert(v@ == gv->0);
                        append_chars(&mut out, &v);
                    },
                    None => {
                        assert(gv is None);
                        let n = s.len();
                        let mut m = i;
                        while m <= j
                            invariant
                                i <= m <= j + 1,
                                j < s@.len(),
                                n == s@.len(),
                                out@ == before + s@.subrange(i as int, m as int),
                            decreases j + 1 - m,
                        {
                            out.push(s[m]);
                            m += 1;
                        }
                        assert(s@.subrange(i as int, j + 1) =~= rest.take(j - i + 1));
                    },
                }
                assert(rest.skip(j - i + 1) =~= s@.skip(j + 1));
                i = j + 1;
            } else {
                out.push(c);
                assert(rest.drop_first() =~= s@.skip(i + 1));
                i += 1;
                assert(out@ + format_from(s@.skip(i as int), args_view(args@), next as nat) =~= before
                    + format_from(rest, args_view(args@), next as nat));
            }
        }
    }
    assert(s@.skip(i as int) =~= Seq::<char>::empty());
    assert(out@ + format_from(s@.skip(i as int), args_view(args@), next as nat) =~= out@);
    string_of(&out)
}

/// The entries of a string-to-string JSON object, in key order, or `None`
/// when the text is not such an object (what `serde_json` parses).
pub uninterp spec fn json_string_object(text: Seq<char>) -> Option<Seq<(Seq<char>, Seq<char>)>>;

/// The characters of both strings of each pair.
pub open spec fn pairs_view(v: Seq<(String, String)>) -> Seq<(Seq<char>, Seq<char>)> {
    v.map_values(|e: (String, String)| (e.0@, e.1@))
}

/// Parses a JSON object whose values are strings with
/// `serde_json::from_str::<BTreeMap<String, String>>`. The entries come out
/// in key order, each key once, as a map holds them; the result is named,
/// not described.
#[verifier::external_body]
fn parse_string_object(text: &str) -> (out: Option<Vec<(String, String)>>)
    ensures
        match out {
            Some(v) => json_string_object(text@) == Some(pairs_view(v@)),
            None => json_string_object(text@) is None,
        },
        out matches Some(v) ==> keys_distinct(pairs_view(v@)),
{
    serde_json::from_str::<BTreeMap<String, String>>(text).ok().map(|m| m.into_iter().collect())
}

/// The entries of `s` whose translation is not empty, in order.
pub open spec fn nonempty_entries(s: Seq<(Seq<char>, Seq<char>)>) -> Seq<(Seq<char>, Seq<char>)>
    decreases s.len(),
{
    if s.len() == 0 {
        s
    } else if s.last().1.len() > 0 {
        nonempty_entries(s.drop_last()).push(s.last())
    } else {
        nonempty_entries(s.drop_last())
    }
}

/// The entries kept by [`nonempty_entries`] are entries of `s` with a
/// non-empty translation, so distinct keys stay distinct.
proof fn lemma_nonempty_entries(s: Seq<(Seq<char>, Seq<char>)>)
    ensures
        forall|k: int|
            0 <= k < nonempty_entries(s).len() ==> (#[trigger] nonempty_entries(s)[k]).1.len() > 0
                && exists|j: int| 0 <= j < s.len() && s[j] == nonempty_entries(s)[k],
        keys_distinct(s) ==> keys_distinct(nonempty_entries(s)),
    decreases s.len(),
{
    if s.len() > 0 {
        let r = s.drop_last();
        lemma_nonempty_entries(r);
        let ne = nonempty_entries(s);
        let nr = nonempty_entries(r);
        assert forall|k: int| 0 <= k < ne.len() implies (#[trigger] ne[k]).1.len() > 0 && exists|j: int|
            0 <= j < s.len() && s[j] == ne[k] by {
            if k < nr.len() {
                assert(ne[k] == nr[k]);
                let j = choose|j: int| 0 <= j < r.len() && r[j] == nr[k];
                assert(s[j] == r[j]);
            } else {
                assert(ne[k] == s.last());
                assert(s[s.len() - 1] == ne[k]);
            }
        }
        if keys_distinct(s) {
            assert(keys_distinct(r)) by {
                assert forall|a: int, b: int| #![trigger r[a], r[b]] 0 <= a < b < r.len() implies r[a].0
                    != r[b].0 by {
                    assert(r[a] == s[a] && r[b] == s[b]);
                }
            }
            assert forall|a: int, b: int| #![trigger ne[a], ne[b]] 0 <= a < b < ne.len() implies ne[a].0
                != ne[b].0 by {
                if b >= nr.len() {
                    assert(ne[a] == nr[a]);
                    let j = choose|j: int| 0 <= j < r.len() && r[j] == nr[a];
                    assert(s[j] == r[j]);
                    assert(ne[b] == s[s.len() - 1]);
                } else {
                    assert(ne[a] == nr[a] && ne[b] == nr[b]);
                }
            }
        }
    }
}

/// The translation of `key`: the first entry with that key.
pub open spec fn lookup(s: Seq<(Seq<char>, Seq<char>)>, key: Seq<char>) -> Option<Seq<char>>
    decreases s.len(),
{
    if s.len() == 0 {
        None
    } else if s[0].0 == key {
        Some(s[0].1)
    } else {
        lookup(s.drop_first(), key)
    }
}

/// The translations of one language: English messages and their text.
pub struct Catalog {
    lang: Lang,
    entries: Vec<(String, String)>,
}

impl Catalog {
    /// Each English message once, each with a translation.
    #[verifier::type_invariant]
    spec fn well_formed(self) -> bool {
        &&& keys_distinct(pairs_view(self.entries@))
        &&& forall|j: int| 0 <= j < self.entries@.len() ==> (#[trigger] self.entries@[j]).1@.len() > 0
    }

    /// The language of the catalog.
    pub closed spec fn spec_lang(&self) -> Lang {
        self.lang
    }

    /// The English messages and their translations, in order.
    pub closed spec fn spec_entries(&self) -> Seq<(Seq<char>, Seq<char>)> {
        pairs_view(self.entries@)
    }

    /// A catalog with no translation: every message stays in English.
    pub fn empty(lang: Lang) -> (out: Catalog)
        ensures
            out.spec_lang() == lang,
            out.spec_entries() == Seq::<(Seq<char>, Seq<char>)>::empty(),
    {
        let out = Catalog { lang, entries: Vec::new() };
        assert(out.spec_entries() =~= Seq::<(Seq<char>, Seq<char>)>::empty());
        out
    }

    /// The catalog of `lang` read from its JSON source: an object from
    /// English messages to translations. Empty translations are dropped, so
    /// those messages fall back to English. `None` when the text is not such
    /// an object.
    pub fn from_json(lang: Lang, text: &str) -> (out: Option<Catalog>)
        ensures
            match json_string_object(text@) {
                Some(parsed) => out is Some && out->0.spec_lang() == lang
                    && out->0.spec_entries() == nonempty_entries(parsed),
                None => out is None,
            },
    {
        let parsed = match parse_string_object(text) {
            Some(v) => v,
            None => return None,
        };
        let mut entries: Vec<(String, String)> = Vec::new();
        let mut i: usize = 0;
        while i < parsed.len()
            invariant
                i <= parsed@.len(),
                pairs_view(entries@) == nonempty_entries(pairs_view(parsed@).take(i as int)),
            decreases parsed@.len() - i,
        {
            let ghost before = entries@;
            let (key, value) = (parsed[i].0.clone(), parsed[i].1.clone());
            assert(pairs_view(parsed@).take(i + 1).drop_last() =~= pairs_view(parsed@).take(
                i as int,
            ));
            if value.as_str().is_empty() == false {
                entries.push((key, value));
                assert(pairs_view(entries@) =~= pairs_view(before).push(
                    pairs_view(parsed@)[i as int],
                ));
            }
            i += 1;
        }
        assert(pairs_view(parsed@).take(parsed@.len() as int) =~= pairs_view(parsed@));
        proof {
            lemma_nonempty_entries(pairs_view(parsed@));
            assert forall|j: int| 0 <= j < entries@.len() implies (#[trigger] entries@[j]).1@.len() > 0 by {
                assert(pairs_view(entries@)[j].1 == entries@[j].1@);
            }
        }
        Some(Catalog { lang, entries })
    }

    /// The language of the catalog.
    pub fn lang(&self) -> (out: Lang)
        ensures
            out == self.spec_lang(),
    {
        self.lang
    }
}

/// `english` in the catalog's language: the message itself for English,
/// otherwise its translation, or the message itself when it has none.
pub open spec fn spec_t(lang: Lang, entries: Seq<(Seq<char>, Seq<char>)>, english: Seq<char>) -> Seq<
    char,
> {
    if lang == Lang::En {
        english
    } else {
        match lookup(entries, english) {
            Some(v) => v,
            None => english,
        }
    }
}

/// Translates an English message into the catalog's language.
pub fn t<'a>(catalog: &'a Catalog, english: &'a str) -> (out: &'a str)
    ensures
        out@ == spec_t(catalog.spec_lang(), catalog.spec_entries(), english@),
{
    if catalog.lang == Lang::En {
        return english;
    }
    let key = english.to_owned();
    let mut i: usize = 0;
    assert(catalog.spec_entries().skip(0) =~= catalog.spec_entries());
    while i < catalog.entries.len()
        invariant
            i <= catalog.entries@.len(),
            key@ == english@,
            catalog.spec_lang() != Lang::En,
            lookup(catalog.spec_entries(), english@) == lookup(
                catalog.spec_entries().skip(i as int),
                english@,
            ),
        decreases catalog.entries@.len() - i,
    {
        assert(catalog.spec_entries().skip(i as int).drop_first() =~= catalog.spec_entries().skip(
            i + 1,
        ));
        assert(catalog.spec_entries().skip(i as int)[0] == catalog.spec_entries()[i as int]);
        assert(catalog.spec_entries()[i as int] == (
            catalog.entries@[i as int].0@,
            catalog.entries@[i as int].1@,
        ));
        if catalog.entries[i].0 == key {
            let out = catalog.entries[i].1.as_str();
            assert(lookup(catalog.spec_entries().skip(i as int), english@) == Some(out@));
            return out;
        }
        i += 1;
    }
    assert(catalog.spec_entries().skip(i as int) =~= Seq::<(Seq<char>, Seq<char>)>::empty());
    english
}

impl Lang {
    /// Every translated message of the language, e.g. to check that a font
    /// covers them: none for English, the source language, whose messages
    /// are never looked up; otherwise each translation of the catalog once.
    pub fn texts(self, catalog: &Catalog) -> (out: Vec<String>)
        requires
            catalog.spec_lang() == self,
        ensures
            self == Lang::En ==> out@.len() == 0,
            self != Lang::En ==> out@.len() == catalog.spec_entries().len(),
            forall|j: int|
                0 <= j < out@.len() ==> #[trigger] out@[j]@ == catalog.spec_entries()[j].1,
            forall|j: int| 0 <= j < out@.len() ==> (#[trigger] out@[j])@.len() > 0,
            keys_distinct(catalog.spec_entries()),
    {
        proof {
            use_type_invariant(catalog);
        }
        if self == Lang::En {
            return Vec::new();
        }
        let mut out: Vec<String> = Vec::new();
        let mut i: usize = 0;
        while i < catalog.entries.len()
            invariant
                i <= catalog.entries@.len(),
                out@.len() == i,
                forall|j: int| 0 <= j < i ==> #[trigger] out@[j]@ == catalog.spec_entries()[j].1,
                forall|j: int| 0 <= j < catalog.entries@.len() ==> (#[trigger] catalog.entries@[j]).1@.len() > 0,
            decreases catalog.entries@.len() - i,
        {
            assert(catalog.spec_entries()[i as int].1 == catalog.entries@[i as int].1@);
            out.push(catalog.entries[i].1.clone());
            i += 1;
        }
        out
    }

    /// The first of the system's preferred locales that names a supported
    /// language, English otherwise.
    pub fn system() -> (out: Lang)
        ensures
            exists|locales: Seq<Seq<char>>| out == first_supported(locales),
    {
        let locales = system_locales();
        Lang::first_supported(&locales)
    }

    /// The language of the first locale of `locales` that names one,
    /// English when none does.
    pub fn first_supported(locales: &[String]) -> (out: Lang)
        ensures
            out == first_supported(locales@.map_values(|l: String| l@)),
    {
        let ghost all = locales@.map_values(|l: String| l@);
        let mut i: usize = 0;
        assert(all.skip(0) =~= all);
        while i < locales.len()
            invariant
                i <= locales@.len(),
                all == locales@.map_values(|l: String| l@),
                first_supported(all) == first_supported(all.skip(i as int)),
            decreases locales@.len() - i,
        {
            assert(all.skip(i as int).drop_first() =~= all.skip(i + 1));
            assert(all.skip(i as int)[0] == locales@[i as int]@);
            if let Some(l) = Lang::from_locale(locales[i].as_str()) {
                return l;
            }
            i += 1;
        }
        assert(all.skip(i as int) =~= Seq::<Seq<char>>::empty());
        Lang::En
    }
}

/// The language of the first locale that names one, English otherwise.
pub open spec fn first_supported(locales: Seq<Seq<char>>) -> Lang
    decreases locales.len(),
{
    if locales.len() == 0 {
        Lang::En
    } else {
        match spec_from_locale(locales[0]) {
            Some(l) => l,
            None => first_supported(locales.drop_first()),
        }
    }
}

/// The system's preferred locales, most preferred first
/// (`sys_locale::get_locales`). They depend on the machine, so nothing is
/// stated of them.
#[verifier::external_body]
fn system_locales() -> Vec<String> {
    sys_locale::get_locales().collect()
}


/// ASCII upper case of one character.
pub open spec fn upper_char(c: char) -> char {
    if 'a' <= c && c <= 'z' {
        ((c as u32) - 32) as char
    } else {
        c
    }
}

/// A tag spelled as POSIX locales are: upper case, with `_` between its
/// subtags (`PT_BR`).
pub open spec fn posix_spelling(s: Seq<char>) -> Seq<char> {
    s.map_values(|c: char| if c == '-' { '_' } else { upper_char(c) })
}

proof fn lemma_head_language(s: Seq<char>, n: int, m: int)
    requires
        0 <= n <= m <= s.len(),
        forall|j: int| 0 <= j < m ==> !is_cut(#[trigger] s[j]),
        m == s.len() || is_cut(s[m]),
        forall|j: int| 0 <= j < n ==> !is_sep(#[trigger] s[j]),
        n == m || is_sep(s[n]),
    ensures
        locale_head(s) == s.take(m),
        locale_language(s) == lower(s.take(n)),
{
    lemma_first_index(s, |c: char| is_cut(c), m);
    let h = s.take(m);
    assert forall|j: int| 0 <= j < n implies !is_sep(#[trigger] h[j]) by {
        assert(h[j] == s[j]);
    }
    if n < m {
        assert(h[n] == s[n]);
    }
    lemma_first_index(h, |c: char| is_sep(c), n);
    assert(h.take(n) =~= s.take(n));
}

proof fn lemma_code_chars()
    ensures
        spec_code(Lang::En).len() == 2,
        spec_code(Lang::En)[0] == 'e',
        spec_code(Lang::En)[1] == 'n',
        spec_code(Lang::Fr).len() == 2,
        spec_code(Lang::Fr)[0] == 'f',
        spec_code(Lang::Fr)[1] == 'r',
        spec_code(Lang::De).len() == 2,
        spec_code(Lang::De)[0] == 'd',
        spec_code(Lang::De)[1] == 'e',
        spec_code(Lang::Es).len() == 2,
        spec_code(Lang::Es)[0] == 'e',
        spec_code(Lang::Es)[1] == 's',
        spec_code(Lang::It).len() == 2,
        spec_code(Lang::It)[0] == 'i',
        spec_code(Lang::It)[1] == 't',
        spec_code(Lang::PtBr).len() == 5,
        spec_code(Lang::PtBr)[0] == 'p',
        spec_code(Lang::PtBr)[1] == 't',
        spec_code(Lang::PtBr)[2] == '-',
        spec_code(Lang::PtBr)[3] == 'B',
        spec_code(Lang::PtBr)[4] == 'R',
        spec_code(Lang::Nl).len() == 2,
        spec_code(Lang::Nl)[0] == 'n',
        spec_code(Lang::Nl)[1] == 'l',
        spec_code(Lang::Pl).len() == 2,
        spec_code(Lang::Pl)[0] == 'p',
        spec_code(Lang::Pl)[1] == 'l',
        spec_code(Lang::Ru).len() == 2,
        spec_code(Lang::Ru)[0] == 'r',
        spec_code(Lang::Ru)[1] == 'u',
        spec_code(Lang::Uk).len() == 2,
        spec_code(Lang::Uk)[0] == 'u',
        spec_code(Lang::Uk)[1] == 'k',
        spec_code(Lang::Tr).len() == 2,
        spec_code(Lang::Tr)[0] == 't',
        spec_code(Lang::Tr)[1] == 'r',
        spec_code(Lang::Id).len() == 2,
        spec_code(Lang::Id)[0] == 'i',
        spec_code(Lang::Id)[1] == 'd',
        spec_code(Lang::Vi).len() == 2,
        spec_code(Lang::Vi)[0] == 'v',
        spec_code(Lang::Vi)[1] == 'i',
        spec_code(Lang::ZhCn).len() == 5,
        spec_code(Lang::ZhCn)[0] == 'z',
        spec_code(Lang::ZhCn)[1] == 'h',
        spec_code(Lang::ZhCn)[2] == '-',
        spec_code(Lang::ZhCn)[3] == 'C',
        spec_code(Lang::ZhCn)[4] == 'N',
        spec_code(Lang::ZhTw).len() == 5,
        spec_code(Lang::ZhTw)[0] == 'z',
        spec_code(Lang::ZhTw)[1] == 'h',
        spec_code(Lang::ZhTw)[2] == '-',
        spec_code(Lang::ZhTw)[3] == 'T',
        spec_code(Lang::ZhTw)[4] == 'W',
        spec_code(Lang::Ja).len() == 2,
        spec_code(Lang::Ja)[0] == 'j',
        spec_code(Lang::Ja)[1] == 'a',
        spec_code(Lang::Ko).len() == 2,
        spec_code(Lang::Ko)[0] == 'k',
        spec_code(Lang::Ko)[1] == 'o',
        "zh"@.len() == 2,
        "zh"@[0] == 'z',
        "zh"@[1] == 'h',
        "pt"@.len() == 2,
        "pt"@[0] == 'p',
        "pt"@[1] == 't',
        "hant"@.len() == 4,
        "hant"@[0] == 'h',
        "hant"@[1] == 'a',
        "hant"@[2] == 'n',
        "hant"@[3] == 't',
        "tw"@.len() == 2,
        "tw"@[0] == 't',
        "tw"@[1] == 'w',
        "hk"@.len() == 2,
        "hk"@[0] == 'h',
        "hk"@[1] == 'k',
        "mo"@.len() == 2,
        "mo"@[0] == 'm',
        "mo"@[1] == 'o',
        "cn"@.len() == 2,
        "cn"@[0] == 'c',
        "cn"@[1] == 'n',
{
    reveal_strlit("en");
    reveal_strlit("fr");
    reveal_strlit("de");
    reveal_strlit("es");
    reveal_strlit("it");
    reveal_strlit("pt-BR");
    reveal_strlit("nl");
    reveal_strlit("pl");
    reveal_strlit("ru");
    reveal_strlit("uk");
    reveal_strlit("tr");
    reveal_strlit("id");
    reveal_strlit("vi");
    reveal_strlit("zh-CN");
    reveal_strlit("zh-TW");
    reveal_strlit("ja");
    reveal_strlit("ko");
    reveal_strlit("zh");
    reveal_strlit("pt");
    reveal_strlit("hant");
    reveal_strlit("tw");
    reveal_strlit("hk");
    reveal_strlit("mo");
    reveal_strlit("cn");
}

proof fn lemma_code_en()
    ensures
        spec_from_locale(spec_code(Lang::En)) == Some(Lang::En),
        spec_from_locale(posix_spelling(spec_code(Lang::En))) == Some(Lang::En),
        spec_from_locale(spec_code(Lang::En) + ".UTF-8"@) == Some(Lang::En),
{
    reveal_strlit(".UTF-8");
    lemma_code_chars();
    let c = spec_code(Lang::En);
    let s = c;
    lemma_head_language(s, 2, 2);
    assert(lower(s.take(2)) =~= "en"@);
    assert(spec_from_locale(s) == Some(Lang::En));
    let s = posix_spelling(c);
    lemma_head_language(s, 2, 2);
    assert(lower(s.take(2)) =~= "en"@);
    assert(spec_from_locale(s) == Some(Lang::En));
    let s = c + ".UTF-8"@;
    lemma_head_language(s, 2, 2);
    assert(lower(s.take(2)) =~= "en"@);
    assert(spec_from_locale(s) == Some(Lang::En));
}

proof fn lemma_code_fr()
    ensures
        spec_from_locale(spec_code(Lang::Fr)) == Some(Lang::Fr),
        spec_from_locale(posix_spelling(spec_code(Lang::Fr))) == Some(Lang::Fr),
        spec_from_locale(spec_code(Lang::Fr) + ".UTF-8"@) == Some(Lang::Fr),
{
    reveal_strlit(".UTF-8");
    lemma_code_chars();
    let c = spec_code(Lang::Fr);
    let s = c;
    lemma_head_language(s, 2, 2);
    assert(lower(s.take(2)) =~= "fr"@);
    assert(spec_from_locale(s) == Some(Lang::Fr));
    let s = posix_spelling(c);
    lemma_head_language(s, 2, 2);
    assert(lower(s.take(2)) =~= "fr"@);
    assert(spec_from_locale(s) == Some(Lang::Fr));
    let s = c + ".UTF-8"@;
    lemma_head_language(s, 2, 2);
    assert(lower(s.take(2)) =~= "fr"@);
    assert(spec_from_locale(s) == Some(Lang::Fr));
}

proof fn lemma_code_de()
    ensures
        spec_from_locale(spec_code(Lang::De)) == Some(Lang::De),
        spec_from_locale(posix_spelling(spec_code(Lang::De))) == Some(Lang::De),
        spec_from_locale(spec_code(Lang::De) + ".UTF-8"@) == Some(Lang::De),
{
    reveal_strlit(".UTF-8");
    lemma_code_chars();
    let c = spec_code(Lang::De);
    let s = c;
    lemma_head_language(s, 2, 2);
    assert(lower(s.take(2)) =~= "de"@);
    assert(spec_from_locale(s) == Some(Lang::De));
    let s = posix_spelling(c);
    lemma_head_language(s, 2, 2);
    assert(lower(s.take(2)) =~= "de"@);
    assert(spec_from_locale(s) == Some(Lang::De));
    let s = c + ".UTF-8"@;
    lemma_head_language(s, 2, 2);
    assert(lower(s.take(2)) =~= "de"@);
    assert(spec_from_locale(s) == Some(Lang::De));
}

proof fn lemma_code_es()
    ensures
        spec_from_locale(spec_code(Lang::Es)) == Some(Lang::Es),
        spec_from_locale(posix_spelling(spec_code(Lang::Es))) == Some(Lang::Es),
        spec_from_locale(spec_code(Lang::Es) + ".UTF-8"@) == Some(Lang::Es),
{
    reveal_strlit(".UTF-8");
    lemma_code_chars();
    let c = spec_code(Lang::Es);
    let s = c;
    lemma_head_language(s, 2, 2);
    assert(lower(s.take(2)) =~= "es"@);
    assert(spec_from_locale(s) == Some(Lang::Es));
    let s = posix_spelling(c);
    lemma_head_language(s, 2, 2);
    assert(lower(s.take(2)) =~= "es"@);
    assert(spec_from_locale(s) == Some(Lang::Es));
    let s = c + ".UTF-8"@;
    lemma_head_language(s, 2, 2);
    assert(lower(s.take(2)) =~= "es"@);
    assert(spec_from_locale(s) == Some(Lang::Es));
}

proof fn lemma_code_it()
    ensures
        spec_from_locale(spec_code(Lang::It)) == Some(Lang::It),
        spec_from_locale(posix_spelling(spec_code(Lang::It))) == Some(Lang::It),
        spec_from_locale(spec_code(Lang::It) + ".UTF-8"@) == Some(Lang::It),
{
    reveal_strlit(".UTF-8");
    lemma_code_chars();
    let c = spec_code(Lang::It);
    let s = c;
    lemma_head_language(s, 2, 2);
    assert(lower(s.take(2)) =~= "it"@);
    assert(spec_from_locale(s) == Some(Lang::It));
    let s = posix_spelling(c);
    lemma_head_language(s, 2, 2);
    assert(lower(s.take(2)) =~= "it"@);
    assert(spec_from_locale(s) == Some(Lang::It));
    let s = c + ".UTF-8"@;
    lemma_head_language(s, 2, 2);
    assert(lower(s.take(2)) =~= "it"@);
    assert(spec_from_locale(s) == Some(Lang::It));
}

proof fn lemma_code_ptbr()
    ensures
        spec_from_locale(spec_code(Lang::PtBr)) == Some(Lang::PtBr),
        spec_from_locale(posix_spelling(spec_code(Lang::PtBr))) == Some(Lang::PtBr),
        spec_from_locale(spec_code(Lang::PtBr) + ".UTF-8"@) == Some(Lang::PtBr),
{
    reveal_strlit(".UTF-8");
    lemma_code_chars();
    let c = spec_code(Lang::PtBr);
    let s = c;
    lemma_head_language(s, 2, 5);
    assert(lower(s.take(2)) =~= "pt"@);
    assert(spec_from_locale(s) == Some(Lang::PtBr));
    let s = posix_spelling(c);
    lemma_head_language(s, 2, 5);
    assert(lower(s.take(2)) =~= "pt"@);
    assert(spec_from_locale(s) == Some(Lang::PtBr));
    let s = c + ".UTF-8"@;
    lemma_head_language(s, 2, 5);
    assert(lower(s.take(2)) =~= "pt"@);
    assert(spec_from_locale(s) == Some(Lang::PtBr));
}

proof fn lemma_code_nl()
    ensures
        spec_from_locale(spec_code(Lang::Nl)) == Some(Lang::Nl),
        spec_from_locale(posix_spelling(spec_code(Lang::Nl))) == Some(Lang::Nl),
        spec_from_locale(spec_code(Lang::Nl) + ".UTF-8"@) == Some(Lang::Nl),
{
    reveal_strlit(".UTF-8");
    lemma_code_chars();
    let c = spec_code(Lang::Nl);
    let s = c;
    lemma_head_language(s, 2, 2);
    assert(lower(s.take(2)) =~= "nl"@);
    assert(spec_from_locale(s) == Some(Lang::Nl));
    let s = posix_spelling(c);
    lemma_head_language(s, 2, 2);
    assert(lower(s.take(2)) =~= "nl"@);
    assert(spec_from_locale(s) == Some(Lang::Nl));
    let s = c + ".UTF-8"@;
    lemma_head_language(s, 2, 2);
    assert(lower(s.take(2)) =~= "nl"@);
    assert(spec_from_locale(s) == Some(Lang::Nl));
}

proof fn lemma_code_pl()
    ensures
        spec_from_locale(spec_code(Lang::Pl)) == Some(Lang::Pl),
        spec_from_locale(posix_spelling(spec_code(Lang::Pl))) == Some(Lang::Pl),
        spec_from_locale(spec_code(Lang::Pl) + ".UTF-8"@) == Some(Lang::Pl),
{
    reveal_strlit(".UTF-8");
    lemma_code_chars();
    let c = spec_code(Lang::Pl);
    let s = c;
    lemma_head_language(s, 2, 2);
    assert(lower(s.take(2)) =~= "pl"@);
    assert(spec_from_locale(s) == Some(Lang::Pl));
    let s = posix_spelling(c);
    lemma_head_language(s, 2, 2);
    assert(lower(s.take(2)) =~= "pl"@);
    assert(spec_from_locale(s) == Some(Lang::Pl));
    let s = c + ".UTF-8"@;
    lemma_head_language(s, 2, 2);
    assert(lower(s.take(2)) =~= "pl"@);
    assert(spec_from_locale(s) == Some(Lang::Pl));
}

proof fn lemma_code_ru()
    ensures
        spec_from_locale(spec_code(Lang::Ru)) == Some(Lang::Ru),
        spec_from_locale(posix_spelling(spec_code(Lang::Ru))) == Some(Lang::Ru),
        spec_from_locale(spec_code(Lang::Ru) + ".UTF-8"@) == Some(Lang::Ru),
{
    reveal_strlit(".UTF-8");
    lemma_code_chars();
    let c = spec_code(Lang::Ru);
    let s = c;
    lemma_head_language(s, 2, 2);
    assert(lower(s.take(2)) =~= "ru"@);
    assert(spec_from_locale(s) == Some(Lang::Ru));
    let s = posix_spelling(c);
    lemma_head_language(s, 2, 2);
    assert(lower(s.take(2)) =~= "ru"@);
    assert(spec_from_locale(s) == Some(Lang::Ru));
    let s = c + ".UTF-8"@;
    lemma_head_language(s, 2, 2);
    assert(lower(s.take(2)) =~= "ru"@);
    assert(spec_from_locale(s) == Some(Lang::Ru));
}

proof fn lemma_code_uk()
    ensures
        spec_from_locale(spec_code(Lang::Uk)) == Some(Lang::Uk),
        spec_from_locale(posix_spelling(spec_code(Lang::Uk))) == Some(Lang::Uk),
        spec_from_locale(spec_code(Lang::Uk) + ".UTF-8"@) == Some(Lang::Uk),
{
    reveal_strlit(".UTF-8");
    lemma_code_chars();
    let c = spec_code(Lang::Uk);
    let s = c;
    lemma_head_language(s, 2, 2);
    assert(lower(s.take(2)) =~= "uk"@);
    assert(spec_from_locale(s) == Some(Lang::Uk));
    let s = posix_spelling(c);
    lemma_head_language(s, 2, 2);
    assert(lower(s.take(2)) =~= "uk"@);
    assert(spec_from_locale(s) == Some(Lang::Uk));
    let s = c + ".UTF-8"@;
    lemma_head_language(s, 2, 2);
    assert(lower(s.take(2)) =~= "uk"@);
    assert(spec_from_locale(s) == Some(Lang::Uk));
}

proof fn lemma_code_tr()
    ensures
        spec_from_locale(spec_code(Lang::Tr)) == Some(Lang::Tr),
        spec_from_locale(posix_spelling(spec_code(Lang::Tr))) == Some(Lang::Tr),
        spec_from_locale(spec_code(Lang::Tr) + ".UTF-8"@) == Some(Lang::Tr),
{
    reveal_strlit(".UTF-8");
    lemma_code_chars();
    let c = spec_code(Lang::Tr);
    let s = c;
    lemma_head_language(s, 2, 2);
    assert(lower(s.take(2)) =~= "tr"@);
    assert(spec_from_locale(s) == Some(Lang::Tr));
    let s = posix_spelling(c);
    lemma_head_language(s, 2, 2);
    assert(lower(s.take(2)) =~= "tr"@);
    assert(spec_from_locale(s) == Some(Lang::Tr));
    let s = c + ".UTF-8"@;
    lemma_head_language(s, 2, 2);
    assert(lower(s.take(2)) =~= "tr"@);
    assert(spec_from_locale(s) == Some(Lang::Tr));
}

proof fn lemma_code_id()
    ensures
        spec_from_locale(spec_code(Lang::Id)) == Some(Lang::Id),
        spec_from_locale(posix_spelling(spec_code(Lang::Id))) == Some(Lang::Id),
        spec_from_locale(spec_code(Lang::Id) + ".UTF-8"@) == Some(Lang::Id),
{
    reveal_strlit(".UTF-8");
    lemma_code_chars();
    let c = spec_code(Lang::Id);
    let s = c;
    lemma_head_language(s, 2, 2);
    assert(lower(s.take(2)) =~= "id"@);
    assert(spec_from_locale(s) == Some(Lang::Id));
    let s = posix_spelling(c);
    lemma_head_language(s, 2, 2);
    assert(lower(s.take(2)) =~= "id"@);
    assert(spec_from_locale(s) == Some(Lang::Id));
    let s = c + ".UTF-8"@;
    lemma_head_language(s, 2, 2);
    assert(lower(s.take(2)) =~= "id"@);
    assert(spec_from_locale(s) == Some(Lang::Id));
}

proof fn lemma_code_vi()
    ensures
        spec_from_locale(spec_code(Lang::Vi)) == Some(Lang::Vi),
        spec_from_locale(posix_spelling(spec_code(Lang::Vi))) == Some(Lang::Vi),
        spec_from_locale(spec_code(Lang::Vi) + ".UTF-8"@) == Some(Lang::Vi),
{
    reveal_strlit(".UTF-8");
    lemma_code_chars();
    let c = spec_code(Lang::Vi);
    let s = c;
    lemma_head_language(s, 2, 2);
    assert(lower(s.take(2)) =~= "vi"@);
    assert(spec_from_locale(s) == Some(Lang::Vi));
    let s = posix_spelling(c);
    lemma_head_language(s, 2, 2);
    assert(lower(s.take(2)) =~= "vi"@);
    assert(spec_from_locale(s) == Some(Lang::Vi));
    let s = c + ".UTF-8"@;
    lemma_head_language(s, 2, 2);
    assert(lower(s.take(2)) =~= "vi"@);
    assert(spec_from_locale(s) == Some(Lang::Vi));
}

proof fn lemma_code_zhcn()
    ensures
        spec_from_locale(spec_code(Lang::ZhCn)) == Some(Lang::ZhCn),
        spec_from_locale(posix_spelling(spec_code(Lang::ZhCn))) == Some(Lang::ZhCn),
        spec_from_locale(spec_code(Lang::ZhCn) + ".UTF-8"@) == Some(Lang::ZhCn),
{
    reveal_strlit(".UTF-8");
    lemma_code_chars();
    let c = spec_code(Lang::ZhCn);
    let s = c;
    lemma_head_language(s, 2, 5);
    assert(lower(s.take(2)) =~= "zh"@);
    let h = locale_head(s);
    assert(lower(h.subrange(3, 5)) =~= "cn"@);
    assert forall|k: int| !#[trigger] subtag_at(h, k, "hant"@) by {}
    assert forall|k: int| !#[trigger] subtag_at(h, k, "tw"@) by {}
    assert forall|k: int| !#[trigger] subtag_at(h, k, "hk"@) by {}
    assert forall|k: int| !#[trigger] subtag_at(h, k, "mo"@) by {}
    assert(spec_from_locale(s) == Some(Lang::ZhCn));
    let s = posix_spelling(c);
    lemma_head_language(s, 2, 5);
    assert(lower(s.take(2)) =~= "zh"@);
    let h = locale_head(s);
    assert(lower(h.subrange(3, 5)) =~= "cn"@);
    assert forall|k: int| !#[trigger] subtag_at(h, k, "hant"@) by {}
    assert forall|k: int| !#[trigger] subtag_at(h, k, "tw"@) by {}
    assert forall|k: int| !#[trigger] subtag_at(h, k, "hk"@) by {}
    assert forall|k: int| !#[trigger] subtag_at(h, k, "mo"@) by {}
    assert(spec_from_locale(s) == Some(Lang::ZhCn));
    let s = c + ".UTF-8"@;
    lemma_head_language(s, 2, 5);
    assert(lower(s.take(2)) =~= "zh"@);
    let h = locale_head(s);
    assert(lower(h.subrange(3, 5)) =~= "cn"@);
    assert forall|k: int| !#[trigger] subtag_at(h, k, "hant"@) by {}
    assert forall|k: int| !#[trigger] subtag_at(h, k, "tw"@) by {}
    assert forall|k: int| !#[trigger] subtag_at(h, k, "hk"@) by {}
    assert forall|k: int| !#[trigger] subtag_at(h, k, "mo"@) by {}
    assert(spec_from_locale(s) == Some(Lang::ZhCn));
}

proof fn lemma_code_zhtw()
    ensures
        spec_from_locale(spec_code(Lang::ZhTw)) == Some(Lang::ZhTw),
        spec_from_locale(posix_spelling(spec_code(Lang::ZhTw))) == Some(Lang::ZhTw),
        spec_from_locale(spec_code(Lang::ZhTw) + ".UTF-8"@) == Some(Lang::ZhTw),
{
    reveal_strlit(".UTF-8");
    lemma_code_chars();
    let c = spec_code(Lang::ZhTw);
    let s = c;
    lemma_head_language(s, 2, 5);
    assert(lower(s.take(2)) =~= "zh"@);
    assert(lower(locale_head(s).subrange(3, 5)) =~= "tw"@);
    assert(subtag_at(locale_head(s), 3, "tw"@));
    assert(spec_from_locale(s) == Some(Lang::ZhTw));
    let s = posix_spelling(c);
    lemma_head_language(s, 2, 5);
    assert(lower(s.take(2)) =~= "zh"@);
    assert(lower(locale_head(s).subrange(3, 5)) =~= "tw"@);
    assert(subtag_at(locale_head(s), 3, "tw"@));
    assert(spec_from_locale(s) == Some(Lang::ZhTw));
    let s = c + ".UTF-8"@;
    lemma_head_language(s, 2, 5);
    assert(lower(s.take(2)) =~= "zh"@);
    assert(lower(locale_head(s).subrange(3, 5)) =~= "tw"@);
    assert(subtag_at(locale_head(s), 3, "tw"@));
    assert(spec_from_locale(s) == Some(Lang::ZhTw));
}

proof fn lemma_code_ja()
    ensures
        spec_from_locale(spec_code(Lang::Ja)) == Some(Lang::Ja),
        spec_from_locale(posix_spelling(spec_code(Lang::Ja))) == Some(Lang::Ja),
        spec_from_locale(spec_code(Lang::Ja) + ".UTF-8"@) == Some(Lang::Ja),
{
    reveal_strlit(".UTF-8");
    lemma_code_chars();
    let c = spec_code(Lang::Ja);
    let s = c;
    lemma_head_language(s, 2, 2);
    assert(lower(s.take(2)) =~= "ja"@);
    assert(spec_from_locale(s) == Some(Lang::Ja));
    let s = posix_spelling(c);
    lemma_head_language(s, 2, 2);
    assert(lower(s.take(2)) =~= "ja"@);
    assert(spec_from_locale(s) == Some(Lang::Ja));
    let s = c + ".UTF-8"@;
    lemma_head_language(s, 2, 2);
    assert(lower(s.take(2)) =~= "ja"@);
    assert(spec_from_locale(s) == Some(Lang::Ja));
}

proof fn lemma_code_ko()
    ensures
        spec_from_locale(spec_code(Lang::Ko)) == Some(Lang::Ko),
        spec_from_locale(posix_spelling(spec_code(Lang::Ko))) == Some(Lang::Ko),
        spec_from_locale(spec_code(Lang::Ko) + ".UTF-8"@) == Some(Lang::Ko),
{
    reveal_strlit(".UTF-8");
    lemma_code_chars();
    let c = spec_code(Lang::Ko);
    let s = c;
    lemma_head_language(s, 2, 2);
    assert(lower(s.take(2)) =~= "ko"@);
    assert(spec_from_locale(s) == Some(Lang::Ko));
    let s = posix_spelling(c);
    lemma_head_language(s, 2, 2);
    assert(lower(s.take(2)) =~= "ko"@);
    assert(spec_from_locale(s) == Some(Lang::Ko));
    let s = c + ".UTF-8"@;
    lemma_head_language(s, 2, 2);
    assert(lower(s.take(2)) =~= "ko"@);
    assert(spec_from_locale(s) == Some(Lang::Ko));
}

/// Every language's code selects it again: as it is, in the POSIX spelling
/// (`PT_BR`) and with an encoding after it (`pt-BR.UTF-8`).
pub proof fn lemma_code_round_trip(l: Lang)
    ensures
        spec_from_locale(spec_code(l)) == Some(l),
        spec_from_locale(posix_spelling(spec_code(l))) == Some(l),
        spec_from_locale(spec_code(l) + ".UTF-8"@) == Some(l),
{
    match l {
        Lang::En => lemma_code_en(),
        Lang::Fr => lemma_code_fr(),
        Lang::De => lemma_code_de(),
        Lang::Es => lemma_code_es(),
        Lang::It => lemma_code_it(),
        Lang::PtBr => lemma_code_ptbr(),
        Lang::Nl => lemma_code_nl(),
        Lang::Pl => lemma_code_pl(),
        Lang::Ru => lemma_code_ru(),
        Lang::Uk => lemma_code_uk(),
        Lang::Tr => lemma_code_tr(),
        Lang::Id => lemma_code_id(),
        Lang::Vi => lemma_code_vi(),
        Lang::ZhCn => lemma_code_zhcn(),
        Lang::ZhTw => lemma_code_zhtw(),
        Lang::Ja => lemma_code_ja(),
        Lang::Ko => lemma_code_ko(),
    }
}

} // verus!
