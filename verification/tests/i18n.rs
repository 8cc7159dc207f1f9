use squoosh::i18n::{lang, set_lang, t, Catalog, Lang};

#[test]
fn locales() {
    assert_eq!(Lang::from_locale("fr_FR.UTF-8"), Some(Lang::Fr));
    assert_eq!(Lang::from_locale("fr-CA"), Some(Lang::Fr));
    assert_eq!(Lang::from_locale("FR"), Some(Lang::Fr));
    assert_eq!(Lang::from_locale("en-US"), Some(Lang::En));
    assert_eq!(Lang::from_locale("pt_PT"), Some(Lang::PtBr));
    assert_eq!(Lang::from_locale("zh_CN.UTF-8"), Some(Lang::ZhCn));
    assert_eq!(Lang::from_locale("zh-Hans"), Some(Lang::ZhCn));
    assert_eq!(Lang::from_locale("zh-Hant-HK"), Some(Lang::ZhTw));
    assert_eq!(Lang::from_locale("zh_TW"), Some(Lang::ZhTw));
    assert_eq!(Lang::from_locale("ja_JP"), Some(Lang::Ja));
    assert_eq!(Lang::from_locale("ar_EG"), None);
    assert_eq!(Lang::from_locale("fry"), None);
    assert_eq!(Lang::from_locale("C"), None);
    assert_eq!(Lang::from_locale(""), None);
}

#[test]
fn placeholders() {
    let f = |t: &str| squoosh::i18n::format(t, &[(None, "1"), (None, "b")]);
    assert_eq!(f("{} and {}"), "1 and b");
    assert_eq!(f("{1} before {0}"), "b before 1");
    assert_eq!(f("{{}} {}%"), "{} 1%");
    assert_eq!(f("{missing} {"), "{missing} {");
    assert_eq!(
        squoosh::i18n::format("Error: {error}", &[(Some("error"), "disk full")]),
        "Error: disk full"
    );
    let english = Catalog::empty(Lang::En);
    assert_eq!(
        squoosh::i18n::format(t(&english, "{} images in the list"), &[(None, "3")]),
        "3 images in the list"
    );
}

#[test]
fn placeholders_edge_cases() {
    assert_eq!(squoosh::i18n::format("}} {{ }", &[]), "} { }");
    assert_eq!(squoosh::i18n::format("{2}", &[(None, "a")]), "{2}");
    assert_eq!(squoosh::i18n::format("{} {} {}", &[(None, "a"), (None, "b")]), "a b {}");
    assert_eq!(squoosh::i18n::format("{x}{0}{}", &[(Some("x"), "1"), (None, "2")]), "111");
    assert_eq!(squoosh::i18n::format("", &[(None, "a")]), "");
    assert_eq!(squoosh::i18n::format("plain", &[]), "plain");
}

#[test]
fn language_codes_and_names() {
    assert_eq!(Lang::all().len(), 17);
    assert_eq!(Lang::PtBr.code(), "pt-BR");
    assert_eq!(Lang::ZhTw.name(), "繁體中文");
    assert_eq!(Lang::Ko.english_name(), "Korean");
    for l in Lang::all() {
        assert_eq!(Lang::from_locale(l.code()), Some(l));
    }
}

#[test]
fn current_language_round_trips() {
    for l in Lang::all() {
        assert_eq!(lang(set_lang(l)), l);
    }
    assert_eq!(lang(200), Lang::En);
}

#[test]
fn catalogs_translate_and_fall_back() {
    let json = r#"{"Add images": "Ajouter des images", "Quality": "", "{} images in the list": "{} images dans la liste"}"#;
    let catalog = Catalog::from_json(Lang::Fr, json).unwrap();
    assert_eq!(catalog.lang(), Lang::Fr);
    assert_eq!(t(&catalog, "Add images"), "Ajouter des images");
    assert_eq!(t(&catalog, "Quality"), "Quality");
    assert_eq!(t(&catalog, "Unknown message"), "Unknown message");
    assert_eq!(
        squoosh::i18n::format(t(&catalog, "{} images in the list"), &[(None, "3")]),
        "3 images dans la liste"
    );
    let texts = Lang::Fr.texts(&catalog);
    assert_eq!(texts.len(), 2);
    assert!(texts.contains(&"Ajouter des images".to_string()));
    assert!(Catalog::from_json(Lang::Fr, "[1, 2]").is_none());
    assert!(Catalog::from_json(Lang::Fr, "not json").is_none());
    let english = Catalog::from_json(Lang::En, json).unwrap();
    assert_eq!(t(&english, "Add images"), "Add images");
}

#[test]
fn first_supported_locale_wins() {
    let locales = vec!["ar_EG".to_string(), "de-AT".to_string(), "fr_FR".to_string()];
    assert_eq!(Lang::first_supported(&locales), Lang::De);
    assert_eq!(Lang::first_supported(&["xx".to_string()]), Lang::En);
    assert_eq!(Lang::first_supported(&[]), Lang::En);
    let _ = Lang::system();
}

#[test]
fn every_code_reads_back_in_each_spelling() {
    let all = Lang::all();
    assert_eq!(all.len(), 17);
    for l in all {
        let code = l.code();
        assert_eq!(Lang::from_locale(code), Some(l), "{code}");
        let posix = code.to_ascii_uppercase().replace('-', "_");
        assert_eq!(Lang::from_locale(&posix), Some(l), "{posix}");
        assert_eq!(Lang::from_locale(&format!("{code}.UTF-8")), Some(l), "{code}.UTF-8");
    }
}

#[test]
fn catalog_texts_come_once_per_message() {
    let c = Catalog::from_json(Lang::Fr, r#"{"Quality": "Qualité", "Speed": "", "Effort": "Effort"}"#).unwrap();
    let texts = Lang::Fr.texts(&c);
    assert_eq!(texts, vec!["Effort".to_string(), "Qualité".to_string()]);
    let empty = Catalog::empty(Lang::En);
    assert!(Lang::En.texts(&empty).is_empty());
    // English is the source language: it has no translations to list.
    let en = Catalog::from_json(Lang::En, r#"{"Quality": "Quality"}"#).unwrap();
    assert!(Lang::En.texts(&en).is_empty());
}
