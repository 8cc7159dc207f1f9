use squoosh::codecs::{
    checked_dimensions, defaults, encode_plan, specs, translate_native, validate, CodecError,
    EncodePlan, Format, Options,
};
use squoosh::i18n::{t, Catalog, Lang};

fn french() -> Catalog {
    let json = r#"{
        "WebP failed": "Échec WebP",
        "Quality": "Qualité",
        "Invalid number of settings": "Nombre de réglages invalide",
        "Missing setting: {}": "Réglage manquant : {}",
        "{} must be between {} and {}": "{} doit être entre {} et {}"
    }"#;
    Catalog::from_json(Lang::Fr, json).unwrap()
}

#[test]
fn messages_and_labels_follow_the_language() {
    let fr = french();
    assert_eq!(translate_native(&fr, "WebP failed (code 3)"), "Échec WebP (code 3)");
    assert_eq!(translate_native(&fr, "libavif says no"), "libavif says no");
    assert_eq!(t(&fr, &specs(Format::Jpeg)[0].label), "Qualité");
    let error = validate(Format::Png, &Options::new()).unwrap_err();
    assert_eq!(error.message(&fr), "Nombre de réglages invalide");
    let en = Catalog::empty(Lang::En);
    assert_eq!(translate_native(&en, "Invalid ICC profile"), "Invalid ICC profile");
    for f in Format::all() {
        for s in specs(f) {
            assert!(s.choices.is_empty() || s.choices.len() == (s.max - s.min + 1) as usize);
        }
    }
}

#[test]
fn keys_and_extensions() {
    assert_eq!(Format::Jpeg.key(), "jpeg");
    assert_eq!(Format::Jpeg.extension(), "jpg");
    assert_eq!(Format::Webp.extension(), "webp");
    assert_eq!(Format::all(), [Format::Jpeg, Format::Png, Format::Webp, Format::Avif]);
}

#[test]
fn registry_defaults_are_valid() {
    assert_eq!(specs(Format::Jpeg).len(), 16);
    assert_eq!(specs(Format::Png).len(), 2);
    for f in Format::all() {
        let d = defaults(f);
        assert_eq!(d.len(), specs(f).len());
        assert!(validate(f, &d).is_ok());
    }
    let jpeg = defaults(Format::Jpeg);
    assert_eq!(jpeg.get("quality"), Some(75));
    assert_eq!(jpeg.get("trellis_loops"), Some(1));
    assert_eq!(defaults(Format::Png).get("level"), Some(2));
}

#[test]
fn validation_errors_name_the_problem() {
    let mut o = defaults(Format::Jpeg);
    o.insert("quality".into(), 101);
    match validate(Format::Jpeg, &o) {
        Err(CodecError::Range { label, min, max }) => {
            assert_eq!((label.as_str(), min, max), ("Quality", 0, 100));
        }
        other => panic!("{other:?}"),
    }
    let en = Catalog::empty(Lang::En);
    assert_eq!(
        validate(Format::Jpeg, &o).unwrap_err().message(&en),
        "Quality must be between 0 and 100"
    );
    let fr = french();
    assert_eq!(
        validate(Format::Jpeg, &o).unwrap_err().message(&fr),
        "Qualité doit être entre 0 et 100"
    );
    let mut renamed = defaults(Format::Png);
    renamed = Options::from_pairs(
        renamed
            .pairs()
            .into_iter()
            .map(|(k, v)| if k == "interlace" { ("interlaced".to_string(), v) } else { (k, v) })
            .collect(),
    );
    match validate(Format::Png, &renamed) {
        Err(CodecError::Missing(key)) => assert_eq!(key, "interlace"),
        other => panic!("{other:?}"),
    }
    assert_eq!(
        validate(Format::Png, &renamed).unwrap_err().message(&fr),
        "Réglage manquant : interlace"
    );
    let mut extra = defaults(Format::Png);
    extra.insert("other".into(), 1);
    assert!(matches!(validate(Format::Png, &extra), Err(CodecError::Count)));
}

#[test]
fn dimension_limits() {
    assert_eq!(checked_dimensions(32, 24).unwrap(), 32 * 24 * 4);
    assert!(matches!(checked_dimensions(0, 5), Err(CodecError::Dimensions)));
    assert!(matches!(checked_dimensions(32769, 1), Err(CodecError::Dimensions)));
    assert!(matches!(checked_dimensions(8000, 6000), Err(CodecError::TooLarge)));
    assert_eq!(checked_dimensions(8000, 5000).unwrap(), 160_000_000);
    let en = Catalog::empty(Lang::En);
    assert_eq!(
        checked_dimensions(8000, 6000).unwrap_err().message(&en),
        "Image too large (at most 40 megapixels)"
    );
    assert_eq!(
        checked_dimensions(0, 1).unwrap_err().message(&en),
        "Invalid dimensions (at most 32,768 per side)"
    );
}

#[test]
fn native_messages_keep_their_tail() {
    let fr = french();
    assert_eq!(translate_native(&fr, "WebP failed"), "Échec WebP");
    let en = Catalog::empty(Lang::En);
    assert_eq!(translate_native(&en, "WebP failed (code 7)"), "WebP failed (code 7)");
    assert_eq!(translate_native(&fr, "webp failed"), "webp failed");
}

#[test]
fn encoder_inputs_follow_the_registry() {
    let mut png = defaults(Format::Png);
    png.insert("interlace".into(), 1);
    match encode_plan(10, 10, Format::Png, &png).unwrap() {
        EncodePlan::Png { level, interlace } => assert_eq!((level, interlace), (2, true)),
        other => panic!("{other:?}"),
    }
    let mut jpeg = defaults(Format::Jpeg);
    jpeg.insert("quality".into(), 90);
    match encode_plan(10, 10, Format::Jpeg, &jpeg).unwrap() {
        EncodePlan::Native { values } => {
            assert_eq!(values.len(), 16);
            assert_eq!(values[0], 90);
        }
        other => panic!("{other:?}"),
    }
    assert!(matches!(encode_plan(0, 10, Format::Jpeg, &jpeg), Err(CodecError::Dimensions)));
    assert!(matches!(encode_plan(10, 10, Format::Webp, &jpeg), Err(CodecError::Count)));
}

#[test]
fn every_registry_setting_is_well_formed() {
    assert_eq!(specs(Format::Webp).len(), 27);
    assert_eq!(specs(Format::Avif).len(), 11);
    assert_eq!(specs(Format::Jpeg)[0].key, "quality");
    for f in Format::all() {
        let list = specs(f);
        for (i, s) in list.iter().enumerate() {
            assert!(s.min <= s.default && s.default <= s.max, "{}", s.key);
            assert!(s.choices.is_empty() || s.choices.len() as i64 == s.max as i64 - s.min as i64 + 1);
            assert!(list[..i].iter().all(|o| o.key != s.key), "{}", s.key);
        }
        let mut d = defaults(f);
        d.insert(list[0].key.clone(), list[0].default);
        assert_eq!(d.len(), list.len());
    }
}
