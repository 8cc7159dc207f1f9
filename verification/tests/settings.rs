use squoosh::codecs::{defaults, CodecError, Format};
use squoosh::i18n::{Catalog, Lang};
use squoosh::settings::{filter_for_source, Filter, Overrides, Settings, SettingsError};

#[test]
fn field_overrides_preserve_inheritance_and_snapshot() {
    let mut common = Settings::default();
    let mut individual = common.clone();
    assert!(individual.sides[1].options.set_option("jpeg", "quality".into(), 91));
    let mut overrides = Overrides::default();
    overrides.record(&common, &individual);
    common.rotation = 90;
    assert!(common.sides[1].options.set_option("jpeg", "quality".into(), 40));
    let snapshot = overrides.resolve(&common).unwrap();
    assert_eq!(snapshot.rotation, 90);
    assert_eq!(
        snapshot.sides[1].options.get("jpeg").unwrap().get("quality"),
        Some(91)
    );
    common.rotation = 180;
    assert_eq!(snapshot.rotation, 90);
    assert_eq!(
        format!("{:?}", Overrides::default().resolve(&common).unwrap()),
        format!("{:?}", common)
    );
}

#[test]
fn defaults_compare_original_with_avif() {
    let s = Settings::default();
    assert_eq!(s.rotation, 0);
    assert_eq!(s.export_side, 1);
    assert_eq!(s.sides[0].format, None);
    assert_eq!(s.sides[1].format, Some(Format::Avif));
    assert_eq!(s.sides[1].background, [255, 255, 255]);
    assert!(!s.sides[1].resize.enabled);
    assert_eq!(s.sides[1].resize.filter, Filter::Lanczos3);
    assert_eq!(s.sides[1].palette.colors, 256);
    assert!(s.validate().is_ok());
    for f in Format::all() {
        assert_eq!(
            format!("{:?}", s.sides[0].options.get(f.key()).unwrap()),
            format!("{:?}", defaults(f))
        );
    }
}

#[test]
fn validation_reports_the_first_problem() {
    let mut s = Settings::default();
    s.rotation = 45;
    assert!(matches!(s.validate(), Err(SettingsError::Rotation)));
    s.rotation = 270;
    s.export_side = 2;
    assert!(matches!(s.validate(), Err(SettingsError::Side)));
    s.export_side = 0;
    s.sides[1].resize.width = 40000;
    assert!(matches!(s.validate(), Err(SettingsError::Dimensions)));
    s.sides[1].resize.width = 100;
    s.sides[0].palette.colors = 1;
    assert!(matches!(s.validate(), Err(SettingsError::Colors)));
    s.sides[0].palette.colors = 2;
    s.sides[0].palette.dither = 1.5f32.to_bits();
    assert!(matches!(s.validate(), Err(SettingsError::Dither)));
    s.sides[0].palette.dither = 0.5f32.to_bits();
    assert!(s.sides[0].options.set_option("webp", "quality".into(), -1));
    assert!(matches!(
        s.validate(),
        Err(SettingsError::Codec(CodecError::Range { .. }))
    ));
    assert!(s.sides[0].options.set_option("webp", "quality".into(), 80));
    assert!(s.validate().is_ok());
    s.sides[1].palette.dither = f32::NAN.to_bits();
    assert!(matches!(s.validate(), Err(SettingsError::Dither)));
}

#[test]
fn recording_pins_only_changed_fields() {
    let common = Settings::default();
    let mut edited = common.clone();
    edited.sides[1].resize.enabled = true;
    edited.sides[1].resize.width = 640;
    edited.sides[1].background = [0, 0, 0];
    let mut overrides = Overrides::default();
    overrides.record(&common, &edited);
    assert_eq!(overrides.len(), 5);
    overrides.record(&common, &common);
    assert_eq!(overrides.len(), 5);
    let mut later = common.clone();
    later.sides[1].resize.height = 480;
    later.sides[0].format = Some(Format::Png);
    let resolved = overrides.resolve(&later).unwrap();
    assert!(resolved.sides[1].resize.enabled);
    assert_eq!(resolved.sides[1].resize.width, 640);
    assert_eq!(resolved.sides[1].resize.height, 480);
    assert_eq!(resolved.sides[1].background, [0, 0, 0]);
    assert_eq!(resolved.sides[0].format, Some(Format::Png));
}

#[test]
fn resolving_against_settings_without_the_field_fails() {
    let common = Settings::default();
    let mut edited = common.clone();
    assert!(edited.sides[0].options.set_option("avif", "speed".into(), 8));
    let mut overrides = Overrides::default();
    overrides.record(&common, &edited);
    let mut lacking = common.clone();
    lacking.sides[0].options = squoosh::settings::OptionSets::new();
    match overrides.resolve(&lacking) {
        Err(SettingsError::UnknownSetting(path)) => {
            assert_eq!(path, "/sides/0/options/avif/speed")
        }
        other => panic!("{other:?}"),
    }
    let resolved = overrides.resolve(&common).unwrap();
    assert_eq!(
        resolved.sides[0].options.get("avif").unwrap().get("speed"),
        Some(8)
    );
}

#[test]
fn resolved_settings_are_validated() {
    let common = Settings::default();
    let mut edited = common.clone();
    edited.rotation = 90;
    let mut overrides = Overrides::default();
    overrides.record(&common, &edited);
    assert_eq!(overrides.resolve(&common).unwrap().rotation, 90);
    let mut bad = common.clone();
    bad.sides[1].palette.colors = 300;
    assert!(matches!(overrides.resolve(&bad), Err(SettingsError::Colors)));
}

#[test]
fn filter_labels() {
    assert_eq!(Filter::all().len(), 10);
    assert_eq!(Filter::Hqx.label(), "HQX");
    assert_eq!(Filter::Vector.label(), "Vectoriel (SVG)");
}

#[test]
fn recording_then_resolving_gives_the_edit_back() {
    let before = Settings::default();
    let mut after = before.clone();
    after.rotation = 180;
    after.export_side = 0;
    after.sides[0].format = Some(Format::Webp);
    after.sides[0].resize.enabled = true;
    after.sides[0].resize.width = 300;
    after.sides[0].resize.filter = Filter::Mitchell;
    after.sides[1].palette.enabled = true;
    after.sides[1].palette.colors = 64;
    after.sides[1].palette.dither = 0.25f32.to_bits();
    after.sides[1].background = [10, 20, 30];
    assert!(after.sides[1].options.set_option("webp", "method".into(), 6));
    let mut overrides = Overrides::default();
    overrides.record(&before, &after);
    let resolved = overrides.resolve(&before).unwrap();
    assert_eq!(format!("{resolved:?}"), format!("{after:?}"));
}

#[test]
fn negative_zero_dithering_is_not_an_edit() {
    let before = Settings::default();
    let mut zero = before.clone();
    zero.sides[0].palette.dither = 0.0f32.to_bits();
    let mut negative = zero.clone();
    negative.sides[0].palette.dither = (-0.0f32).to_bits();
    let mut overrides = Overrides::default();
    overrides.record(&zero, &negative);
    assert_eq!(overrides.len(), 0);
}

#[test]
fn settings_refusals_have_messages() {
    let en = Catalog::empty(Lang::En);
    let mut s = Settings::default();
    s.sides[0].options = squoosh::settings::OptionSets::new();
    s.sides[0].options.insert("jpeg".into(), defaults(Format::Jpeg));
    let error = s.validate().unwrap_err();
    assert!(matches!(error, SettingsError::MissingOptions));
    assert_eq!(error.message(&en), "Réglages absents");
    assert_eq!(SettingsError::Rotation.message(&en), "Rotation invalide");
    assert_eq!(SettingsError::Colors.message(&en), "Palette : 2 à 256 couleurs");
    assert_eq!(
        SettingsError::UnknownSetting("/sides/0/format".into()).message(&en),
        "Réglage inconnu : /sides/0/format"
    );
    assert_eq!(
        SettingsError::Codec(CodecError::Dimensions).message(&en),
        "Invalid dimensions (at most 32,768 per side)"
    );
}

#[test]
fn a_selected_source_picks_its_resize_method() {
    assert_eq!(filter_for_source(Filter::Lanczos3, true), Filter::Vector);
    assert_eq!(filter_for_source(Filter::Vector, false), Filter::Lanczos3);
    assert_eq!(filter_for_source(Filter::Catrom, false), Filter::Catrom);
    assert_eq!(filter_for_source(Filter::Vector, true), Filter::Vector);
}
