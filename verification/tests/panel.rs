use squoosh::panel::{size_change, SizeChange};
use squoosh::panel::slider_value;
use squoosh::codecs::{defaults, Format};
use squoosh::panel::{
    active, format_label, is_advanced, pretty_bytes, set_avif_lossless, set_webp_effort, size,
    webp_effort, webp_preset,
};

#[test]
fn codec_labels() {
    assert_eq!(format_label(None), "Image originale");
    assert_eq!(format_label(Some(Format::Jpeg)), "MozJPEG");
    assert_eq!(format_label(Some(Format::Png)), "OxiPNG");
    assert_eq!(format_label(Some(Format::Webp)), "WebP");
    assert_eq!(format_label(Some(Format::Avif)), "AVIF");
}

#[test]
fn byte_sizes_have_three_significant_digits() {
    assert_eq!(pretty_bytes(0), ("0".to_string(), "B"));
    assert_eq!(pretty_bytes(999), ("999".to_string(), "B"));
    assert_eq!(pretty_bytes(1000), ("1.00".to_string(), "kB"));
    assert_eq!(pretty_bytes(1234), ("1.23".to_string(), "kB"));
    assert_eq!(pretty_bytes(12345), ("12.3".to_string(), "kB"));
    assert_eq!(pretty_bytes(123456), ("123".to_string(), "kB"));
    assert_eq!(pretty_bytes(1_500_000), ("1.50".to_string(), "MB"));
    assert_eq!(pretty_bytes(2_000_000_000_000_000), ("2000".to_string(), "TB"));
    assert_eq!(size(2048), "2.05 kB");
    assert_eq!(pretty_bytes(1005), ("1.00".to_string(), "kB"));
    assert_eq!(pretty_bytes(1125), ("1.12".to_string(), "kB"));
    assert_eq!(pretty_bytes(1135), ("1.14".to_string(), "kB"));
    assert_eq!(pretty_bytes(999_500), ("1000".to_string(), "kB"));
    assert_eq!(pretty_bytes(99_950), ("100".to_string(), "kB"));
    assert_eq!(pretty_bytes(99_999), ("100".to_string(), "kB"));
    assert_eq!(pretty_bytes(9_999), ("10.0".to_string(), "kB"));
    assert_eq!(pretty_bytes(9_995), ("9.99".to_string(), "kB"));
    assert_eq!(pretty_bytes(9_994), ("9.99".to_string(), "kB"));
    assert_eq!(pretty_bytes(u64::MAX), ("18446744".to_string(), "TB"));
    assert_eq!(pretty_bytes(9_007_199_254_740_993), ("9007".to_string(), "TB"));
    assert_eq!(size(5), "5 B");
}

#[test]
fn settings_that_do_not_apply_are_inactive() {
    let mut jpeg = defaults(Format::Jpeg);
    assert!(active(Format::Jpeg, "progressive", &jpeg));
    jpeg.insert("baseline".into(), 1);
    assert!(!active(Format::Jpeg, "progressive", &jpeg));
    assert!(active(Format::Jpeg, "quality", &jpeg));
    let mut webp = defaults(Format::Webp);
    webp.insert("lossless".into(), 1);
    assert!(!active(Format::Webp, "sns_strength", &webp));
    assert!(!active(Format::Webp, "use_delta_palette", &webp));
}

#[test]
fn webp_lossless_effort_steps() {
    let mut webp = defaults(Format::Webp);
    assert_eq!(webp_effort(&webp), 6);
    set_webp_effort(&mut webp, 2);
    assert_eq!((webp.get("method"), webp.get("quality")), (Some(2), Some(25)));
    assert_eq!(webp_effort(&webp), 2);
    set_webp_effort(&mut webp, 9);
    assert_eq!(webp_effort(&webp), 9);
    assert_eq!(webp_preset(4), (3, 50));
    webp.insert("quality".into(), 51);
    assert_eq!(webp_effort(&webp), 6);
}

#[test]
fn avif_lossless_switch() {
    let mut avif = defaults(Format::Avif);
    set_avif_lossless(&mut avif, true);
    assert_eq!(avif.get("quality"), Some(100));
    assert_eq!(avif.get("qualityAlpha"), Some(-1));
    assert_eq!(avif.get("subsample"), Some(3));
    set_avif_lossless(&mut avif, false);
    assert_eq!(avif.get("quality"), Some(50));
    assert_eq!(avif.get("subsample"), Some(3));
    assert_eq!(avif.len(), defaults(Format::Avif).len());
}

#[test]
fn advanced_settings() {
    assert!(!is_advanced(Format::Jpeg, "quality"));
    assert!(is_advanced(Format::Jpeg, "trellis_loops"));
    assert!(!is_advanced(Format::Png, "interlace"));
    assert!(!is_advanced(Format::Webp, "near_lossless"));
    assert!(is_advanced(Format::Webp, "sns_strength"));
    assert!(!is_advanced(Format::Avif, "speed"));
    assert!(is_advanced(Format::Avif, "tune"));
}

#[test]
fn some_sliders_read_inverted() {
    assert_eq!(slider_value(Format::Avif, "speed", 6), 4);
    assert_eq!(slider_value(Format::Avif, "speed", slider_value(Format::Avif, "speed", 6)), 6);
    assert_eq!(slider_value(Format::Webp, "near_lossless", 100), 0);
    assert_eq!(slider_value(Format::Webp, "filter_sharpness", 2), 5);
    assert_eq!(slider_value(Format::Webp, "quality", 75), 75);
    assert_eq!(slider_value(Format::Jpeg, "speed", 3), 3);
}

#[test]
fn the_results_bubble_counts_whole_percents() {
    assert_eq!(size_change(50, 100), (50, SizeChange::Smaller));
    assert_eq!(size_change(150, 100), (50, SizeChange::Larger));
    assert_eq!(size_change(100, 100), (0, SizeChange::Same));
    assert_eq!(size_change(1, 3), (67, SizeChange::Smaller));
    assert_eq!(size_change(1001, 1000), (0, SizeChange::Larger));
    assert_eq!(size_change(1005, 1000), (1, SizeChange::Larger));
    assert_eq!(size_change(u64::MAX, 1), (u64::MAX as u128 * 100 - 100, SizeChange::Larger));
}
