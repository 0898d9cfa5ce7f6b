use folco::profile::{
    CustomizationProfile, DecalSettings, HslMutationSettings, OverlaySettings, Scale, ScaleError,
    SerializablePosition, SerializableSvgSource,
};
use folco::source::{
    is_svg_path, looks_like_emoji, overlay_source_path, resolve_overlay_source,
    resolve_svg_source, svg_source_path, trim_str, SourceResolutionError,
};

fn raw(s: &str) -> SerializableSvgSource {
    SerializableSvgSource::from_svg(s.to_string())
}

#[test]
fn decal_markup_is_kept() {
    assert_eq!(resolve_svg_source("<svg/>", None), Ok(raw("<svg/>")));
}

#[test]
fn decal_markup_is_trimmed() {
    assert_eq!(resolve_svg_source("  <svg/>\n", None), Ok(raw("<svg/>")));
    assert_eq!(svg_source_path("  <svg/>"), None);
}

#[test]
fn decal_missing_file_is_refused() {
    assert_eq!(
        resolve_svg_source("/no/such/file", None),
        Err(SourceResolutionError::NotFoundOrMarkup { input: "/no/such/file".to_string() })
    );
}

#[test]
fn decal_file_contents_are_taken() {
    assert_eq!(svg_source_path(" /icons/a.svg "), Some("/icons/a.svg".to_string()));
    assert_eq!(
        resolve_svg_source(" /icons/a.svg ", Some("<svg>a</svg>".to_string())),
        Ok(raw("<svg>a</svg>"))
    );
}

#[test]
fn overlay_emoji_char() {
    assert_eq!(
        resolve_overlay_source("🦆", None),
        SerializableSvgSource::from_emoji("🦆".to_string())
    );
}

#[test]
fn overlay_emoji_name() {
    assert_eq!(
        resolve_overlay_source("duck", None),
        SerializableSvgSource::from_emoji_name("duck".to_string())
    );
    assert_eq!(
        resolve_overlay_source("  star ", None),
        SerializableSvgSource::from_emoji_name("star".to_string())
    );
}

#[test]
fn overlay_svg_file() {
    assert_eq!(overlay_source_path("/path/icon.svg"), Some("/path/icon.svg".to_string()));
    assert_eq!(
        resolve_overlay_source("/path/icon.svg", Some("<svg>x</svg>".to_string())),
        raw("<svg>x</svg>")
    );
}

#[test]
fn overlay_missing_svg_file_is_a_name() {
    assert_eq!(
        resolve_overlay_source("/path/icon.svg", None),
        SerializableSvgSource::from_emoji_name("/path/icon.svg".to_string())
    );
}

#[test]
fn overlay_word_is_never_a_file() {
    assert_eq!(overlay_source_path("duck"), None);
    assert_eq!(overlay_source_path("<svg/>"), None);
    assert_eq!(
        resolve_overlay_source("duck", Some("<svg/>".to_string())),
        SerializableSvgSource::from_emoji_name("duck".to_string())
    );
}

#[test]
fn overlay_markup() {
    assert_eq!(resolve_overlay_source(" <svg/> ", None), raw("<svg/>"));
}

#[test]
fn emoji_signals() {
    assert!(looks_like_emoji("🦆"));
    assert!(looks_like_emoji("a\u{200D}b"));
    assert!(looks_like_emoji("1\u{20E3}"));
    assert!(looks_like_emoji("\u{2764}\u{FE0F}"));
    assert!(looks_like_emoji("\u{2B50}"));
    assert!(!looks_like_emoji("duck"));
    assert!(!looks_like_emoji(""));
    assert!(!looks_like_emoji("é"));
}

#[test]
fn svg_extension() {
    assert!(is_svg_path("a.svg"));
    assert!(is_svg_path("dir/A.SVG"));
    assert!(is_svg_path(".x.Svg"));
    assert!(!is_svg_path(".svg"));
    assert!(!is_svg_path("dir/.svg"));
    assert!(!is_svg_path("svg"));
    assert!(!is_svg_path("a.svgz"));
    assert!(!is_svg_path("a.png"));
}

#[test]
fn scale_bounds() {
    assert_eq!(Scale::new(1).map(|s| s.thousandths()), Ok(1));
    assert_eq!(Scale::new(700).map(|s| s.thousandths()), Ok(700));
    assert_eq!(Scale::new(1000).map(|s| s.thousandths()), Ok(1000));
}

#[test]
fn scale_out_of_range_is_rejected() {
    assert_eq!(Scale::new(0), Err(ScaleError::OutOfRange { thousandths: 0 }));
    assert_eq!(Scale::new(1001), Err(ScaleError::OutOfRange { thousandths: 1001 }));
    assert_eq!(Scale::new(u32::MAX), Err(ScaleError::OutOfRange { thousandths: u32::MAX }));
}

#[test]
fn profile_builder() {
    let m = HslMutationSettings { hue_shift: 30, saturation_shift: -5, lightness_shift: 10 };
    let d = DecalSettings { source: raw("<svg/>"), scale: Scale::new(700).unwrap(), enabled: true };
    let o = OverlaySettings {
        source: SerializableSvgSource::from_emoji_name("duck".to_string()),
        position: SerializablePosition::TopLeft,
        scale: Scale::new(500).unwrap(),
        enabled: false,
    };
    let p = CustomizationProfile::new();
    assert_eq!(p.hsl_mutation, None);
    assert_eq!(p.active_decal(), None);
    let p = p.with_hsl_mutation(m).with_decal(d.clone()).with_overlay(o.clone());
    assert_eq!(p.hsl_mutation, Some(m));
    assert_eq!(p.decal, Some(d.clone()));
    assert_eq!(p.overlay, Some(o));
    assert_eq!(p.active_decal(), Some(&d));
    assert_eq!(p.active_overlay(), None);
}

#[test]
fn sources_differ_by_tag() {
    let s = "x".to_string();
    assert_ne!(SerializableSvgSource::from_svg(s.clone()), SerializableSvgSource::from_emoji(s.clone()));
    assert_ne!(SerializableSvgSource::from_emoji(s.clone()), SerializableSvgSource::from_emoji_name(s));
}

#[test]
fn trim_removes_white_space_at_both_ends() {
    assert_eq!(trim_str("  a b \t\n"), "a b");
    assert_eq!(trim_str("\u{3000}\u{A0}x\u{2028}"), "x");
    assert_eq!(trim_str(" \t "), "");
    assert_eq!(trim_str(""), "");
    assert_eq!(trim_str("x"), "x");
}
