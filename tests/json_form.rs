use folco::json::ProfileJsonError;
use folco::profile::{
    CustomizationProfile, DecalSettings, HslMutationSettings, OverlaySettings, Scale,
    SerializablePosition, SerializableSvgSource,
};

fn full_profile() -> CustomizationProfile {
    CustomizationProfile::new()
        .with_hsl_mutation(HslMutationSettings {
            hue_shift: -120,
            saturation_shift: 0,
            lightness_shift: 2147483647,
        })
        .with_decal(DecalSettings {
            source: SerializableSvgSource::from_svg("<svg a=\"1\">\\\n\t</svg>".to_string()),
            scale: Scale::new(700).unwrap(),
            enabled: true,
        })
        .with_overlay(OverlaySettings {
            source: SerializableSvgSource::from_emoji("🦆".to_string()),
            position: SerializablePosition::BottomRight,
            scale: Scale::new(1000).unwrap(),
            enabled: false,
        })
}

#[test]
fn empty_profile_json() {
    let p = CustomizationProfile::new();
    assert_eq!(p.to_json(), "{\"hsl_mutation\":null,\"decal\":null,\"overlay\":null}");
    assert_eq!(CustomizationProfile::from_json(&p.to_json()), Ok(p));
}

#[test]
fn full_profile_json_text() {
    let j = full_profile().to_json();
    assert_eq!(
        j,
        "{\"hsl_mutation\":{\"hue_shift\":-120,\"saturation_shift\":0,\"lightness_shift\":2147483647},\
\"decal\":{\"source\":{\"Raw\":\"<svg a=\\\"1\\\">\\\\\\u000a\\u0009</svg>\"},\"scale\":700,\"enabled\":true},\
\"overlay\":{\"source\":{\"EmojiChar\":\"🦆\"},\"position\":\"BottomRight\",\"scale\":1000,\"enabled\":false}}"
    );
}

#[test]
fn full_profile_round_trip() {
    let p = full_profile();
    assert_eq!(CustomizationProfile::from_json(&p.to_json()), Ok(p));
}

#[test]
fn emoji_name_round_trip() {
    let p = CustomizationProfile::new().with_overlay(OverlaySettings {
        source: SerializableSvgSource::from_emoji_name("duck".to_string()),
        position: SerializablePosition::Center,
        scale: Scale::new(1).unwrap(),
        enabled: true,
    });
    assert_eq!(CustomizationProfile::from_json(&p.to_json()), Ok(p));
}

#[test]
fn json_scale_out_of_range_is_rejected() {
    let j = "{\"hsl_mutation\":null,\"decal\":{\"source\":{\"Raw\":\"<svg/>\"},\"scale\":0,\"enabled\":true},\"overlay\":null}";
    assert_eq!(CustomizationProfile::from_json(j), Err(ProfileJsonError::Malformed));
    let j = "{\"hsl_mutation\":null,\"decal\":{\"source\":{\"Raw\":\"<svg/>\"},\"scale\":1001,\"enabled\":true},\"overlay\":null}";
    assert_eq!(CustomizationProfile::from_json(j), Err(ProfileJsonError::Malformed));
}

#[test]
fn json_malformed_inputs() {
    assert_eq!(CustomizationProfile::from_json(""), Err(ProfileJsonError::Malformed));
    assert_eq!(CustomizationProfile::from_json("{}"), Err(ProfileJsonError::Malformed));
    assert_eq!(
        CustomizationProfile::from_json("{\"hsl_mutation\":null,\"decal\":null,\"overlay\":null} "),
        Err(ProfileJsonError::Malformed)
    );
    assert_eq!(
        CustomizationProfile::from_json("{\"hsl_mutation\":{\"hue_shift\":2147483648,\"saturation_shift\":0,\"lightness_shift\":0},\"decal\":null,\"overlay\":null}"),
        Err(ProfileJsonError::Malformed)
    );
    assert_eq!(
        CustomizationProfile::from_json("{\"hsl_mutation\":null,\"decal\":null,\"overlay\":{\"source\":{\"Svg\":\"x\"},\"position\":\"Center\",\"scale\":5,\"enabled\":true}}"),
        Err(ProfileJsonError::Malformed)
    );
}

#[test]
fn json_reads_escapes() {
    let j = "{\"hsl_mutation\":null,\"decal\":{\"source\":{\"EmojiName\":\"a\\\"b\\\\c\\u0041\"},\"scale\":5,\"enabled\":false},\"overlay\":null}";
    let p = CustomizationProfile::from_json(j).unwrap();
    assert_eq!(
        p.decal.unwrap().source,
        SerializableSvgSource::from_emoji_name("a\"b\\cA".to_string())
    );
}

#[test]
fn schema_names_every_key() {
    let s = folco::json::json_schema_string();
    assert_eq!(s, folco::json::PROFILE_SCHEMA);
    for key in ["hsl_mutation", "decal", "overlay", "hue_shift", "EmojiName", "BottomRight", "enabled"] {
        assert!(s.contains(key));
    }
}
