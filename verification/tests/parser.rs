use rustbow::color_gen::HueShiftConfig;
use rustbow::config::{ColorGeneratorConfig, ConfigError};
use rustbow::parser::{
    leading_component, parse_color_str, parse_inline_color_str, parse_u32, split_speed,
    DEFAULT_COLOR_GEN_TYPE,
};

fn check_leading(s: &str, expected: Option<(&str, &str)>) {
    assert_eq!(leading_component(s), expected);
}

#[test]
fn test_leading_component() {
    check_leading("hue_shift:rate:0.1", Some(("hue_shift", "rate:0.1")));
    check_leading("hue_shift", Some(("hue_shift", "")));
    check_leading("rate:0.1", None);
    check_leading(
        "hue_shift:rate:0.1,something_else",
        Some(("hue_shift", "rate:0.1,something_else")),
    );
    check_leading("hue_shift:", Some(("hue_shift", "")));
}

fn hue_shift(cfg: ColorGeneratorConfig) -> HueShiftConfig {
    match cfg {
        ColorGeneratorConfig::HueShift(hue_cfg) => hue_cfg,
        #[allow(unreachable_patterns)]
        _ => panic!("Expected HueShift config"),
    }
}

#[test]
fn test_parse_color_str() {
    let cfg = parse_color_str("hue_shift:rate:0.1").unwrap();
    let hue_cfg = hue_shift(cfg);
    // The rate is kept as the text that was given; it denotes 0.1.
    assert_eq!(hue_cfg.rate.as_deref().map(|r| r.parse::<f32>().unwrap()), Some(0.1));
    // No h, s or l: the generator's default initial colour applies.
    assert_eq!(hue_cfg.hue, None);
    assert_eq!(hue_cfg.saturation, None);
    assert_eq!(hue_cfg.lightness, None);
}

#[test]
fn leading_component_edge_cases() {
    check_leading("", Some(("", "")));
    check_leading("hue_shift,rate:0.1", Some(("hue_shift", "")));
    check_leading("hue_shift:,rate:1", Some(("hue_shift", ",rate:1")));
    check_leading("a:b:c", Some(("a", "b:c")));
    check_leading("rate:0.1,h:2", None);
}

#[test]
fn parse_color_str_defaults_to_hue_shift() {
    assert_eq!(DEFAULT_COLOR_GEN_TYPE, "hue_shift");
    let hue_cfg = hue_shift(parse_color_str("rate:0.5, h : 120 ,s:1,l:0.5").unwrap());
    assert_eq!(hue_cfg.rate.as_deref(), Some("0.5"));
    assert_eq!(hue_cfg.hue.as_deref(), Some("120"));
    assert_eq!(hue_cfg.saturation.as_deref(), Some("1"));
    assert_eq!(hue_cfg.lightness.as_deref(), Some("0.5"));
}

#[test]
fn parse_color_str_bare_generator() {
    let hue_cfg = hue_shift(parse_color_str("hue_shift").unwrap());
    assert_eq!(hue_cfg.rate, None);
    assert_eq!(hue_cfg.hue, None);
}

#[test]
fn parse_color_str_unknown_generator() {
    match parse_color_str("perlin:scale:2") {
        Err(ConfigError::UnknownGenerator { name }) => assert_eq!(name, "perlin"),
        other => panic!("unexpected {:?}", other),
    }
}

#[test]
fn parse_color_str_unknown_key() {
    match parse_color_str("hue_shift:rate:1,speed:2") {
        Err(ConfigError::UnknownKeys { keys }) => assert_eq!(keys, vec!["speed".to_string()]),
        other => panic!("unexpected {:?}", other),
    }
}

#[test]
fn parse_color_str_missing_value() {
    match parse_color_str("hue_shift:rate:1, nonsense ") {
        Err(ConfigError::MissingValue { entry }) => assert_eq!(entry, "nonsense"),
        other => panic!("unexpected {:?}", other),
    }
}

#[test]
fn attribute_errors_come_before_generator_errors() {
    match parse_color_str("perlin:scale:2,oops") {
        Err(ConfigError::MissingValue { entry }) => assert_eq!(entry, "oops"),
        other => panic!("unexpected {:?}", other),
    }
}

#[test]
fn parse_generator_directly() {
    let cfg = ColorGeneratorConfig::parse("hue_shift", "l:0.25").unwrap();
    assert_eq!(hue_shift(cfg).lightness.as_deref(), Some("0.25"));
    assert!(matches!(
        ColorGeneratorConfig::parse("Hue_Shift", ""),
        Err(ConfigError::UnknownGenerator { .. })
    ));
}

#[test]
fn speed_parts() {
    assert_eq!(split_speed("60:5"), Some(("60", "5")));
    assert_eq!(split_speed(" 30 : 2 : extra"), Some(("30", "2")));
    assert_eq!(split_speed("60"), None);
    assert_eq!(split_speed("60:"), Some(("60", "")));
}

#[test]
fn empty_generator_type_is_hue_shift() {
    let a = hue_shift(ColorGeneratorConfig::parse("", "").unwrap());
    assert_eq!(a.rate, None);
    let b = hue_shift(ColorGeneratorConfig::parse("", "rate:3").unwrap());
    assert_eq!(b.rate.as_deref(), Some("3"));
    let c = hue_shift(parse_color_str(":rate:4").unwrap());
    assert_eq!(c.rate.as_deref(), Some("4"));
}

#[test]
fn inline_color_string() {
    let c = parse_inline_color_str(" rate : 0.5 ,h:10,rate:0.7").unwrap();
    assert_eq!(c.rate.as_deref(), Some("0.7"));
    assert_eq!(c.hue.as_deref(), Some("10"));
    assert_eq!(c.saturation, None);
    assert_eq!(c.lightness, None);
    let d = parse_inline_color_str("s:1,l:0.5").unwrap();
    assert_eq!(d.saturation.as_deref(), Some("1"));
    assert_eq!(d.lightness.as_deref(), Some("0.5"));
}

#[test]
fn inline_color_string_errors() {
    match parse_inline_color_str("rate:1,speed:2") {
        Err(ConfigError::UnknownKeys { keys }) => assert_eq!(keys, vec!["speed".to_string()]),
        other => panic!("unexpected {:?}", other),
    }
    // A blank part is an empty key, which is unknown.
    match parse_inline_color_str("rate:1,") {
        Err(ConfigError::UnknownKeys { keys }) => assert_eq!(keys, vec!["".to_string()]),
        other => panic!("unexpected {:?}", other),
    }
    match parse_inline_color_str("") {
        Err(ConfigError::UnknownKeys { keys }) => assert_eq!(keys, vec!["".to_string()]),
        other => panic!("unexpected {:?}", other),
    }
    // A known key with no value.
    match parse_inline_color_str("h") {
        Err(ConfigError::MissingValue { entry }) => assert_eq!(entry, "h"),
        other => panic!("unexpected {:?}", other),
    }
    // The unknown key is reported before a missing value.
    assert!(matches!(
        parse_inline_color_str("hue_shift:rate:1"),
        Err(ConfigError::UnknownKeys { .. })
    ));
}

#[test]
fn u32_parsing() {
    assert_eq!(parse_u32("5"), Some(5));
    assert_eq!(parse_u32("+42"), Some(42));
    assert_eq!(parse_u32("0007"), Some(7));
    assert_eq!(parse_u32("4294967295"), Some(u32::MAX));
    assert_eq!(parse_u32("4294967296"), None);
    assert_eq!(parse_u32(""), None);
    assert_eq!(parse_u32("+"), None);
    assert_eq!(parse_u32("-1"), None);
    assert_eq!(parse_u32(" 1"), None);
    assert_eq!(parse_u32("1x"), None);
    for s in ["0", "17", "+3", "99999999999", "", "a", "12 "] {
        assert_eq!(parse_u32(s), s.parse::<u32>().ok());
    }
}
