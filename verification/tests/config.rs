use rustbow::color_gen::HueShiftConfig;
use rustbow::config::{
    chars_per_frame_of, Charset, CharsetTemplate, ColorGeneratorConfig, ConfigError, ConfigSet,
    FromConfig, RustBowConfig, RustBowConfigModifier, DEFAULT_CHARS_PER_FRAME,
};

#[test]
fn templates() {
    assert_eq!(CharsetTemplate::Default.build_charset().chars, vec!['@', '#', '$', '%', '&', '?']);
    assert_eq!(CharsetTemplate::Blocks.build_charset().chars, vec!['█', '▒', '░']);
    assert_eq!(CharsetTemplate::Corners.build_charset().chars, vec!['▘', '▝', '▖', '▗']);
    assert_eq!(
        CharsetTemplate::CornerBlock.build_charset().chars,
        vec![' ', '█', '▒', '░', '▘', '▝', '▖', '▗']
    );
}

#[test]
fn charsets() {
    static CHARS: [char; 2] = ['a', 'b'];
    assert_eq!(Charset::borrowed(&CHARS).chars, vec!['a', 'b']);
    assert_eq!(Charset::owned(vec!['z']).chars, vec!['z']);
}

#[test]
fn default_config() {
    let c = RustBowConfig::default();
    assert_eq!(c.charset.chars, CharsetTemplate::Default.build_charset().chars);
    assert!(c.background.is_none());
    assert_eq!(c.frame_nanos, 0);
    assert_eq!(c.chars_per_frame, 3);
    assert_eq!(DEFAULT_CHARS_PER_FRAME, 3);
}

fn no_change() -> RustBowConfigModifier {
    RustBowConfigModifier {
        charset: None,
        foreground_config: None,
        background_config: None,
        frame_nanos: None,
        chars_per_frame: None,
    }
}

#[test]
fn modify_with_nothing_keeps_config() {
    let c = RustBowConfig::default();
    let d = c.modify_with(&no_change());
    assert_eq!(d.charset.chars, c.charset.chars);
    assert!(d.background.is_none());
    assert_eq!(d.frame_nanos, c.frame_nanos);
    assert_eq!(d.chars_per_frame, c.chars_per_frame);
}

#[test]
fn modify_with_overrides_set_fields() {
    let c = RustBowConfig::default();
    let mut m = no_change();
    m.charset = Some(Charset::owned(vec!['x']));
    m.background_config = Some(ColorGeneratorConfig::parse("hue_shift", "rate:2").unwrap());
    m.chars_per_frame = Some(9);
    let d = c.modify_with(&m);
    assert_eq!(d.charset.chars, vec!['x']);
    assert_eq!(d.chars_per_frame, 9);
    assert_eq!(d.frame_nanos, 0);
    match &d.background {
        Some(ColorGeneratorConfig::HueShift(h)) => assert_eq!(h.rate.as_deref(), Some("2")),
        _ => panic!("background expected"),
    }
    // Idempotent.
    let e = d.modify_with(&m);
    assert_eq!(e.charset.chars, vec!['x']);
    assert_eq!(e.chars_per_frame, 9);
}

#[test]
fn later_modifier_wins() {
    let c = RustBowConfig::default();
    let mut m1 = no_change();
    m1.chars_per_frame = Some(4);
    m1.frame_nanos = Some(10);
    let mut m2 = no_change();
    m2.chars_per_frame = Some(5);
    let d = c.modify_with(&m1).modify_with(&m2);
    assert_eq!(d.chars_per_frame, 5);
    assert_eq!(d.frame_nanos, 10);
}

#[test]
fn chars_per_frame_zero_is_default() {
    assert_eq!(chars_per_frame_of(0), 3);
    assert_eq!(chars_per_frame_of(7), 7);
}

#[test]
fn hue_shift_from_config_takes_its_keys() {
    let mut set = ConfigSet::parse_str("rate:1,h:2,s:3,l:4").unwrap();
    let h = HueShiftConfig::from_config(&mut set).unwrap();
    assert_eq!(h.rate.as_deref(), Some("1"));
    assert_eq!(h.hue.as_deref(), Some("2"));
    assert_eq!(h.saturation.as_deref(), Some("3"));
    assert_eq!(h.lightness.as_deref(), Some("4"));
    assert_eq!(set.len(), 0);
}

#[test]
fn hue_shift_from_config_rejects_other_keys() {
    let mut set = ConfigSet::parse_str("rate:1,x:2").unwrap();
    match HueShiftConfig::from_config(&mut set) {
        Err(ConfigError::UnknownKeys { keys }) => assert_eq!(keys, vec!["x".to_string()]),
        other => panic!("unexpected {:?}", other),
    }
    assert_eq!(set.keys(), vec!["x".to_string()]);
}

#[test]
fn hue_shift_default() {
    let h = HueShiftConfig::default();
    assert!(h.rate.is_none() && h.hue.is_none() && h.saturation.is_none() && h.lightness.is_none());
}
