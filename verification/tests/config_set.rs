use rustbow::config::set::ConfigNote;
use rustbow::config::{ConfigError, ConfigSet};
use std::str::FromStr;

#[test]
fn empty_set_finishes() {
    let set = ConfigSet::empty();
    assert_eq!(set.len(), 0);
    assert!(set.finish().is_ok());
}

#[test]
fn parse_and_take() {
    let mut set = ConfigSet::parse_str(" a : 1 ,, b:2:3 ,").unwrap();
    assert_eq!(set.len(), 2);
    assert_eq!(set.keys(), vec!["a".to_string(), "b".to_string()]);
    assert_eq!(set.take("b").as_deref(), Some("2:3"));
    assert_eq!(set.take("b"), None);
    assert_eq!(set.take("a").as_deref(), Some("1"));
    assert!(set.finish().is_ok());
}

#[test]
fn later_value_wins() {
    let mut set = ConfigSet::from_str("k:1,j:0,k:2").unwrap();
    assert_eq!(set.keys(), vec!["k".to_string(), "j".to_string()]);
    assert_eq!(set.take("k").as_deref(), Some("2"));
}

#[test]
fn insert_then_take() {
    let mut set = ConfigSet::empty();
    set.insert("x".to_string(), "1".to_string());
    set.insert("y".to_string(), "2".to_string());
    set.insert("x".to_string(), "3".to_string());
    assert_eq!(set.len(), 2);
    assert_eq!(set.take("x").as_deref(), Some("3"));
    assert_eq!(set.take("y").as_deref(), Some("2"));
    assert_eq!(set.len(), 0);
}

#[test]
fn entry_without_value_is_an_error() {
    match ConfigSet::parse_str("a:1,b") {
        Err(ConfigError::MissingValue { entry }) => assert_eq!(entry, "b"),
        other => panic!("unexpected {:?}", other),
    }
}

#[test]
fn empty_key_and_value_are_kept() {
    let mut set = ConfigSet::parse_str(":").unwrap();
    assert_eq!(set.take("").as_deref(), Some(""));
}

#[test]
fn finish_names_unknown_keys() {
    let set = ConfigSet::parse_str("p:1,q:2").unwrap();
    match set.finish() {
        Err(ConfigError::UnknownKeys { keys }) => {
            assert_eq!(keys, vec!["p".to_string(), "q".to_string()])
        }
        other => panic!("unexpected {:?}", other),
    }
}

#[test]
fn take_with_parser_parses_and_removes() {
    let mut set = ConfigSet::parse_str("n:42,m:x").unwrap();
    let n: Result<Option<u32>, _> = set.take_with_parser("n", |s| s.parse::<u32>());
    assert_eq!(n.unwrap(), Some(42));
    let m: Result<Option<u32>, _> = set.take_with_parser("m", |s| s.parse::<u32>());
    assert!(m.is_err());
    let z: Result<Option<u32>, std::num::ParseIntError> =
        set.take_with_parser("z", |s| s.parse::<u32>());
    assert_eq!(z.unwrap(), None);
    assert_eq!(set.len(), 0);
}

#[test]
fn whitespace_is_unicode_white_space() {
    let mut set = ConfigSet::parse_str("\u{3000}k\u{a0}:\tv\u{2028}").unwrap();
    assert_eq!(set.take("k").as_deref(), Some("v"));
}

#[test]
fn take_any_uses_the_first_present_key_and_removes_all() {
    let mut set = ConfigSet::parse_str("hue:10,h:20,x:1").unwrap();
    assert_eq!(set.take_any(&["h", "hue"]).as_deref(), Some("20"));
    assert_eq!(set.keys(), vec!["x".to_string()]);
    assert_eq!(set.take_any(&["h", "hue"]), None);
    assert_eq!(set.take_any(&["q", "x"]).as_deref(), Some("1"));
    assert_eq!(set.len(), 0);
}

#[test]
fn clone_keeps_pairs() {
    let set = ConfigSet::parse_str("a:1,b:2").unwrap();
    let mut copy = set.clone();
    assert_eq!(copy.keys(), set.keys());
    assert_eq!(copy.take("b").as_deref(), Some("2"));
    assert_eq!(set.len(), 2);
}

#[test]
fn joined_strings_later_entries_override() {
    let mut joined = ConfigSet::parse_str(&format!("{},{}", "a:1,b:2", "b:3,c:4")).unwrap();
    assert_eq!(joined.keys(), vec!["a".to_string(), "b".to_string(), "c".to_string()]);
    assert_eq!(joined.take("a").as_deref(), Some("1"));
    assert_eq!(joined.take("b").as_deref(), Some("3"));
    assert_eq!(joined.take("c").as_deref(), Some("4"));
}

#[test]
fn parse_noted_reports_blank_and_duplicate_entries() {
    let (set, notes) = ConfigSet::parse_noted("k:1, ,k:2").unwrap();
    assert_eq!(set.len(), 1);
    assert_eq!(notes.len(), 2);
    assert!(matches!(notes[0], ConfigNote::EmptyEntry));
    match &notes[1] {
        ConfigNote::DuplicateKey { key, old, new } => {
            assert_eq!(key, "k");
            assert_eq!(old, "1");
            assert_eq!(new, "2");
        }
        other => panic!("unexpected {:?}", other),
    }
    let (_, none) = ConfigSet::parse_noted("a:1,b:2").unwrap();
    assert!(none.is_empty());
}

#[test]
fn take_any_noting_lists_found_keys() {
    let mut set = ConfigSet::parse_str("hue:10,h:20").unwrap();
    let (value, found) = set.take_any_noting(&["h", "hue", "x", "h"]);
    assert_eq!(value.as_deref(), Some("20"));
    assert_eq!(found, vec!["h".to_string(), "hue".to_string()]);
    assert_eq!(set.len(), 0);
}
