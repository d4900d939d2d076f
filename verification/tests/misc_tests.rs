use check_npm_version::colors::decimal_text;
use check_npm_version::strmap::StrMap;
use check_npm_version::logger::{get_log_level, log_enabled, set_log_level, LogLevel, LogState};
use check_npm_version::report::PackageJson;
use check_npm_version::text::{ends_with, find_char, same_text, starts_with, trim};
use check_npm_version::types::{DependencyType, PackageManagerType};

#[test]
fn log_levels_round_trip_through_numbers() {
    for l in [LogLevel::Off, LogLevel::Error, LogLevel::Warn, LogLevel::Info, LogLevel::Debug, LogLevel::Trace] {
        assert_eq!(LogLevel::from_u8(l.to_u8()), l);
    }
    assert_eq!(LogLevel::Trace.to_u8(), 5);
    assert_eq!(LogLevel::from_u8(9), LogLevel::Warn);
    assert_eq!(LogLevel::default(), LogLevel::Warn);
    assert_eq!(LogLevel::Debug.to_text(), "debug");
}

#[test]
fn the_level_set_is_the_level_in_force() {
    let mut s = LogState::new();
    assert_eq!(get_log_level(&s), LogLevel::Warn);
    assert!(log_enabled(&s, LogLevel::Error));
    assert!(!log_enabled(&s, LogLevel::Info));
    set_log_level(&mut s, LogLevel::Trace);
    assert_eq!(get_log_level(&s), LogLevel::Trace);
    assert!(log_enabled(&s, LogLevel::Trace));
    set_log_level(&mut s, LogLevel::Off);
    assert!(!log_enabled(&s, LogLevel::Error));
    assert!(log_enabled(&s, LogLevel::Off));
    let stored = LogState::from_code(3);
    assert_eq!(get_log_level(&stored), LogLevel::Info);
    assert!(log_enabled(&stored, LogLevel::Info));
    assert!(!log_enabled(&stored, LogLevel::Debug));
}

#[test]
fn titles_and_commands() {
    assert_eq!(DependencyType::Normal.to_text(), "Normal Dependencies");
    assert_eq!(DependencyType::Dev.to_text(), "Development Dependencies");
    assert_eq!(DependencyType::Peer.to_text(), "Peer Dependencies");
    assert_eq!(DependencyType::Optional.to_text(), "Optional Dependencies");
    assert_eq!(PackageManagerType::Pnpm.to_text(), "pnpm");
    assert_eq!(PackageManagerType::Yarn.to_text(), "yarn");
    assert_eq!(PackageManagerType::Npm.to_text(), "npm");
}

#[test]
fn text_helpers() {
    assert_eq!(trim("\u{3000} \t a b \r\n"), "a b");
    assert_eq!(trim("   "), "");
    assert!(starts_with("@acme/x", "@"));
    assert!(!starts_with("", "@"));
    assert!(ends_with("@acme:registry", ":registry"));
    assert!(!ends_with("registry", ":registry"));
    assert_eq!(find_char("a=b=c", '='), 1);
    assert_eq!(find_char("abc", '='), 3);
    assert!(same_text("é", "é"));
    assert!(!same_text("a", "ab"));
}

#[test]
fn sections_of_package_json() {
    let p = PackageJson {
        dependencies: vec![("a".to_string(), "1".to_string())],
        dev_dependencies: vec![],
        peer_dependencies: vec![("b".to_string(), "2".to_string())],
        optional_dependencies: vec![],
    };
    assert_eq!(p.section(DependencyType::Normal).len(), 1);
    assert_eq!(p.section(DependencyType::Peer)[0].0, "b");
    assert!(p.section(DependencyType::Dev).is_empty());
}

#[test]
fn decimal_texts() {
    assert_eq!(decimal_text(0), "0");
    assert_eq!(decimal_text(90), "90");
    assert_eq!(decimal_text(18446744073709551615), "18446744073709551615");
}

#[test]
fn text_maps_keep_the_last_value() {
    let mut m = StrMap::new();
    m.insert("k".to_string(), "1".to_string());
    m.insert("j".to_string(), "2".to_string());
    m.insert("k".to_string(), "3".to_string());
    assert_eq!(m.get("k").map(|s| s.as_str()), Some("3"));
    assert!(m.contains_key("j"));
    m.remove("k");
    assert!(!m.contains_key("k"));
    assert_eq!(m.get("j").map(|s| s.as_str()), Some("2"));
    let mut other = StrMap::new();
    other.insert("j".to_string(), "4".to_string());
    other.insert("z".to_string(), "5".to_string());
    m.extend(&other);
    assert_eq!(m.get("j").map(|s| s.as_str()), Some("4"));
    assert_eq!(m.get("z").map(|s| s.as_str()), Some("5"));
}
