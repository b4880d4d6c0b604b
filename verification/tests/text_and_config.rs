use zebras_launcher::config::{merge_configs, ConfigMap, ConfigParser};
use zebras_launcher::errors::LauncherError;
use zebras_launcher::models::{ProjectInfo, ZebrasVersion};
use zebras_launcher::text;

#[test]
fn blankness_sees_only_whitespace() {
    assert!(text::is_blank(""));
    assert!(text::is_blank(" \t\r\n "));
    assert!(!text::is_blank(" x "));
}

#[test]
fn trim_strips_both_ends() {
    assert_eq!(text::trim("  hello world \n"), "hello world");
    assert_eq!(text::trim("nothing-to-do"), "nothing-to-do");
    assert_eq!(text::trim(" \t "), "");
}

#[test]
fn substring_search_finds_inner_matches() {
    assert!(text::contains_str("zebras dev", "zebras"));
    assert!(text::contains_str("abc", ""));
    assert!(!text::contains_str("zebra dev", "zebras"));
    assert!(!text::contains_str("ab", "abc"));
}

#[test]
fn string_equality_is_by_characters() {
    assert!(text::str_eq("same", "same"));
    assert!(!text::str_eq("same", "sama"));
    assert!(!text::str_eq("same", "sam"));
}

#[test]
fn decimal_rendering_is_exact() {
    assert_eq!(text::u64_decimal(0), "0");
    assert_eq!(text::u64_decimal(12345), "12345");
    assert_eq!(text::u64_decimal(u64::MAX), "18446744073709551615");
    assert_eq!(text::i64_decimal(-7), "-7");
    assert_eq!(text::i64_decimal(0), "0");
    assert_eq!(text::i64_decimal(i64::MIN), "-9223372036854775808");
}

#[test]
fn config_map_overrides_by_key() {
    let mut m = ConfigMap::new();
    m.insert("port".to_string(), "8000".to_string());
    m.insert("name".to_string(), "demo".to_string());
    assert_eq!(m.get("port"), Some(&"8000".to_string()));
    m.insert("port".to_string(), "9000".to_string());
    assert_eq!(m.get("port"), Some(&"9000".to_string()));
    assert_eq!(m.get("name"), Some(&"demo".to_string()));
    assert_eq!(m.get("missing"), None);
}

#[test]
fn merge_prefers_the_local_side() {
    let mut main = ConfigMap::new();
    main.insert("port".to_string(), "8000".to_string());
    main.insert("name".to_string(), "demo".to_string());
    let mut local = ConfigMap::new();
    local.insert("port".to_string(), "9000".to_string());
    local.insert("domain".to_string(), "yilu".to_string());

    let merged = merge_configs(&main, &local);
    assert_eq!(merged.get("port"), Some(&"9000".to_string()));
    assert_eq!(merged.get("name"), Some(&"demo".to_string()));
    assert_eq!(merged.get("domain"), Some(&"yilu".to_string()));
}

#[test]
fn version_detection_prefers_the_longer_marker() {
    assert_eq!(
        ConfigParser::determine_version_from_text("zebras dev"),
        Some(ZebrasVersion::V3)
    );
    assert_eq!(
        ConfigParser::determine_version_from_text("zebra dev"),
        Some(ZebrasVersion::V2)
    );
    assert_eq!(
        ConfigParser::determine_version_from_text("ZEBRAS start --hot"),
        Some(ZebrasVersion::V3)
    );
    assert_eq!(ConfigParser::determine_version_from_text("vite --host"), None);
}

#[test]
fn fresh_projects_carry_the_declared_defaults() {
    let p = ProjectInfo::new("/somewhere/app".to_string(), "app".to_string());
    assert_eq!(p.port, 8000);
    assert_eq!(p.version, ZebrasVersion::V3);
    assert_eq!(p.platform, "web");
    assert_eq!(p.type_, "app");
    assert!(p.is_valid);
    assert_eq!(p.enabled, Some(true));
    assert_eq!(p.id.len(), 36);
}

#[test]
fn every_error_has_a_message() {
    let errors = vec![
        LauncherError::NotFound,
        LauncherError::AlreadyRunning,
        LauncherError::EmptyCommand,
        LauncherError::TooManySessions,
        LauncherError::NoActiveProcess,
        LauncherError::SpawnFailure("boom".to_string()),
        LauncherError::KillFailure("boom".to_string()),
        LauncherError::PortExhausted("web".to_string()),
        LauncherError::ConfigWriteFailure("boom".to_string()),
        LauncherError::UnsupportedTask,
        LauncherError::TaskFailed(3),
    ];
    for e in errors {
        assert!(!e.message().is_empty());
    }
    assert!(LauncherError::PortExhausted("web".to_string())
        .message()
        .ends_with("web"));
}

#[test]
fn entry_order_is_insertion_order() {
    let mut m = ConfigMap::new();
    m.insert("b".to_string(), "2".to_string());
    m.insert("a".to_string(), "1".to_string());
    m.insert("b".to_string(), "3".to_string());
    let entries = m.entry_list();
    assert_eq!(
        entries,
        &vec![("b".to_string(), "3".to_string()), ("a".to_string(), "1".to_string())]
    );
    let copy = m.duplicate();
    assert_eq!(copy.get("b"), Some(&"3".to_string()));
    assert_eq!(copy.entry_list(), entries);
}
