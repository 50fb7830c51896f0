use std::collections::BTreeMap;

use credential_static::config::ConfigError;
use credential_static::names::{compare_names, NameOrder};
use credential_static::{default_ttl, Authorize, StaticConfig, TargetEntry};

fn value_entry(value: &str, ttl_seconds: u64) -> TargetEntry {
    TargetEntry {
        value: Some(value.to_string()),
        parts: BTreeMap::new(),
        ttl_seconds,
        authorize: Authorize::default(),
        metadata: BTreeMap::new(),
    }
}

fn config_of(targets: Vec<(&str, TargetEntry)>) -> StaticConfig {
    let mut cfg = StaticConfig::new();
    for (name, entry) in targets {
        cfg.insert_target(name.to_string(), entry);
    }
    cfg
}

fn parse(cfg: StaticConfig) -> Result<StaticConfig, ConfigError> {
    StaticConfig::from_parsed(Ok(cfg))
}

#[test]
fn parses_minimal_config() {
    let cfg = config_of(vec![("tgt-1", value_entry("secret-token", default_ttl()))]);
    let parsed = parse(cfg).unwrap();
    assert_eq!(parsed.len(), 1);
    let entry = parsed.target("tgt-1").unwrap();
    assert_eq!(entry.value.as_deref(), Some("secret-token"));
    assert_eq!(entry.ttl_seconds, 3600);
}

#[test]
fn parses_multi_part_config() {
    let mut parts = BTreeMap::new();
    parts.insert("username".to_string(), "alice".to_string());
    parts.insert("password".to_string(), "secret".to_string());
    let entry = TargetEntry {
        value: None,
        parts,
        ttl_seconds: 600,
        authorize: Authorize::default(),
        metadata: BTreeMap::new(),
    };
    let parsed = parse(config_of(vec![("orders-pg", entry)])).unwrap();
    let entry = parsed.target("orders-pg").unwrap();
    assert_eq!(entry.parts.get("username").unwrap(), "alice");
    assert_eq!(entry.ttl_seconds, 600);
}

#[test]
fn rejects_both_value_and_parts() {
    let mut entry = value_entry("x", default_ttl());
    entry.parts.insert("y".to_string(), "z".to_string());
    let err = parse(config_of(vec![("tgt-1", entry)])).unwrap_err();
    assert!(matches!(
        err,
        ConfigError::InvalidValueParts { ref target, has_value: true, parts_empty: false }
            if target == "tgt-1"
    ));
}

#[test]
fn rejects_neither_value_nor_parts() {
    let mut entry = value_entry("x", 60);
    entry.value = None;
    let err = parse(config_of(vec![("tgt-1", entry)])).unwrap_err();
    assert!(matches!(
        err,
        ConfigError::InvalidValueParts { ref target, has_value: false, parts_empty: true }
            if target == "tgt-1"
    ));
}

#[test]
fn rejects_zero_ttl() {
    let err = parse(config_of(vec![("tgt-1", value_entry("x", 0))])).unwrap_err();
    assert!(matches!(err, ConfigError::InvalidTtl { ref target } if target == "tgt-1"));
}

#[test]
fn rejects_empty_roles_authorize() {
    let mut entry = value_entry("x", default_ttl());
    entry.authorize = Authorize::Roles { roles: vec![] };
    let err = parse(config_of(vec![("tgt-1", entry)])).unwrap_err();
    assert!(matches!(
        err,
        ConfigError::EmptyAuthorizeList { ref target, rule: "roles" } if target == "tgt-1"
    ));
}

#[test]
fn rejects_empty_groups_and_subjects_lists() {
    let mut groups = value_entry("x", default_ttl());
    groups.authorize = Authorize::Groups { groups: vec![] };
    let err = parse(config_of(vec![("g", groups)])).unwrap_err();
    assert!(matches!(err, ConfigError::EmptyAuthorizeList { rule: "groups", .. }));

    let mut subjects = value_entry("x", default_ttl());
    subjects.authorize = Authorize::Subjects { subjects: vec![] };
    let err = parse(config_of(vec![("s", subjects)])).unwrap_err();
    assert!(matches!(err, ConfigError::EmptyAuthorizeList { rule: "subjects", .. }));
}

#[test]
fn rejects_empty_targets() {
    let err = StaticConfig::new().validate().unwrap_err();
    assert!(matches!(err, ConfigError::EmptyTargets));
}

#[test]
fn unreadable_document_is_invalid_json() {
    let json_err = serde_json::from_str::<serde_json::Value>("{").unwrap_err();
    let err = StaticConfig::from_parsed(Err(json_err)).unwrap_err();
    assert!(matches!(err, ConfigError::InvalidJson(_)));
}

#[test]
fn first_faulty_target_in_name_order_is_reported() {
    // Inserted out of order: the report names the target that sorts first.
    let cfg = config_of(vec![
        ("zeta", value_entry("x", 0)),
        ("alpha", value_entry("ok", 5)),
        ("beta", value_entry("y", 0)),
    ]);
    let err = cfg.validate().unwrap_err();
    assert!(matches!(err, ConfigError::InvalidTtl { ref target } if target == "beta"));
}

#[test]
fn ttl_check_follows_value_parts_check() {
    let mut entry = value_entry("x", 0);
    entry.value = None;
    let err = parse(config_of(vec![("t", entry)])).unwrap_err();
    assert!(matches!(err, ConfigError::InvalidValueParts { .. }));
}

#[test]
fn insert_target_replaces_and_returns_previous() {
    let mut cfg = StaticConfig::new();
    assert!(cfg.insert_target("a".to_string(), value_entry("one", 1)).is_none());
    assert!(cfg.insert_target("c".to_string(), value_entry("three", 3)).is_none());
    assert!(cfg.insert_target("b".to_string(), value_entry("two", 2)).is_none());
    let previous = cfg.insert_target("a".to_string(), value_entry("uno", 1)).unwrap();
    assert_eq!(previous.value.as_deref(), Some("one"));
    assert_eq!(cfg.len(), 3);
    assert_eq!(cfg.target("a").unwrap().value.as_deref(), Some("uno"));
    assert_eq!(cfg.target("b").unwrap().value.as_deref(), Some("two"));
    assert!(cfg.target("d").is_none());
    let names: Vec<&str> = cfg.targets().iter().map(|(n, _)| n.as_str()).collect();
    assert_eq!(names, vec!["a", "b", "c"]);
}

#[test]
fn cloned_config_keeps_targets() {
    let cfg = config_of(vec![("b", value_entry("2", 2)), ("a", value_entry("1", 1))]);
    let copy = cfg.clone();
    assert_eq!(copy.len(), 2);
    assert_eq!(copy.target("a").unwrap().value.as_deref(), Some("1"));
    assert_eq!(copy.target("b").unwrap().ttl_seconds, 2);
}

#[test]
fn names_order_by_characters() {
    assert_eq!(compare_names("abc", "abd"), NameOrder::Less);
    assert_eq!(compare_names("abc", "abc"), NameOrder::Equal);
    assert_eq!(compare_names("abcd", "abc"), NameOrder::Greater);
    assert_eq!(compare_names("", "a"), NameOrder::Less);
    assert_eq!(compare_names("Z", "a"), NameOrder::Less);
    assert_eq!(compare_names("é", "z"), NameOrder::Greater);
}

#[test]
fn defaults_are_any_rule_and_one_hour() {
    assert!(matches!(Authorize::default(), Authorize::Any));
    assert_eq!(default_ttl(), 3600);
}

#[test]
fn json_error_converts_to_invalid_json() {
    let json_err = serde_json::from_str::<serde_json::Value>("[").unwrap_err();
    assert!(matches!(ConfigError::from(json_err), ConfigError::InvalidJson(_)));
}

#[test]
fn validation_ignores_values_and_metadata() {
    let mut with_meta = value_entry("first", 0);
    with_meta.metadata.insert("k".to_string(), "v".to_string());
    let a = config_of(vec![("t", with_meta), ("u", value_entry("x", 5))]);
    let b = config_of(vec![("u", value_entry("other", 5)), ("t", value_entry("second", 0))]);
    let ea = a.validate().unwrap_err();
    let eb = b.validate().unwrap_err();
    assert!(matches!(ea, ConfigError::InvalidTtl { ref target } if target == "t"));
    assert!(matches!(eb, ConfigError::InvalidTtl { ref target } if target == "t"));
}
