use std::collections::BTreeMap;

use credential_static::authorize::TrustStanding;
use credential_static::clock::{signed_unix_nanos, timestamp_text};
use credential_static::issuer::issue_at;
use credential_static::manifest::PluginClass;
use credential_static::{
    check_authorization, Authorize, CallerIdentity, CredentialError, StaticConfig,
    StaticCredentialPlugin, TargetEntry,
};

fn entry(value: Option<&str>, parts: &[(&str, &str)], ttl_seconds: u64, authorize: Authorize) -> TargetEntry {
    TargetEntry {
        value: value.map(|v| v.to_string()),
        parts: parts.iter().map(|(k, v)| (k.to_string(), v.to_string())).collect(),
        ttl_seconds,
        authorize,
        metadata: BTreeMap::new(),
    }
}

fn build(targets: Vec<(&str, TargetEntry)>) -> StaticCredentialPlugin {
    let mut cfg = StaticConfig::new();
    for (name, e) in targets {
        cfg.insert_target(name.to_string(), e);
    }
    StaticCredentialPlugin::from_config(cfg).unwrap()
}

fn identity_with(roles: &[&str], groups: &[&str], subject: &str) -> CallerIdentity {
    CallerIdentity {
        trust: TrustStanding::Verified,
        subject_id: Some(subject.to_string()),
        roles: roles.iter().map(|s| (*s).to_owned()).collect(),
        groups: groups.iter().map(|s| (*s).to_owned()).collect(),
    }
}

/// The standing of the trust levels the gateway names, from lowest to highest.
fn identity_at_trust(trust_level: &str, subject: &str) -> CallerIdentity {
    let trust = match trust_level {
        "anonymous" => TrustStanding::BelowHeaderAsserted,
        "header_asserted" => TrustStanding::HeaderAsserted,
        "verified" => TrustStanding::Verified,
        other => panic!("unknown trust level {other}"),
    };
    CallerIdentity {
        trust,
        subject_id: Some(subject.to_string()),
        roles: vec![],
        groups: vec![],
    }
}

fn roles(list: &[&str]) -> Authorize {
    Authorize::Roles { roles: list.iter().map(|s| s.to_string()).collect() }
}

fn subjects(list: &[&str]) -> Authorize {
    Authorize::Subjects { subjects: list.iter().map(|s| s.to_string()).collect() }
}

#[test]
fn issues_single_value_credential() {
    let plugin = build(vec![("service-token", entry(Some("tok-abc"), &[], 60, Authorize::Any))]);
    let cred = plugin.issue(&identity_with(&[], &[], "alice"), "service-token").unwrap();
    assert_eq!(cred.value.as_deref(), Some("tok-abc"));
    assert_eq!(cred.ttl_seconds, 60);
}

#[test]
fn issues_multi_part_credential() {
    let plugin = build(vec![(
        "orders-pg",
        entry(None, &[("username", "u"), ("password", "p")], 3600, Authorize::Any),
    )]);
    let cred = plugin.issue(&identity_with(&[], &[], "alice"), "orders-pg").unwrap();
    assert_eq!(cred.parts.get("username").unwrap(), "u");
    assert_eq!(cred.parts.get("password").unwrap(), "p");
}

#[test]
fn unknown_target_returns_misconfigured() {
    let plugin = build(vec![("x", entry(Some("y"), &[], 3600, Authorize::Any))]);
    let err = plugin.issue(&identity_with(&[], &[], "alice"), "missing").unwrap_err();
    match err {
        CredentialError::Misconfigured { reason } => assert!(reason.contains("missing")),
        other => panic!("unexpected: {other:?}"),
    }
}

#[test]
fn roles_rule_blocks_non_role_holders() {
    let plugin = build(vec![("admin-token", entry(Some("admin-x"), &[], 3600, roles(&["admin"])))]);
    let err = plugin.issue(&identity_with(&["dev"], &[], "alice"), "admin-token").unwrap_err();
    assert!(matches!(err, CredentialError::NotAuthorized { .. }));
    let ok = plugin.issue(&identity_with(&["admin"], &[], "alice"), "admin-token");
    assert!(ok.is_ok());
}

#[test]
fn subjects_rule_allowlists_specific_users() {
    let plugin = build(vec![("alice-only", entry(Some("x"), &[], 3600, subjects(&["alice"])))]);
    assert!(plugin.issue(&identity_with(&[], &[], "alice"), "alice-only").is_ok());
    assert!(matches!(
        plugin.issue(&identity_with(&[], &[], "bob"), "alice-only").unwrap_err(),
        CredentialError::NotAuthorized { .. }
    ));
}

#[test]
fn any_rule_rejects_anonymous_caller() {
    let plugin = build(vec![("default-tok", entry(Some("secret"), &[], 3600, Authorize::Any))]);
    assert!(matches!(
        plugin.issue(&identity_at_trust("anonymous", "whoever"), "default-tok").unwrap_err(),
        CredentialError::NotAuthorized { .. }
    ));
    assert!(plugin.issue(&identity_at_trust("header_asserted", "whoever"), "default-tok").is_ok());
}

#[test]
fn subjects_rule_rejects_header_asserted_subject() {
    let plugin = build(vec![("alice-only", entry(Some("x"), &[], 3600, subjects(&["alice"])))]);
    assert!(matches!(
        plugin.issue(&identity_at_trust("header_asserted", "alice"), "alice-only").unwrap_err(),
        CredentialError::NotAuthorized { .. }
    ));
    assert!(plugin.issue(&identity_with(&[], &[], "alice"), "alice-only").is_ok());
}

#[test]
fn issued_at_is_rfc3339() {
    let plugin = build(vec![("x", entry(Some("y"), &[], 3600, Authorize::Any))]);
    let cred = plugin.issue(&identity_with(&[], &[], "alice"), "x").unwrap();
    assert!(cred.issued_at.len() >= 20);
    assert!(cred.issued_at.contains('T'));
    assert_eq!(&cred.issued_at[10..11], "T");
}

#[test]
fn refusal_and_unknown_target_reasons_name_the_target() {
    let plugin = build(vec![("vault", entry(Some("v"), &[], 30, roles(&["ops"])))]);
    match plugin.issue(&identity_with(&["dev"], &[], "carol"), "vault").unwrap_err() {
        CredentialError::NotAuthorized { reason } => {
            assert_eq!(reason, "identity not permitted to issue target `vault`")
        }
        other => panic!("unexpected: {other:?}"),
    }
    match plugin.issue(&identity_with(&["ops"], &[], "carol"), "nope").unwrap_err() {
        CredentialError::Misconfigured { reason } => {
            assert_eq!(reason, "unknown target `nope` in credential.static plugin")
        }
        other => panic!("unexpected: {other:?}"),
    }
}

#[test]
fn groups_rule_needs_membership_and_verified_trust() {
    let rule = Authorize::Groups { groups: vec!["sre".to_string(), "dba".to_string()] };
    assert!(check_authorization("t", &rule, &identity_with(&[], &["dba"], "dan")).is_ok());
    assert!(check_authorization("t", &rule, &identity_with(&[], &["web"], "dan")).is_err());
    let mut header_only = identity_at_trust("header_asserted", "dan");
    header_only.groups = vec!["dba".to_string()];
    assert!(check_authorization("t", &rule, &header_only).is_err());
}

#[test]
fn roles_rule_ignores_roles_below_verified_trust() {
    let mut header_only = identity_at_trust("header_asserted", "erin");
    header_only.roles = vec!["admin".to_string()];
    assert!(check_authorization("t", &roles(&["admin"]), &header_only).is_err());
}

#[test]
fn subjects_rule_refuses_caller_without_subject() {
    let mut no_subject = identity_with(&[], &[], "alice");
    no_subject.subject_id = None;
    assert!(check_authorization("t", &subjects(&["alice"]), &no_subject).is_err());
}

#[test]
fn issued_credential_carries_metadata_and_no_lease() {
    let mut e = entry(Some("tok"), &[], 120, Authorize::Any);
    e.metadata.insert("owner".to_string(), "platform-team".to_string());
    let plugin = build(vec![("orders-api", e)]);
    let cred = plugin.issue(&identity_at_trust("verified", "x"), "orders-api").unwrap();
    assert_eq!(cred.metadata.get("owner").map(String::as_str), Some("platform-team"));
    assert!(cred.lease_id.is_none());
    assert!(cred.parts.is_empty());
    assert_eq!(cred.ttl_seconds, 120);
}

#[test]
fn invalid_config_builds_no_issuer() {
    let mut cfg = StaticConfig::new();
    cfg.insert_target("t".to_string(), entry(Some("v"), &[], 0, Authorize::Any));
    assert!(StaticCredentialPlugin::from_config(cfg).is_err());
}

#[test]
fn issuer_serves_its_validated_config() {
    let mut cfg = StaticConfig::new();
    cfg.insert_target("t".to_string(), entry(Some("v"), &[], 9, Authorize::Any));
    cfg.validate().unwrap();
    let plugin = StaticCredentialPlugin::from_validated_config(cfg);
    assert_eq!(plugin.config().len(), 1);
    assert_eq!(plugin.config().target("t").unwrap().ttl_seconds, 9);
}

#[test]
fn unvalidated_config_is_served_as_given() {
    let mut cfg = StaticConfig::new();
    cfg.insert_target("zero-ttl".to_string(), entry(Some("v"), &[], 0, Authorize::Any));
    let plugin = StaticCredentialPlugin::from_validated_config(cfg);
    let cred = plugin.issue(&identity_with(&[], &[], "a"), "zero-ttl").unwrap();
    assert_eq!(cred.ttl_seconds, 0);
    assert!(matches!(
        plugin.issue(&identity_with(&[], &[], "a"), "other").unwrap_err(),
        CredentialError::Misconfigured { .. }
    ));
}

#[test]
fn manifest_declares_the_static_issuer() {
    let plugin = build(vec![("x", entry(Some("y"), &[], 1, Authorize::Any))]);
    let m = plugin.manifest();
    assert_eq!(m.id, "dev.mcpg.credential.static");
    assert_eq!(m.name, "Static Credential Issuer");
    assert_eq!(m.protocol_version, "1.0");
    assert_eq!(m.plugin_class, PluginClass::CredentialIssuer);
    assert!(m.required_capabilities.is_empty());
    assert!(m.license.is_none());
}

#[test]
fn same_stamp_gives_same_credential() {
    let plugin = build(vec![("svc", entry(Some("tok"), &[], 30, Authorize::Any))]);
    let id = identity_with(&[], &[], "alice");
    let stamp = "2024-01-02T03:04:05Z".to_string();
    let a = issue_at(plugin.config(), &id, "svc", stamp.clone()).unwrap();
    let b = issue_at(plugin.config(), &id, "svc", stamp.clone()).unwrap();
    assert_eq!(a.issued_at, stamp);
    assert_eq!(a.issued_at, b.issued_at);
    assert_eq!(a.value, b.value);
    assert_eq!(a.ttl_seconds, b.ttl_seconds);
}

#[test]
fn timestamp_text_keeps_formatted_text() {
    assert_eq!(
        timestamp_text(Some(Ok("2024-01-02T03:04:05Z".to_string()))),
        "2024-01-02T03:04:05Z"
    );
    assert_eq!(timestamp_text(None), "");
}

#[test]
fn clock_readings_count_signed_nanoseconds() {
    assert_eq!(signed_unix_nanos(Ok(1_500)), Some(1_500));
    assert_eq!(signed_unix_nanos(Err(2_000)), Some(-2_000));
    assert_eq!(signed_unix_nanos(Ok(u128::MAX)), None);
    assert_eq!(signed_unix_nanos(Err(u128::MAX)), None);
}

#[test]
fn issued_stamp_has_digits_in_place() {
    let plugin = build(vec![("x", entry(Some("y"), &[], 3600, Authorize::Any))]);
    let cred = plugin.issue(&identity_with(&[], &[], "alice"), "x").unwrap();
    let chars: Vec<char> = cred.issued_at.chars().collect();
    for i in [0, 1, 2, 3, 5, 6, 8, 9, 11, 12, 14, 15, 17, 18] {
        assert!(chars[i].is_ascii_digit());
    }
    assert_eq!(chars[4], '-');
    assert_eq!(chars[13], ':');
}
