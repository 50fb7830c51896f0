//! The static credential issuer: a set of targets, each handed out
//! to the callers its authorization rule admits.
use std::collections::BTreeMap;
use vstd::prelude::*;

use crate::authorize::{
    authorized, check_authorization, refusal_reason, CallerIdentity, CredentialError,
    CredentialFault,
};
use crate::clock::{issuance_timestamp, rfc3339_shaped};
use crate::manifest::{static_issuer_manifest, static_issuer_manifest_value, PluginManifest};
use crate::config::{
    ConfigError,
    config_fault, config_valid, entry_fault, lemma_valid_entries, lookup, name_index, has_name,
    StaticConfig, TargetEntry,
};

verus! {

/// A credential handed out for a target.
#[derive(Clone, Debug)]
pub struct IssuedCredential {
    /// The single value, for a single-value target.
    pub value: Option<String>,
    /// The named parts, for a multi-part target.
    pub parts: BTreeMap<String, String>,
    /// How long the gateway may cache the credential, in seconds.
    pub ttl_seconds: u64,
    /// The lease the credential is held under; static credentials have none.
    pub lease_id: Option<String>,
    /// When the credential was issued (RFC 3339, UTC).
    pub issued_at: String,
    /// The target's free-form metadata.
    pub metadata: BTreeMap<String, String>,
}

/// `c` carries what the target `entry` configures.
pub open spec fn issued_from(c: IssuedCredential, entry: TargetEntry) -> bool {
    &&& c.value == entry.value
    &&& c.parts@ == entry.parts@
    &&& c.ttl_seconds == entry.ttl_seconds
    &&& c.lease_id is None
    &&& c.metadata@ == entry.metadata@
}

/// The reason given for a target that is not configured.
pub open spec fn unknown_target_reason(target: Seq<char>) -> Seq<char> {
    "unknown target `"@ + target + "` in credential.static plugin"@
}

/// What issuing `target` to `identity` from the targets `ts` ends in: the
/// error for an unknown target, the refusal for a caller the rule does not
/// admit, or a credential carrying the target's configuration.
pub open spec fn issue_outcome(
    ts: Seq<(Seq<char>, TargetEntry)>,
    identity: CallerIdentity,
    target: Seq<char>,
    r: Result<IssuedCredential, CredentialError>,
) -> bool {
    match lookup(ts, target) {
        None => r matches Err(e) && e@ == (CredentialFault::Misconfigured {
            reason: unknown_target_reason(target),
        }),
        Some(entry) => if authorized(entry.authorize, identity) {
            r matches Ok(c) && issued_from(c, entry)
        } else {
            r matches Err(e) && e@ == (CredentialFault::NotAuthorized {
                reason: refusal_reason(target),
            })
        },
    }
}

/// The credential for the target `entry`, stamped `issued_at`.
pub fn credential_for(entry: &TargetEntry, issued_at: String) -> (c: IssuedCredential)
    ensures
        issued_from(c, *entry),
        c.issued_at == issued_at,
{
    let value = match &entry.value {
        Some(v) => Some(v.clone()),
        None => None,
    };
    IssuedCredential {
        value,
        parts: entry.parts.clone(),
        ttl_seconds: entry.ttl_seconds,
        lease_id: None,
        issued_at,
        metadata: entry.metadata.clone(),
    }
}

/// The entry of `target` in `cfg`, once `identity` has passed its rule: an
/// unknown target is a misconfiguration, and a caller the rule does not
/// admit is refused.
pub fn authorize_issue<'a>(cfg: &'a StaticConfig, identity: &CallerIdentity, target: &str) -> (r:
    Result<&'a TargetEntry, CredentialError>)
    ensures
        match lookup(cfg@, target@) {
            None => r matches Err(e) && e@ == (CredentialFault::Misconfigured {
                reason: unknown_target_reason(target@),
            }),
            Some(entry) => if authorized(entry.authorize, *identity) {
                r matches Ok(e) && *e == entry
            } else {
                r matches Err(e) && e@ == (CredentialFault::NotAuthorized {
                    reason: refusal_reason(target@),
                })
            },
        },
{
    let entry = match cfg.target(target) {
        Some(e) => e,
        None => {
            let mut reason = "unknown target `".to_owned();
            reason.append(target);
            reason.append("` in credential.static plugin");
            return Err(CredentialError::Misconfigured { reason });
        },
    };
    match check_authorization(target, &entry.authorize, identity) {
        Ok(()) => Ok(entry),
        Err(e) => Err(e),
    }
}

/// `r` is what issuing `target` from `ts` to `identity` ends in, with an
/// issued credential stamped `stamp`.
pub open spec fn stamped_outcome(
    ts: Seq<(Seq<char>, TargetEntry)>,
    identity: CallerIdentity,
    target: Seq<char>,
    stamp: Seq<char>,
    r: Result<IssuedCredential, CredentialError>,
) -> bool {
    &&& issue_outcome(ts, identity, target, r)
    &&& r matches Ok(c) ==> c.issued_at@ == stamp
}

/// Issues `target` from `cfg` to `identity`, stamped `issued_at`.
pub fn issue_at(cfg: &StaticConfig, identity: &CallerIdentity, target: &str, issued_at: String) -> (r:
    Result<IssuedCredential, CredentialError>)
    ensures
        stamped_outcome(cfg@, *identity, target@, issued_at@, r),
{
    match authorize_issue(cfg, identity, target) {
        Ok(entry) => Ok(credential_for(entry, issued_at)),
        Err(e) => Err(e),
    }
}

/// Issues `target` from `cfg` to `identity`, stamped with the current time,
/// which is read only once the caller has been admitted.
pub fn issue_for(cfg: &StaticConfig, identity: &CallerIdentity, target: &str) -> (r: Result<
    IssuedCredential,
    CredentialError,
>)
    ensures
        issue_outcome(cfg@, *identity, target@, r),
        r matches Ok(c) ==> c.issued_at@.len() == 0 || rfc3339_shaped(c.issued_at@),
{
    match authorize_issue(cfg, identity, target) {
        Ok(entry) => Ok(credential_for(entry, issuance_timestamp())),
        Err(e) => Err(e),
    }
}

/// A credential issuer serving a configuration under the static issuer's
/// manifest.
#[derive(Debug)]
pub struct StaticCredentialPlugin {
    manifest: PluginManifest,
    config: StaticConfig,
}

impl View for StaticCredentialPlugin {
    type V = Seq<(Seq<char>, TargetEntry)>;

    closed spec fn view(&self) -> Seq<(Seq<char>, TargetEntry)> {
        self.config@
    }
}

impl StaticCredentialPlugin {
    #[verifier::type_invariant]
    closed spec fn declares_static_issuer(self) -> bool {
        static_issuer_manifest(self.manifest)
    }

    /// The issuer serving `cfg` as it is given: its targets as configured,
    /// any other target a misconfiguration. Meant for a configuration that has
    /// passed validation; it is not validated again.
    pub fn from_validated_config(cfg: StaticConfig) -> (p: Self)
        ensures
            p@ == cfg@,
    {
        StaticCredentialPlugin { manifest: static_issuer_manifest_value(), config: cfg }
    }

    /// The issuer serving `cfg`, or the first fault validation finds in it.
    pub fn from_config(cfg: StaticConfig) -> (r: Result<Self, ConfigError>)
        ensures
            match r {
                Ok(p) => config_valid(cfg@) && p@ == cfg@,
                Err(e) => config_fault(cfg@) == Some(e@),
            },
    {
        match cfg.validate() {
            Ok(()) => Ok(StaticCredentialPlugin::from_validated_config(cfg)),
            Err(e) => Err(e),
        }
    }

    /// The manifest the issuer registers under.
    pub fn manifest(&self) -> (m: &PluginManifest)
        ensures
            static_issuer_manifest(*m),
    {
        proof {
            use_type_invariant(self);
        }
        &self.manifest
    }

    /// The configuration served.
    pub fn config(&self) -> (cfg: &StaticConfig)
        ensures
            cfg@ == self@,
    {
        &self.config
    }

    /// Issues `target` to `identity`. A credential is handed out only to a
    /// caller the target's rule admits; from a valid configuration it always
    /// has a positive cache lifetime and exactly one of a value and parts.
    pub fn issue(&self, identity: &CallerIdentity, target: &str) -> (r: Result<
        IssuedCredential,
        CredentialError,
    >)
        ensures
            issue_outcome(self@, *identity, target@, r),
            r matches Ok(c) ==> c.issued_at@.len() == 0 || rfc3339_shaped(c.issued_at@),
            config_valid(self@) ==> (r matches Ok(c) ==> c.ttl_seconds > 0 && (c.value is Some)
                == c.parts@.is_empty()),
    {
        proof {
            if config_valid(self@) && has_name(self@, target@) {
                let j = name_index(self@, target@);
                assert(0 <= j < self@.len());
                lemma_valid_entries(self@, j);
                assert(lookup(self@, target@) == Some(self@[j].1));
                assert(entry_fault(self@[j].0, self@[j].1) is None);
            }
        }
        issue_for(&self.config, identity, target)
    }
}

} // verus!
