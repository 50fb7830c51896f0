//! Callers, the errors an issuance can end in, and the authorization rule
//! every issuance is checked against.
use vstd::prelude::*;

use crate::config::Authorize;

verus! {

/// How far a caller's trust level reaches on the gateway's scale, as far as
/// the authorization rules tell levels apart.
#[derive(Clone, Copy, Debug, PartialEq, Eq, Structural)]
pub enum TrustStanding {
    /// Below `header_asserted` (for example an anonymous caller).
    BelowHeaderAsserted,
    /// At least `header_asserted`, but not `verified`.
    HeaderAsserted,
    /// `verified`.
    Verified,
}

/// The trust `t` reaches at least `header_asserted`.
pub open spec fn reaches_header_asserted(t: TrustStanding) -> bool {
    !(t is BelowHeaderAsserted)
}

/// The trust `t` reaches `verified`.
pub open spec fn reaches_verified(t: TrustStanding) -> bool {
    t is Verified
}

/// A caller as the gateway's identity chain established it: how far its
/// trust reaches, and the claims that the authorization rules read.
#[derive(Clone, Debug)]
pub struct CallerIdentity {
    /// How far the caller's trust level reaches.
    pub trust: TrustStanding,
    /// The caller's subject id, when it has one.
    pub subject_id: Option<String>,
    /// The roles the caller holds.
    pub roles: Vec<String>,
    /// The groups the caller belongs to.
    pub groups: Vec<String>,
}

/// Why a credential was not issued.
#[derive(Debug)]
pub enum CredentialError {
    /// The caller does not pass the target's authorization rule.
    NotAuthorized { reason: String },
    /// The request cannot be served as configured (e.g. an unknown target).
    Misconfigured { reason: String },
}

/// The mathematical content of a [`CredentialError`].
pub enum CredentialFault {
    NotAuthorized { reason: Seq<char> },
    Misconfigured { reason: Seq<char> },
}

impl View for CredentialError {
    type V = CredentialFault;

    open spec fn view(&self) -> CredentialFault {
        match self {
            CredentialError::NotAuthorized { reason } => CredentialFault::NotAuthorized {
                reason: reason@,
            },
            CredentialError::Misconfigured { reason } => CredentialFault::Misconfigured {
                reason: reason@,
            },
        }
    }
}

/// `s` is one of the names in `list`.
pub open spec fn lists(list: Seq<String>, s: Seq<char>) -> bool {
    exists|i: int| 0 <= i < list.len() && #[trigger] list[i]@ == s
}

/// Some name of `wanted` is also in `held`.
pub open spec fn shares(wanted: Seq<String>, held: Seq<String>) -> bool {
    exists|i: int| 0 <= i < wanted.len() && lists(held, #[trigger] wanted[i]@)
}

/// The caller `id` passes the rule `rule`.
pub open spec fn authorized(rule: Authorize, id: CallerIdentity) -> bool {
    match rule {
        Authorize::Any => reaches_header_asserted(id.trust),
        Authorize::Roles { roles } => reaches_verified(id.trust) && shares(roles@, id.roles@),
        Authorize::Groups { groups } => reaches_verified(id.trust) && shares(groups@, id.groups@),
        Authorize::Subjects { subjects } => reaches_verified(id.trust) && match id.subject_id {
            Some(s) => lists(subjects@, s@),
            None => false,
        },
    }
}

/// The reason given to a caller refused the target `target`.
pub open spec fn refusal_reason(target: Seq<char>) -> Seq<char> {
    "identity not permitted to issue target `"@ + target + "`"@
}

/// Whether `s` is one of the names in `list`.
pub fn lists_name(list: &Vec<String>, s: &String) -> (b: bool)
    ensures
        b == lists(list@, s@),
{
    let n = list.len();
    let mut i: usize = 0;
    while i < n
        invariant
            n == list@.len(),
            i <= n,
            forall|j: int| 0 <= j < i ==> #[trigger] list@[j]@ != s@,
        decreases n - i,
    {
        if list[i] == *s {
            return true;
        }
        i = i + 1;
    }
    false
}

/// Whether some name of `wanted` is also in `held`.
pub fn shares_name(wanted: &Vec<String>, held: &Vec<String>) -> (b: bool)
    ensures
        b == shares(wanted@, held@),
{
    let n = wanted.len();
    let mut i: usize = 0;
    while i < n
        invariant
            n == wanted@.len(),
            i <= n,
            forall|j: int| 0 <= j < i ==> !lists(held@, #[trigger] wanted@[j]@),
        decreases n - i,
    {
        if lists_name(held, &wanted[i]) {
            return true;
        }
        i = i + 1;
    }
    false
}

/// Checks the caller `identity` against the rule `rule` of the target
/// `target`: the caller is refused, with a reason naming the target, exactly
/// when it does not pass the rule.
pub fn check_authorization(target: &str, rule: &Authorize, identity: &CallerIdentity) -> (r: Result<
    (),
    CredentialError,
>)
    ensures
        r is Ok <==> authorized(*rule, *identity),
        r matches Err(e) ==> e@ == (CredentialFault::NotAuthorized { reason: refusal_reason(target@) }),
{
    let header_asserted = match identity.trust {
        TrustStanding::BelowHeaderAsserted => false,
        _ => true,
    };
    let verified = match identity.trust {
        TrustStanding::Verified => true,
        _ => false,
    };
    let passes = match rule {
        Authorize::Any => header_asserted,
        Authorize::Roles { roles } => verified && shares_name(
            roles,
            &identity.roles,
        ),
        Authorize::Groups { groups } => verified && shares_name(
            groups,
            &identity.groups,
        ),
        Authorize::Subjects { subjects } => verified && match &identity.subject_id {
            Some(s) => lists_name(subjects, s),
            None => false,
        },
    };
    if passes {
        Ok(())
    } else {
        let mut reason = "identity not permitted to issue target `".to_owned();
        reason.append(target);
        reason.append("`");
        Err(CredentialError::NotAuthorized { reason })
    }
}

} // verus!
