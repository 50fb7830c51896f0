//! Properties of the issuer that hold across its operations.
use vstd::prelude::*;

use crate::authorize::{
    authorized, lists, reaches_header_asserted, reaches_verified, shares, CallerIdentity,
    TrustStanding,
};
use crate::config::{
    config_fault, config_valid, entry_fault, first_fault, has_name, lemma_lookup_at, lookup,
    name_index, names_sorted, same_shape, Authorize, TargetEntry,
};
use crate::names::{lemma_name_lt_irreflexive, lemma_name_lt_transitive, name_lt};
use crate::authorize::CredentialError;
use crate::issuer::{issue_outcome, stamped_outcome, IssuedCredential};

verus! {

/// A configuration is valid exactly when it has at least one target and
/// every target sets exactly one of a value and parts, has a positive cache
/// lifetime, and has no empty authorization list.
pub proof fn lemma_config_valid_iff_targets_valid(ts: Seq<(Seq<char>, TargetEntry)>)
    ensures
        config_valid(ts) <==> ts.len() > 0 && forall|i: int|
            0 <= i < ts.len() ==> entry_fault(#[trigger] ts[i].0, ts[i].1) is None,
{
    lemma_first_fault_none_iff(ts);
}

proof fn lemma_first_fault_none_iff(ts: Seq<(Seq<char>, TargetEntry)>)
    ensures
        first_fault(ts) is None <==> forall|i: int|
            0 <= i < ts.len() ==> entry_fault(#[trigger] ts[i].0, ts[i].1) is None,
    decreases ts.len(),
{
    if ts.len() > 0 {
        lemma_first_fault_none_iff(ts.drop_first());
        if first_fault(ts) is None {
            assert forall|i: int| 0 <= i < ts.len() implies entry_fault(
                #[trigger] ts[i].0,
                ts[i].1,
            ) is None by {
                if i > 0 {
                    assert(ts.drop_first()[i - 1] == ts[i]);
                }
            }
        } else if entry_fault(ts[0].0, ts[0].1) is None {
            let k = choose|k: int|
                0 <= k < ts.drop_first().len() && !(entry_fault(
                    #[trigger] ts.drop_first()[k].0,
                    ts.drop_first()[k].1,
                ) is None);
            assert(ts.drop_first()[k] == ts[k + 1]);
        }
    }
}

/// Two configurations with the same target names, whose targets of each
/// name agree in whether a value is set, whether parts are empty, the cache
/// lifetime and the rule, validate alike: values, part names and contents,
/// and metadata play no part in validation.
pub proof fn lemma_validation_reads_only_shape(
    a: Seq<(Seq<char>, TargetEntry)>,
    b: Seq<(Seq<char>, TargetEntry)>,
)
    requires
        names_sorted(a),
        names_sorted(b),
        forall|k: Seq<char>| has_name(a, k) == has_name(b, k),
        forall|k: Seq<char>|
            has_name(a, k) ==> same_shape(#[trigger] lookup(a, k)->0, lookup(b, k)->0),
    ensures
        config_fault(a) == config_fault(b),
{
    lemma_sorted_same_names(a, b);
    assert forall|i: int| 0 <= i < a.len() implies #[trigger] a[i].0 == b[i].0 && same_shape(
        a[i].1,
        b[i].1,
    ) by {
        lemma_lookup_at(a, i);
        lemma_lookup_at(b, i);
        assert(has_name(a, a[i].0));
    }
    lemma_first_fault_by_shape(a, b);
}

/// Sequences of targets with the same names in the same order, agreeing in
/// shape target by target, have the same first fault.
proof fn lemma_first_fault_by_shape(a: Seq<(Seq<char>, TargetEntry)>, b: Seq<(Seq<char>, TargetEntry)>)
    requires
        a.len() == b.len(),
        forall|i: int| 0 <= i < a.len() ==> #[trigger] a[i].0 == b[i].0 && same_shape(a[i].1, b[i].1),
    ensures
        first_fault(a) == first_fault(b),
    decreases a.len(),
{
    if a.len() > 0 {
        assert forall|i: int| 0 <= i < a.drop_first().len() implies #[trigger] a.drop_first()[i].0
            == b.drop_first()[i].0 && same_shape(a.drop_first()[i].1, b.drop_first()[i].1) by {
            assert(a.drop_first()[i] == a[i + 1]);
            assert(b.drop_first()[i] == b[i + 1]);
        }
        lemma_first_fault_by_shape(a.drop_first(), b.drop_first());
        assert(a[0].0 == b[0].0 && same_shape(a[0].1, b[0].1));
    }
}

/// In sorted targets, the rest after the first holds every name but the first.
proof fn lemma_rest_names(a: Seq<(Seq<char>, TargetEntry)>, k: Seq<char>)
    requires
        names_sorted(a),
        a.len() > 0,
    ensures
        has_name(a.drop_first(), k) == (has_name(a, k) && k != a[0].0),
{
    lemma_name_lt_irreflexive(a[0].0);
    if has_name(a.drop_first(), k) {
        let j = name_index(a.drop_first(), k);
        assert(a.drop_first()[j] == a[j + 1]);
        assert(name_lt(a[0].0, a[j + 1].0));
    }
    if has_name(a, k) && k != a[0].0 {
        let j = name_index(a, k);
        assert(j > 0);
        assert(a.drop_first()[j - 1] == a[j]);
    }
}

/// Two sorted sequences of targets with the same set of names hold the same
/// names in the same order.
proof fn lemma_sorted_same_names(a: Seq<(Seq<char>, TargetEntry)>, b: Seq<(Seq<char>, TargetEntry)>)
    requires
        names_sorted(a),
        names_sorted(b),
        forall|k: Seq<char>| has_name(a, k) == has_name(b, k),
    ensures
        a.len() == b.len(),
        forall|i: int| 0 <= i < a.len() ==> #[trigger] a[i].0 == b[i].0,
    decreases a.len(),
{
    if a.len() == 0 {
        if b.len() > 0 {
            assert(has_name(b, b[0].0));
        }
    } else if b.len() == 0 {
        assert(has_name(a, a[0].0));
    } else {
        let x = a[0].0;
        let y = b[0].0;
        assert(has_name(a, x));
        assert(has_name(b, y));
        assert(has_name(b, x));
        assert(has_name(a, y));
        if x != y {
            let m = name_index(b, x);
            let k = name_index(a, y);
            assert(name_lt(y, b[m].0));
            assert(name_lt(x, a[k].0));
            lemma_name_lt_transitive(x, y, x);
            lemma_name_lt_irreflexive(x);
        }
        assert forall|k: Seq<char>| has_name(a.drop_first(), k) == has_name(b.drop_first(), k) by {
            lemma_rest_names(a, k);
            lemma_rest_names(b, k);
        }
        assert(names_sorted(a.drop_first()));
        assert(names_sorted(b.drop_first()));
        lemma_sorted_same_names(a.drop_first(), b.drop_first());
        assert forall|i: int| 0 <= i < a.len() implies #[trigger] a[i].0 == b[i].0 by {
            if i > 0 {
                assert(a.drop_first()[i - 1] == a[i]);
                assert(b.drop_first()[i - 1] == b[i]);
            }
        }
    }
}

/// A target entry without fault sets exactly one of a value and parts, has
/// a positive cache lifetime, and an authorization rule that lists someone
/// whenever it is a list.
pub proof fn lemma_target_valid_meaning(name: Seq<char>, e: TargetEntry)
    ensures
        entry_fault(name, e) is None <==> {
            &&& (e.value is Some) == e.parts@.is_empty()
            &&& e.ttl_seconds > 0
            &&& match e.authorize {
                Authorize::Any => true,
                Authorize::Roles { roles } => roles@.len() > 0,
                Authorize::Groups { groups } => groups@.len() > 0,
                Authorize::Subjects { subjects } => subjects@.len() > 0,
            }
        },
{
}

/// The default rule admits no caller whose trust falls short of
/// `header_asserted`: an anonymous caller never qualifies.
pub proof fn lemma_any_rule_needs_header_asserted(id: CallerIdentity)
    ensures
        authorized(Authorize::Any, id) <==> reaches_header_asserted(id.trust),
{
}

/// A name is in a list exactly when it stands at some position of it, the
/// first, the last or any other.
pub proof fn lemma_listed_at_any_position(list: Seq<String>, s: Seq<char>)
    ensures
        lists(list, s) <==> exists|i: int| 0 <= i < list.len() && #[trigger] list[i]@ == s,
        forall|i: int| 0 <= i < list.len() ==> lists(list, #[trigger] list[i]@),
{
    assert forall|i: int| 0 <= i < list.len() implies lists(list, #[trigger] list[i]@) by {
        assert(list[i]@ == list[i]@);
    }
}

/// The `any` rule admits exactly the callers whose trust is `header_asserted`
/// or `verified`, whatever their claims.
pub proof fn lemma_any_rule_admits(id: CallerIdentity)
    ensures
        authorized(Authorize::Any, id) <==> (id.trust == TrustStanding::HeaderAsserted || id.trust
            == TrustStanding::Verified),
{
}

/// A roles rule admits a caller exactly when the caller is verified and some
/// role it lists, at any position, is one the caller holds, at any position.
pub proof fn lemma_roles_rule_admits(roles: Vec<String>, id: CallerIdentity)
    ensures
        authorized(Authorize::Roles { roles }, id) <==> (id.trust == TrustStanding::Verified
            && exists|i: int, j: int|
            0 <= i < roles@.len() && 0 <= j < id.roles@.len() && #[trigger] roles@[i]@
                == #[trigger] id.roles@[j]@),
{
    lemma_shares_meaning(roles@, id.roles@);
}

/// A groups rule admits a caller exactly when the caller is verified and
/// some group it lists, at any position, is one the caller belongs to, at
/// any position.
pub proof fn lemma_groups_rule_admits(groups: Vec<String>, id: CallerIdentity)
    ensures
        authorized(Authorize::Groups { groups }, id) <==> (id.trust == TrustStanding::Verified
            && exists|i: int, j: int|
            0 <= i < groups@.len() && 0 <= j < id.groups@.len() && #[trigger] groups@[i]@
                == #[trigger] id.groups@[j]@),
{
    lemma_shares_meaning(groups@, id.groups@);
}

/// A subjects rule admits a caller exactly when the caller is verified, has
/// a subject id, and that id stands at some position of the allowlist.
pub proof fn lemma_subjects_rule_admits(subjects: Vec<String>, id: CallerIdentity)
    ensures
        authorized(Authorize::Subjects { subjects }, id) <==> (id.trust == TrustStanding::Verified
            && id.subject_id is Some && exists|i: int|
            0 <= i < subjects@.len() && #[trigger] subjects@[i]@ == id.subject_id->0@),
{
    if id.subject_id is Some {
        lemma_listed_at_any_position(subjects@, id.subject_id->0@);
    }
}

/// Two name lists share a name exactly when some position of the first and
/// some position of the second hold the same name.
proof fn lemma_shares_meaning(wanted: Seq<String>, held: Seq<String>)
    ensures
        shares(wanted, held) <==> exists|i: int, j: int|
            0 <= i < wanted.len() && 0 <= j < held.len() && #[trigger] wanted[i]@
                == #[trigger] held[j]@,
{
    if shares(wanted, held) {
        let i = choose|i: int| 0 <= i < wanted.len() && lists(held, #[trigger] wanted[i]@);
        let j = choose|j: int| 0 <= j < held.len() && #[trigger] held[j]@ == wanted[i]@;
        assert(wanted[i]@ == held[j]@);
    }
    if exists|i: int, j: int|
        0 <= i < wanted.len() && 0 <= j < held.len() && #[trigger] wanted[i]@ == #[trigger] held[j]@ {
        let (i, j) = choose|i: int, j: int|
            0 <= i < wanted.len() && 0 <= j < held.len() && #[trigger] wanted[i]@
                == #[trigger] held[j]@;
        assert(held[j]@ == wanted[i]@);
        assert(lists(held, wanted[i]@));
    }
}

/// The rules derived from identity claims (roles, groups, subjects) admit
/// only verified callers, whatever claims a caller presents.
pub proof fn lemma_identity_rules_need_verified(rule: Authorize, id: CallerIdentity)
    requires
        !(rule is Any),
        authorized(rule, id),
    ensures
        reaches_verified(id.trust),
{
}

/// A caller that gains roles, groups, or trust, and keeps its subject,
/// keeps every target it was admitted to.
pub proof fn lemma_more_claims_keep_authorization(
    rule: Authorize,
    id: CallerIdentity,
    more: CallerIdentity,
)
    requires
        authorized(rule, id),
        reaches_header_asserted(id.trust) ==> reaches_header_asserted(more.trust),
        reaches_verified(id.trust) ==> reaches_verified(more.trust),
        more.subject_id == id.subject_id,
        forall|i: int| 0 <= i < id.roles@.len() ==> lists(more.roles@, #[trigger] id.roles@[i]@),
        forall|i: int|
            0 <= i < id.groups@.len() ==> lists(more.groups@, #[trigger] id.groups@[i]@),
    ensures
        authorized(rule, more),
{
    match rule {
        Authorize::Roles { roles } => {
            let i = choose|i: int| 0 <= i < roles@.len() && lists(id.roles@, #[trigger] roles@[i]@);
            let j = choose|j: int| 0 <= j < id.roles@.len() && #[trigger] id.roles@[j]@ == roles@[i]@;
            assert(lists(more.roles@, id.roles@[j]@));
            assert(shares(roles@, more.roles@));
        },
        Authorize::Groups { groups } => {
            let i = choose|i: int| 0 <= i < groups@.len() && lists(id.groups@, #[trigger] groups@[i]@);
            let j = choose|j: int| 0 <= j < id.groups@.len() && #[trigger] id.groups@[j]@ == groups@[i]@;
            assert(lists(more.groups@, id.groups@[j]@));
            assert(shares(groups@, more.groups@));
        },
        _ => {},
    }
}

/// A credential is handed out only for a configured target, to a caller its
/// rule admits, and so only to a caller whose trust reaches at least
/// `header_asserted`.
pub proof fn lemma_issued_only_to_admitted(
    ts: Seq<(Seq<char>, TargetEntry)>,
    id: CallerIdentity,
    target: Seq<char>,
    r: Result<IssuedCredential, CredentialError>,
)
    requires
        issue_outcome(ts, id, target, r),
        r is Ok,
    ensures
        lookup(ts, target) is Some,
        authorized(lookup(ts, target)->0.authorize, id),
        reaches_header_asserted(id.trust),
{
}

/// Two results of issuing the same target to the same caller from the same
/// targets and with the same timestamp are the same: the same error, or
/// credentials carrying the same value, parts, lifetime, lease, timestamp and
/// metadata. Issuing keeps no state, so no issuance affects another.
pub proof fn lemma_same_stamp_same_outcome(
    ts: Seq<(Seq<char>, TargetEntry)>,
    id: CallerIdentity,
    target: Seq<char>,
    stamp: Seq<char>,
    r1: Result<IssuedCredential, CredentialError>,
    r2: Result<IssuedCredential, CredentialError>,
)
    requires
        stamped_outcome(ts, id, target, stamp, r1),
        stamped_outcome(ts, id, target, stamp, r2),
    ensures
        match (r1, r2) {
            (Ok(c1), Ok(c2)) => {
                &&& c1.value == c2.value
                &&& c1.parts@ == c2.parts@
                &&& c1.ttl_seconds == c2.ttl_seconds
                &&& c1.lease_id == c2.lease_id
                &&& c1.issued_at@ == c2.issued_at@
                &&& c1.metadata@ == c2.metadata@
            },
            (Err(e1), Err(e2)) => e1@ == e2@,
            _ => false,
        },
{
}

} // verus!
