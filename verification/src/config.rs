//! Operator-supplied configuration: the targets, their credentials, and the
//! checks a configuration must pass before an issuer is built from it.
use std::collections::BTreeMap;
use vstd::prelude::*;

use crate::names::{compare_names, lemma_name_lt_irreflexive, lemma_name_lt_transitive, name_lt, NameOrder};

verus! {

/// The error `serde_json` reports when a configuration document cannot be
/// read; this crate only carries it.
#[verifier::external_type_specification]
#[verifier::external_body]
pub struct ExJsonError(serde_json::Error);

/// The cache lifetime, in seconds, of a target whose configuration names none.
pub fn default_ttl() -> (ttl: u64)
    ensures
        ttl == 3600,
{
    3600
}

/// Per-target identity-authorisation rule.
#[derive(Debug)]
pub enum Authorize {
    /// Any authenticated caller (trust level at least `header_asserted`).
    Any,
    /// The caller must be verified and hold at least one of the roles.
    Roles { roles: Vec<String> },
    /// The caller must be verified and belong to at least one of the groups.
    Groups { groups: Vec<String> },
    /// The caller must be verified and its subject id must be listed.
    Subjects { subjects: Vec<String> },
}

impl Default for Authorize {
    fn default() -> (rule: Self)
        ensures
            rule == Authorize::Any,
    {
        Authorize::Any
    }
}

/// One configured target.
#[derive(Debug)]
pub struct TargetEntry {
    /// Single-value credential; exclusive with `parts`.
    pub value: Option<String>,
    /// Named credential parts; exclusive with `value`.
    pub parts: BTreeMap<String, String>,
    /// Cache lifetime of the issued credential, in seconds.
    pub ttl_seconds: u64,
    /// Who may be issued this target.
    pub authorize: Authorize,
    /// Free-form metadata attached to the issued credential.
    pub metadata: BTreeMap<String, String>,
}

/// A copy of the names `list`.
fn copy_names(list: &Vec<String>) -> (c: Vec<String>)
    ensures
        c@ == list@,
{
    let mut c: Vec<String> = Vec::new();
    let n = list.len();
    let mut i: usize = 0;
    while i < n
        invariant
            n == list@.len(),
            i <= n,
            c@ == list@.subrange(0, i as int),
        decreases n - i,
    {
        c.push(list[i].clone());
        i = i + 1;
        assert(c@ =~= list@.subrange(0, i as int));
    }
    assert(list@.subrange(0, n as int) =~= list@);
    c
}

/// `a` and `b` are the same rule over the same names.
pub open spec fn same_rule(a: Authorize, b: Authorize) -> bool {
    match (a, b) {
        (Authorize::Any, Authorize::Any) => true,
        (Authorize::Roles { roles: x }, Authorize::Roles { roles: y }) => x@ == y@,
        (Authorize::Groups { groups: x }, Authorize::Groups { groups: y }) => x@ == y@,
        (Authorize::Subjects { subjects: x }, Authorize::Subjects { subjects: y }) => x@ == y@,
        _ => false,
    }
}

/// `a` and `b` configure the same credential the same way.
pub open spec fn same_entry(a: TargetEntry, b: TargetEntry) -> bool {
    &&& a.value == b.value
    &&& a.parts@ == b.parts@
    &&& a.ttl_seconds == b.ttl_seconds
    &&& same_rule(a.authorize, b.authorize)
    &&& a.metadata@ == b.metadata@
}

impl Clone for Authorize {
    /// The same rule over copies of the same names.
    fn clone(&self) -> (c: Self)
        ensures
            same_rule(c, *self),
    {
        match self {
            Authorize::Any => Authorize::Any,
            Authorize::Roles { roles } => Authorize::Roles { roles: copy_names(roles) },
            Authorize::Groups { groups } => Authorize::Groups { groups: copy_names(groups) },
            Authorize::Subjects { subjects } => Authorize::Subjects {
                subjects: copy_names(subjects),
            },
        }
    }
}

impl Clone for TargetEntry {
    /// A copy configuring the same credential the same way.
    fn clone(&self) -> (c: Self)
        ensures
            same_entry(c, *self),
    {
        let value = match &self.value {
            Some(v) => Some(v.clone()),
            None => None,
        };
        TargetEntry {
            value,
            parts: self.parts.clone(),
            ttl_seconds: self.ttl_seconds,
            authorize: self.authorize.clone(),
            metadata: self.metadata.clone(),
        }
    }
}

/// Why a configuration is refused.
#[derive(Debug)]
pub enum ConfigError {
    /// The document could not be read as a configuration.
    InvalidJson(serde_json::Error),
    /// No target is configured.
    EmptyTargets,
    /// A target sets both or neither of `value` and `parts`.
    InvalidValueParts { target: String, has_value: bool, parts_empty: bool },
    /// A target has a zero cache lifetime.
    InvalidTtl { target: String },
    /// A target's authorization rule lists nobody.
    EmptyAuthorizeList { target: String, rule: &'static str },
}

impl From<serde_json::Error> for ConfigError {
    /// A document the reader could not read.
    fn from(e: serde_json::Error) -> (err: Self) {
        ConfigError::InvalidJson(e)
    }
}

impl vstd::std_specs::convert::FromSpecImpl<serde_json::Error> for ConfigError {
    open spec fn obeys_from_spec() -> bool {
        true
    }

    open spec fn from_spec(e: serde_json::Error) -> ConfigError {
        ConfigError::InvalidJson(e)
    }
}

/// The mathematical content of a [`ConfigError`].
pub enum ConfigFault {
    InvalidJson,
    EmptyTargets,
    InvalidValueParts { target: Seq<char>, has_value: bool, parts_empty: bool },
    InvalidTtl { target: Seq<char> },
    EmptyAuthorizeList { target: Seq<char>, rule: Seq<char> },
}

impl View for ConfigError {
    type V = ConfigFault;

    open spec fn view(&self) -> ConfigFault {
        match self {
            ConfigError::InvalidJson(_) => ConfigFault::InvalidJson,
            ConfigError::EmptyTargets => ConfigFault::EmptyTargets,
            ConfigError::InvalidValueParts { target, has_value, parts_empty } =>
                ConfigFault::InvalidValueParts {
                    target: target@,
                    has_value: *has_value,
                    parts_empty: *parts_empty,
                },
            ConfigError::InvalidTtl { target } => ConfigFault::InvalidTtl { target: target@ },
            ConfigError::EmptyAuthorizeList { target, rule } =>
                ConfigFault::EmptyAuthorizeList { target: target@, rule: rule@ },
        }
    }
}

/// `a` and `b` agree in everything validation reads of a target: whether a
/// value is set, whether parts are empty, the cache lifetime, and the rule.
pub open spec fn same_shape(a: TargetEntry, b: TargetEntry) -> bool {
    &&& (a.value is Some) == (b.value is Some)
    &&& a.parts@.is_empty() == b.parts@.is_empty()
    &&& a.ttl_seconds == b.ttl_seconds
    &&& same_rule(a.authorize, b.authorize)
}

/// What is wrong with the target `name` configured as `e`, if anything; the
/// checks run in this order and the first that fails is reported.
pub open spec fn entry_fault(name: Seq<char>, e: TargetEntry) -> Option<ConfigFault> {
    let has_value = e.value is Some;
    let parts_empty = e.parts@.is_empty();
    if has_value != parts_empty {
        Some(ConfigFault::InvalidValueParts { target: name, has_value, parts_empty })
    } else if e.ttl_seconds == 0 {
        Some(ConfigFault::InvalidTtl { target: name })
    } else {
        match e.authorize {
            Authorize::Roles { roles } => if roles@.len() == 0 {
                Some(ConfigFault::EmptyAuthorizeList { target: name, rule: "roles"@ })
            } else {
                None
            },
            Authorize::Groups { groups } => if groups@.len() == 0 {
                Some(ConfigFault::EmptyAuthorizeList { target: name, rule: "groups"@ })
            } else {
                None
            },
            Authorize::Subjects { subjects } => if subjects@.len() == 0 {
                Some(ConfigFault::EmptyAuthorizeList { target: name, rule: "subjects"@ })
            } else {
                None
            },
            Authorize::Any => None,
        }
    }
}

/// The fault of the first faulty target of `ts`, in order.
pub open spec fn first_fault(ts: Seq<(Seq<char>, TargetEntry)>) -> Option<ConfigFault>
    decreases ts.len(),
{
    if ts.len() == 0 {
        None
    } else {
        match entry_fault(ts[0].0, ts[0].1) {
            Some(f) => Some(f),
            None => first_fault(ts.drop_first()),
        }
    }
}

/// What is wrong with a configuration holding the targets `ts`, if anything.
pub open spec fn config_fault(ts: Seq<(Seq<char>, TargetEntry)>) -> Option<ConfigFault> {
    if ts.len() == 0 {
        Some(ConfigFault::EmptyTargets)
    } else {
        first_fault(ts)
    }
}

/// A configuration with the targets `ts` passes validation.
pub open spec fn config_valid(ts: Seq<(Seq<char>, TargetEntry)>) -> bool {
    config_fault(ts) is None
}

/// The names of `ts` are strictly increasing.
pub open spec fn names_sorted(ts: Seq<(Seq<char>, TargetEntry)>) -> bool {
    forall|i: int, j: int| 0 <= i < j < ts.len() ==> name_lt(#[trigger] ts[i].0, #[trigger] ts[j].0)
}

/// Some target of `ts` is named `name`.
pub open spec fn has_name(ts: Seq<(Seq<char>, TargetEntry)>, name: Seq<char>) -> bool {
    exists|i: int| 0 <= i < ts.len() && #[trigger] ts[i].0 == name
}

/// A position of `ts` at which a target named `name` stands, if there is one.
pub open spec fn name_index(ts: Seq<(Seq<char>, TargetEntry)>, name: Seq<char>) -> int {
    choose|i: int| 0 <= i < ts.len() && #[trigger] ts[i].0 == name
}

/// The entry that `ts` configures for `name`.
pub open spec fn lookup(ts: Seq<(Seq<char>, TargetEntry)>, name: Seq<char>) -> Option<TargetEntry> {
    if has_name(ts, name) {
        Some(ts[name_index(ts, name)].1)
    } else {
        None
    }
}

/// Every target of a configuration without fault is itself without fault.
pub proof fn lemma_valid_entries(ts: Seq<(Seq<char>, TargetEntry)>, i: int)
    requires
        first_fault(ts) is None,
        0 <= i < ts.len(),
    ensures
        entry_fault(ts[i].0, ts[i].1) is None,
    decreases ts.len(),
{
    if i > 0 {
        assert(ts.drop_first()[i - 1] == ts[i]);
        lemma_valid_entries(ts.drop_first(), i - 1);
    }
}

/// In a sorted sequence of targets, the target at `i` is the one its name finds.
pub proof fn lemma_lookup_at(ts: Seq<(Seq<char>, TargetEntry)>, i: int)
    requires
        names_sorted(ts),
        0 <= i < ts.len(),
    ensures
        lookup(ts, ts[i].0) == Some(ts[i].1),
{
    let name = ts[i].0;
    assert(has_name(ts, name));
    let j = name_index(ts, name);
    assert(0 <= j < ts.len() && ts[j].0 == name);
    lemma_name_lt_irreflexive(name);
    if j < i {
        assert(name_lt(ts[j].0, ts[i].0));
    } else if i < j {
        assert(name_lt(ts[i].0, ts[j].0));
    }
    assert(j == i);
}

/// The targets of `ts` with each name taken by its characters.
pub open spec fn named(ts: Seq<(String, TargetEntry)>) -> Seq<(Seq<char>, TargetEntry)> {
    ts.map_values(|t: (String, TargetEntry)| (t.0@, t.1))
}

/// Where `name` stands, or would stand, among the sorted targets of `ts`:
/// the first position whose name does not come before `name`, and whether
/// the target there is named `name`.
fn find_slot(ts: &Vec<(String, TargetEntry)>, name: &str) -> (r: (usize, bool))
    requires
        names_sorted(named(ts@)),
    ensures
        r.0 <= ts@.len(),
        forall|j: int| 0 <= j < r.0 ==> name_lt(#[trigger] named(ts@)[j].0, name@),
        r.1 ==> r.0 < ts@.len() && named(ts@)[r.0 as int].0 == name@,
        !r.1 ==> r.0 < ts@.len() ==> name_lt(name@, named(ts@)[r.0 as int].0),
{
    let n = ts.len();
    let mut i: usize = 0;
    while i < n
        invariant
            n == ts@.len(),
            i <= n,
            forall|j: int| 0 <= j < i ==> name_lt(#[trigger] named(ts@)[j].0, name@),
        decreases n - i,
    {
        let order = compare_names(ts[i].0.as_str(), name);
        assert(named(ts@)[i as int].0 == ts@[i as int].0@);
        match order {
            NameOrder::Less => {
                i = i + 1;
            },
            NameOrder::Equal => {
                return (i, true);
            },
            NameOrder::Greater => {
                return (i, false);
            },
        }
    }
    (i, false)
}

/// When `find_slot` finds no target named `name`, there is none.
proof fn lemma_slot_absent(ts: Seq<(Seq<char>, TargetEntry)>, name: Seq<char>, i: int)
    requires
        names_sorted(ts),
        0 <= i <= ts.len(),
        forall|j: int| 0 <= j < i ==> name_lt(#[trigger] ts[j].0, name),
        i < ts.len() ==> name_lt(name, ts[i].0),
    ensures
        !has_name(ts, name),
{
    lemma_name_lt_irreflexive(name);
    assert forall|j: int| 0 <= j < ts.len() implies #[trigger] ts[j].0 != name by {
        if j > i {
            assert(name_lt(ts[i].0, ts[j].0));
            lemma_name_lt_transitive(name, ts[i].0, ts[j].0);
        }
    }
}

/// The set of targets of a static credential issuer, ordered by name, each
/// name at most once.
#[derive(Debug)]
pub struct StaticConfig {
    targets: Vec<(String, TargetEntry)>,
}

impl View for StaticConfig {
    type V = Seq<(Seq<char>, TargetEntry)>;

    closed spec fn view(&self) -> Seq<(Seq<char>, TargetEntry)> {
        named(self.targets@)
    }
}

impl Clone for StaticConfig {
    /// A copy with the same targets, configured the same way, in the same order.
    fn clone(&self) -> (c: Self)
        ensures
            c@.len() == self@.len(),
            forall|i: int|
                0 <= i < self@.len() ==> #[trigger] c@[i].0 == self@[i].0 && same_entry(
                    c@[i].1,
                    self@[i].1,
                ),
    {
        proof {
            use_type_invariant(self);
        }
        let mut targets: Vec<(String, TargetEntry)> = Vec::new();
        let n = self.targets.len();
        let mut i: usize = 0;
        while i < n
            invariant
                n == self.targets@.len(),
                i <= n,
                names_sorted(self@),
                targets@.len() == i,
                forall|j: int|
                    0 <= j < i ==> #[trigger] targets@[j].0@ == self.targets@[j].0@ && same_entry(
                        targets@[j].1,
                        self.targets@[j].1,
                    ),
            decreases n - i,
        {
            let name = self.targets[i].0.clone();
            let entry = self.targets[i].1.clone();
            targets.push((name, entry));
            i = i + 1;
        }
        let ghost v = targets@.map_values(|t: (String, TargetEntry)| (t.0@, t.1));
        assert forall|a: int, b: int| 0 <= a < b < v.len() implies name_lt(
            #[trigger] v[a].0,
            #[trigger] v[b].0,
        ) by {
            assert(v[a].0 == self@[a].0);
            assert(v[b].0 == self@[b].0);
        }
        StaticConfig { targets }
    }
}

impl StaticConfig {
    #[verifier::type_invariant]
    closed spec fn names_in_order(self) -> bool {
        names_sorted(self@)
    }

    /// The configuration without targets.
    pub fn new() -> (cfg: Self)
        ensures
            cfg@ == Seq::<(Seq<char>, TargetEntry)>::empty(),
    {
        let cfg = StaticConfig { targets: Vec::new() };
        assert(cfg@ =~= Seq::<(Seq<char>, TargetEntry)>::empty());
        cfg
    }

    /// The number of targets.
    pub fn len(&self) -> (n: usize)
        ensures
            n == self@.len(),
    {
        self.targets.len()
    }

    /// Whether no target is configured.
    pub fn is_empty(&self) -> (b: bool)
        ensures
            b == (self@.len() == 0),
    {
        self.targets.len() == 0
    }

    /// The entry configured for `name`.
    pub fn target(&self, name: &str) -> (r: Option<&TargetEntry>)
        ensures
            match r {
                Some(e) => lookup(self@, name@) == Some(*e),
                None => lookup(self@, name@) is None,
            },
    {
        proof {
            use_type_invariant(self);
        }
        let (i, found) = find_slot(&self.targets, name);
        if found {
            proof {
                lemma_lookup_at(self@, i as int);
            }
            Some(&self.targets[i].1)
        } else {
            proof {
                lemma_slot_absent(self@, name@, i as int);
            }
            None
        }
    }

    /// Configures `name` as `entry`, in place of any entry it had, which is
    /// returned.
    pub fn insert_target(&mut self, name: String, entry: TargetEntry) -> (previous: Option<
        TargetEntry,
    >)
        ensures
            previous == lookup(old(self)@, name@),
            names_sorted(final(self)@),
            has_name(old(self)@, name@) ==> exists|i: int|
                0 <= i < old(self)@.len() && #[trigger] old(self)@[i].0 == name@ && final(self)@
                    == old(self)@.update(i, (name@, entry)),
            !has_name(old(self)@, name@) ==> exists|i: int|
                0 <= i <= old(self)@.len() && final(self)@ == #[trigger] old(self)@.insert(
                    i,
                    (name@, entry),
                ),
            forall|k: Seq<char>| #[trigger]
                lookup(final(self)@, k) == if k == name@ {
                    Some(entry)
                } else {
                    lookup(old(self)@, k)
                },
    {
        proof {
            use_type_invariant(&*self);
        }
        let ghost before = self@;
        let mut ts: Vec<(String, TargetEntry)> = Vec::new();
        std::mem::swap(&mut ts, &mut self.targets);
        assert(named(ts@) == before);
        let (i, found) = find_slot(&ts, name.as_str());
        let ghost key = name@;
        if found {
            let old_target = ts.remove(i);
            ts.insert(i, (name, entry));
            let ghost after = named(ts@);
            proof {
                assert(after =~= before.update(i as int, (key, entry)));
                lemma_lookup_at(before, i as int);
                assert(names_sorted(after)) by {
                    assert forall|a: int, b: int| 0 <= a < b < after.len() implies name_lt(
                        #[trigger] after[a].0,
                        #[trigger] after[b].0,
                    ) by {
                        assert(after[a].0 == before[a].0);
                        assert(after[b].0 == before[b].0);
                    }
                }
                assert forall|k: Seq<char>| #[trigger]
                    lookup(after, k) == if k == key {
                        Some(entry)
                    } else {
                        lookup(before, k)
                    } by {
                    if k == key {
                        lemma_lookup_at(after, i as int);
                    } else if has_name(before, k) {
                        let j = name_index(before, k);
                        lemma_lookup_at(before, j);
                        assert(after[j] == before[j]);
                        lemma_lookup_at(after, j);
                    } else {
                        assert forall|j: int| 0 <= j < after.len() implies #[trigger] after[j].0
                            != k by {
                            if j != i {
                                assert(after[j] == before[j]);
                            }
                        }
                    }
                }
            }
            self.targets = ts;
            Some(old_target.1)
        } else {
            ts.insert(i, (name, entry));
            let ghost after = named(ts@);
            proof {
                assert(after =~= before.insert(i as int, (key, entry)));
                lemma_slot_absent(before, key, i as int);
                assert(names_sorted(after)) by {
                    assert forall|a: int, b: int| 0 <= a < b < after.len() implies name_lt(
                        #[trigger] after[a].0,
                        #[trigger] after[b].0,
                    ) by {
                        if b < i {
                            assert(after[a] == before[a] && after[b] == before[b]);
                        } else if b == i {
                            assert(after[a] == before[a]);
                        } else if a > i {
                            assert(after[a] == before[a - 1] && after[b] == before[b - 1]);
                        } else if a == i {
                            assert(after[b] == before[b - 1]);
                            if b - 1 > i {
                                assert(name_lt(before[i as int].0, before[b - 1].0));
                                lemma_name_lt_transitive(key, before[i as int].0, before[b - 1].0);
                            }
                        } else {
                            assert(after[a] == before[a] && after[b] == before[b - 1]);
                            assert(name_lt(before[a].0, key));
                            if b - 1 > i {
                                assert(name_lt(before[i as int].0, before[b - 1].0));
                                lemma_name_lt_transitive(key, before[i as int].0, before[b - 1].0);
                            }
                            lemma_name_lt_transitive(before[a].0, key, before[b - 1].0);
                        }
                    }
                }
                assert forall|k: Seq<char>| #[trigger]
                    lookup(after, k) == if k == key {
                        Some(entry)
                    } else {
                        lookup(before, k)
                    } by {
                    if k == key {
                        lemma_lookup_at(after, i as int);
                    } else if has_name(before, k) {
                        let j = name_index(before, k);
                        lemma_lookup_at(before, j);
                        if j < i {
                            assert(after[j] == before[j]);
                            lemma_lookup_at(after, j);
                        } else {
                            assert(after[j + 1] == before[j]);
                            lemma_lookup_at(after, j + 1);
                        }
                    } else {
                        assert forall|j: int| 0 <= j < after.len() implies #[trigger] after[j].0
                            != k by {
                            if j < i {
                                assert(after[j] == before[j]);
                            } else if j > i {
                                assert(after[j] == before[j - 1]);
                            }
                        }
                    }
                }
            }
            self.targets = ts;
            None
        }
    }

    /// The targets, in name order, each name once.
    pub fn targets(&self) -> (ts: &Vec<(String, TargetEntry)>)
        ensures
            named(ts@) == self@,
            names_sorted(self@),
    {
        proof {
            use_type_invariant(self);
        }
        &self.targets
    }

    /// The configuration a document was read into, accepted only when it
    /// validates; a document that could not be read is refused as
    /// [`ConfigError::InvalidJson`] with the reader's error.
    pub fn from_parsed(parsed: Result<StaticConfig, serde_json::Error>) -> (r: Result<
        StaticConfig,
        ConfigError,
    >)
        ensures
            match parsed {
                Err(e) => r == Err::<StaticConfig, ConfigError>(ConfigError::InvalidJson(e)),
                Ok(cfg) => match config_fault(cfg@) {
                    None => r == Ok::<StaticConfig, ConfigError>(cfg),
                    Some(f) => r matches Err(err) && err@ == f,
                },
            },
    {
        match parsed {
            Err(e) => Err(ConfigError::from(e)),
            Ok(cfg) => match cfg.validate() {
                Ok(()) => Ok(cfg),
                Err(err) => Err(err),
            },
        }
    }

    /// Validates every target, in name order, and reports the first fault.
    pub fn validate(&self) -> (r: Result<(), ConfigError>)
        ensures
            match r {
                Ok(()) => config_fault(self@) is None,
                Err(e) => config_fault(self@) == Some(e@),
            },
    {
        let n = self.targets.len();
        if n == 0 {
            return Err(ConfigError::EmptyTargets);
        }
        assert(self@.skip(0) =~= self@);
        let mut i: usize = 0;
        while i < n
            invariant
                n == self.targets@.len(),
                n == self@.len(),
                n > 0,
                i <= n,
                first_fault(self@) == first_fault(self@.skip(i as int)),
            decreases n - i,
        {
            let target = &self.targets[i].0;
            let entry = &self.targets[i].1;
            let ghost rest = self@.skip(i as int);
            assert(rest[0] == (target@, *entry));
            assert(rest.drop_first() =~= self@.skip(i + 1));
            let has_value = entry.value.is_some();
            let parts_empty = entry.parts.is_empty();
            if has_value != parts_empty {
                return Err(
                    ConfigError::InvalidValueParts { target: target.clone(), has_value, parts_empty },
                );
            }
            if entry.ttl_seconds == 0 {
                return Err(ConfigError::InvalidTtl { target: target.clone() });
            }
            match &entry.authorize {
                Authorize::Roles { roles } => {
                    if roles.is_empty() {
                        return Err(
                            ConfigError::EmptyAuthorizeList { target: target.clone(), rule: "roles" },
                        );
                    }
                },
                Authorize::Groups { groups } => {
                    if groups.is_empty() {
                        return Err(
                            ConfigError::EmptyAuthorizeList { target: target.clone(), rule: "groups" },
                        );
                    }
                },
                Authorize::Subjects { subjects } => {
                    if subjects.is_empty() {
                        return Err(
                            ConfigError::EmptyAuthorizeList {
                                target: target.clone(),
                                rule: "subjects",
                            },
                        );
                    }
                },
                Authorize::Any => {},
            }
            i = i + 1;
        }
        assert(self@.skip(n as int).len() == 0);
        Ok(())
    }
}

} // verus!
