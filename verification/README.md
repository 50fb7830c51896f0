# credential_static

A static credential issuer, verified with Verus. Operators configure a set
of named targets, each holding a single credential value or a set of named
parts, a cache lifetime, an authorization rule and free-form metadata. A
caller asking for a target receives its credential only when its identity
passes the target's rule.

Layout:

- `src/names.rs` — the character order on target names, and its comparison.
- `src/config.rs` — targets, authorization rules, the ordered target set
  (`StaticConfig`) and the validation a configuration must pass.
- `src/authorize.rs` — callers, issuance errors and the authorization check.
- `src/clock.rs` — the RFC 3339 issuance timestamp (the system clock, read
  through `std::time`, formatted with the `time` crate).
- `src/manifest.rs` — the manifest the issuer registers, as plain values.
- `src/issuer.rs` — the issuer serving a configuration.
- `src/laws.rs` — properties that hold across these operations.
- `app/` — reading the JSON configuration document with serde, error
  messages, and refusing to load from a broken configuration.
- `tests/` — tests of configuration and issuance.
