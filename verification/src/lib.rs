//! Static credential issuer: operators declare per-target credentials in
//! configuration, and callers receive them by target name once their
//! identity passes the target's authorization rule.

pub mod authorize;
pub mod clock;
pub mod config;
pub mod issuer;
pub mod laws;
pub mod manifest;
pub mod names;

pub use authorize::{check_authorization, CallerIdentity, CredentialError};
pub use config::{default_ttl, Authorize, ConfigError, StaticConfig, TargetEntry};
pub use issuer::{issue_for, IssuedCredential, StaticCredentialPlugin};
