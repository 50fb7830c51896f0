//! The manifest the issuer registers with the gateway, as plain values.
use vstd::prelude::*;

verus! {

/// The class of plugin a manifest declares.
#[derive(Clone, Copy, Debug, PartialEq, Eq, Structural)]
pub enum PluginClass {
    /// A plugin that issues credentials for targets.
    CredentialIssuer,
}

/// What a plugin declares of itself to the gateway.
#[derive(Clone, Debug)]
pub struct PluginManifest {
    pub id: String,
    pub version: String,
    pub name: String,
    pub plugin_class: PluginClass,
    pub protocol_version: String,
    pub license: Option<String>,
    pub required_capabilities: Vec<String>,
    pub tags: Vec<String>,
    pub provides: Vec<String>,
    pub provides_schemes: Vec<String>,
    pub module_path_prefix: String,
    pub backend_profile: Option<String>,
}

/// `m` is the static credential issuer's manifest: its id, name and class,
/// protocol version `1.0`, no license, and no required capabilities, tags,
/// provided items or schemes, or backend profile.
pub open spec fn static_issuer_manifest(m: PluginManifest) -> bool {
    &&& m.id@ == "dev.mcpg.credential.static"@
    &&& m.version@ == "0.1.0"@
    &&& m.name@ == "Static Credential Issuer"@
    &&& m.plugin_class == PluginClass::CredentialIssuer
    &&& m.protocol_version@ == "1.0"@
    &&& m.license is None
    &&& m.required_capabilities@.len() == 0
    &&& m.tags@.len() == 0
    &&& m.provides@.len() == 0
    &&& m.provides_schemes@.len() == 0
    &&& m.module_path_prefix@ == "credential_static"@
    &&& m.backend_profile is None
}

/// The static credential issuer's manifest.
pub fn static_issuer_manifest_value() -> (m: PluginManifest)
    ensures
        static_issuer_manifest(m),
{
    PluginManifest {
        id: "dev.mcpg.credential.static".to_owned(),
        version: "0.1.0".to_owned(),
        name: "Static Credential Issuer".to_owned(),
        plugin_class: PluginClass::CredentialIssuer,
        protocol_version: "1.0".to_owned(),
        license: None,
        required_capabilities: Vec::new(),
        tags: Vec::new(),
        provides: Vec::new(),
        provides_schemes: Vec::new(),
        module_path_prefix: "credential_static".to_owned(),
        backend_profile: None,
    }
}

} // verus!
