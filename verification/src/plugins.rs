//! Plugin manifests and the registry that admits only vetted plugins.
use vstd::prelude::*;
use crate::policy::Permission;

verus! {

/// What a plugin declares about itself.
#[derive(Debug, Clone)]
pub struct PluginManifest {
    pub name: String,
    pub version: String,
    pub capabilities: Vec<String>,
    pub permissions: Vec<ManifestPermission>,
    pub source: PluginSource,
}

/// Where a plugin comes from.
#[derive(Debug, Clone, PartialEq, Eq, Structural)]
pub enum PluginSource {
    VettedRegistry,
    Local,
    Unknown,
}

/// A permission as a manifest names it.
#[derive(Debug, Clone, Copy)]
pub enum ManifestPermission {
    Network,
    FileRead,
    FileWrite,
    MemoryRead,
    MemoryWrite,
    ToolExec,
}

/// The policy permission that a manifest permission stands for.
pub open spec fn permission_of(p: ManifestPermission) -> Permission {
    match p {
        ManifestPermission::Network => Permission::Network,
        ManifestPermission::FileRead => Permission::FileRead,
        ManifestPermission::FileWrite => Permission::FileWrite,
        ManifestPermission::MemoryRead => Permission::MemoryRead,
        ManifestPermission::MemoryWrite => Permission::MemoryWrite,
        ManifestPermission::ToolExec => Permission::ToolExec,
    }
}

impl<'a> From<&'a ManifestPermission> for Permission {
    fn from(value: &'a ManifestPermission) -> (r: Permission) {
        match value {
            ManifestPermission::Network => Permission::Network,
            ManifestPermission::FileRead => Permission::FileRead,
            ManifestPermission::FileWrite => Permission::FileWrite,
            ManifestPermission::MemoryRead => Permission::MemoryRead,
            ManifestPermission::MemoryWrite => Permission::MemoryWrite,
            ManifestPermission::ToolExec => Permission::ToolExec,
        }
    }
}

impl<'a> vstd::std_specs::convert::FromSpecImpl<&'a ManifestPermission> for Permission {
    open spec fn obeys_from_spec() -> bool {
        true
    }

    open spec fn from_spec(v: &'a ManifestPermission) -> Permission {
        permission_of(*v)
    }
}

/// Largest number of permissions a vetted manifest may request.
pub const MAX_MANIFEST_PERMISSIONS: usize = 8;

/// The manifest names itself and a version, declares a capability, and
/// asks for at most eight permissions.
pub open spec fn manifest_vetted(m: PluginManifest) -> bool {
    &&& m.name@.len() > 0
    &&& m.version@.len() > 0
    &&& m.capabilities@.len() > 0
    &&& m.permissions@.len() <= MAX_MANIFEST_PERMISSIONS
}

/// A registry with the given setting admits the manifest.
pub open spec fn admissible(auto_install_enabled: bool, m: PluginManifest) -> bool {
    &&& (auto_install_enabled || m.source != PluginSource::Unknown)
    &&& manifest_vetted(m)
}

/// A manifest without a name, without a version or without a capability,
/// or one that asks for more than eight permissions, never passes vetting
/// and no registry admits it, whatever its setting; so `register` refuses
/// it and leaves the registry unchanged. One that has all three and asks
/// for at most eight permissions passes vetting, and a registry admits it
/// unless its source is unknown and auto install is off.
pub proof fn lemma_vetting_needs_complete_manifest(auto_install_enabled: bool, m: PluginManifest)
    ensures
        m.name@.len() == 0 || m.version@.len() == 0 || m.capabilities@.len() == 0
            || m.permissions@.len() > 8 ==> !manifest_vetted(m) && !admissible(auto_install_enabled, m),
        m.name@.len() > 0 && m.version@.len() > 0 && m.capabilities@.len() > 0
            && m.permissions@.len() <= 8 ==> manifest_vetted(m) && (admissible(auto_install_enabled, m)
            <==> (auto_install_enabled || m.source != PluginSource::Unknown)),
{
}

/// Whether the manifest passes vetting.
pub fn is_manifest_vetted(manifest: &PluginManifest) -> (r: bool)
    ensures
        r == manifest_vetted(*manifest),
{
    !manifest.name.as_str().is_empty() && !manifest.version.as_str().is_empty()
        && manifest.capabilities.len() != 0 && manifest.permissions.len()
        <= MAX_MANIFEST_PERMISSIONS
}

/// The plugins admitted so far.
#[derive(Debug)]
pub struct PluginRegistry {
    manifests: Vec<PluginManifest>,
    auto_install_enabled: bool,
}

impl Default for PluginRegistry {
    fn default() -> (r: Self)
        ensures
            r.manifests() == Seq::<PluginManifest>::empty(),
            !r.auto_install_enabled(),
    {
        PluginRegistry::new(false)
    }
}

impl PluginRegistry {
    /// The admitted manifests, in the order they were registered.
    pub closed spec fn manifests(&self) -> Seq<PluginManifest> {
        self.manifests@
    }

    /// Whether manifests of unknown source are admitted.
    pub closed spec fn auto_install_enabled(&self) -> bool {
        self.auto_install_enabled
    }

    /// Every admitted manifest passed the registry's checks.
    pub open spec fn wf(&self) -> bool {
        forall|i: int|
            0 <= i < self.manifests().len() ==> admissible(
                self.auto_install_enabled(),
                #[trigger] self.manifests()[i],
            )
    }

    /// An empty registry.
    pub fn new(auto_install_enabled: bool) -> (r: Self)
        ensures
            r.manifests() == Seq::<PluginManifest>::empty(),
            r.auto_install_enabled() == auto_install_enabled,
            r.wf(),
    {
        PluginRegistry { manifests: Vec::new(), auto_install_enabled }
    }

    /// Admits `manifest` if its source is acceptable and it passes
    /// vetting; otherwise leaves the registry unchanged and says why.
    pub fn register(&mut self, manifest: PluginManifest) -> (r: Result<(), String>)
        ensures
            final(self).auto_install_enabled() == old(self).auto_install_enabled(),
            r is Ok <==> admissible(old(self).auto_install_enabled(), manifest),
            r is Ok ==> final(self).manifests() == old(self).manifests().push(manifest),
            r is Err ==> final(self).manifests() == old(self).manifests(),
            r matches Err(e) ==> (e@ == "plugin rejected: unknown source and auto install disabled"@
                <==> (!old(self).auto_install_enabled() && manifest.source == PluginSource::Unknown)),
            r matches Err(e) ==> (e@ == "plugin rejected: manifest failed vetting"@ <==> (
            old(self).auto_install_enabled() || manifest.source != PluginSource::Unknown)),
            old(self).wf() ==> final(self).wf(),
    {
        proof {
            reveal_strlit("plugin rejected: unknown source and auto install disabled");
            reveal_strlit("plugin rejected: manifest failed vetting");
            assert("plugin rejected: unknown source and auto install disabled"@.len()
                != "plugin rejected: manifest failed vetting"@.len());
        }
        if !self.auto_install_enabled && manifest.source == PluginSource::Unknown {
            return Err(String::from_str("plugin rejected: unknown source and auto install disabled"));
        }
        if !is_manifest_vetted(&manifest) {
            return Err(String::from_str("plugin rejected: manifest failed vetting"));
        }
        let ghost before = self.manifests@;
        self.manifests.push(manifest);
        assert forall|i: int| 0 <= i < self.manifests().len() && old(self).wf() implies admissible(
            self.auto_install_enabled(),
            #[trigger] self.manifests()[i],
        ) by {
            if i < before.len() {
                assert(self.manifests()[i] == old(self).manifests()[i]);
            }
        }
        Ok(())
    }

    /// The admitted manifests, in registration order.
    pub fn all(&self) -> (r: &[PluginManifest])
        ensures
            r@ == self.manifests(),
    {
        self.manifests.as_slice()
    }
}

} // verus!
