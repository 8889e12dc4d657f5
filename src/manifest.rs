//! Published mod records and the merge of local directory state into them.

use vstd::prelude::*;

verus! {

/// One published mod, with the flags derived from the local mods directory.
pub struct ModManifest {
    pub name: String,
    pub version: String,
    pub description: String,
    pub repository: String,
    pub link: String,
    pub sha256: String,
    pub dependencies: Vec<String>,
    pub tags: Option<Vec<String>>,
    pub installed: bool,
    pub enabled: bool,
}

impl ModManifest {
    /// A record as the catalog publishes it: not installed, not enabled.
    pub fn new(
        name: String,
        version: String,
        link: String,
        sha256: String,
        dependencies: Vec<String>,
    ) -> (r: ModManifest)
        ensures
            r.name == name,
            r.version == version,
            r.link == link,
            r.sha256 == sha256,
            r.dependencies == dependencies,
            r.description@.len() == 0,
            r.repository@.len() == 0,
            r.tags.is_none(),
            !r.installed,
            !r.enabled,
    {
        ModManifest {
            name,
            version,
            description: String::new(),
            repository: String::new(),
            link,
            sha256,
            dependencies,
            tags: None,
            installed: false,
            enabled: false,
        }
    }

    /// A mod can only be enabled when it is installed.
    pub open spec fn consistent(&self) -> bool {
        self.enabled ==> self.installed
    }

    /// The same record with other local flags.
    pub open spec fn with_flags(self, installed: bool, enabled: bool) -> ModManifest {
        ModManifest { installed, enabled, ..self }
    }
}

/// Every record of the catalog is consistent.
pub open spec fn all_consistent(ms: Seq<ModManifest>) -> bool {
    forall|i: int| 0 <= i < ms.len() ==> #[trigger] ms[i].consistent()
}

/// What a probe of the mods directory found for one mod: a directory at the
/// active path, and one at the disabled path.
#[derive(Clone, Copy, Debug, PartialEq, Eq, Structural)]
pub struct Presence {
    pub active: bool,
    pub disabled: bool,
}

impl Presence {
    /// Installed: a directory exists at either place.
    pub open spec fn installed(self) -> bool {
        self.active || self.disabled
    }

    /// Enabled: the directory is at the active path and not also disabled.
    pub open spec fn enabled(self) -> bool {
        self.active && !self.disabled
    }
}

/// Sets the local flags of every record from what was found on disk for it:
/// installed when a directory exists at either path, enabled when it exists
/// at the active path alone. Calling it again with the same findings changes
/// nothing.
pub fn merge_local_state(manifests: &mut Vec<ModManifest>, presence: &Vec<Presence>)
    requires
        old(manifests).len() == presence.len(),
    ensures
        final(manifests).len() == old(manifests).len(),
        forall|i: int|
            0 <= i < presence.len() ==> final(manifests)@[i] == old(manifests)@[i].with_flags(
                presence@[i].installed(),
                presence@[i].enabled(),
            ),
        all_consistent(final(manifests)@),
{
    let n = manifests.len();
    for i in 0..n
        invariant
            n == manifests.len(),
            n == presence.len(),
            forall|j: int|
                0 <= j < i ==> manifests@[j] == old(manifests)@[j].with_flags(
                    presence@[j].installed(),
                    presence@[j].enabled(),
                ),
            forall|j: int| i <= j < n ==> manifests@[j] == old(manifests)@[j],
    {
        let p = presence[i];
        manifests[i].installed = p.active || p.disabled;
        manifests[i].enabled = p.active && !p.disabled;
    }
    assert forall|i: int| 0 <= i < manifests.len() implies #[trigger] manifests@[i].consistent() by {
        assert(manifests@[i] == old(manifests)@[i].with_flags(
            presence@[i].installed(),
            presence@[i].enabled(),
        ));
    }
}

} // verus!
