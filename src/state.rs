//! The state document that every operation works on: the catalog with its
//! local flags, the profiles, and the configured mods directory.

use vstd::prelude::*;
use crate::manifest::{all_consistent, ModManifest, Presence};
use crate::text::{joined, join_path, normalize_name, normalized, position_of_key};

verus! {

/// Why an operation did not do what it was asked.
#[derive(Clone, Copy, Debug, PartialEq, Eq, Structural)]
pub enum ModError {
    /// The mods directory has not been set yet.
    NotConfigured,
    /// No mod or profile goes by that name.
    NotFound,
    /// A profile name must not be empty.
    EmptyProfileName,
    /// A profile of that name exists already.
    DuplicateProfile,
    /// A mod depends, directly or not, on itself.
    CyclicDependency,
    /// Moving, creating or removing a directory failed.
    PathError,
    /// Fetching an artifact failed.
    TransferError,
}

/// A named set of mods that the user wants enabled together.
pub struct Profile {
    pub name: String,
    pub mods: Vec<String>,
}

/// How a directory move reported by the caller ended.
#[derive(Clone, Copy, Debug, PartialEq, Eq, Structural)]
pub enum MoveOutcome {
    /// The directory was moved.
    Moved,
    /// There was no directory to move.
    SourceMissing,
    /// The move was attempted and failed.
    Failed,
}

/// How a directory removal reported by the caller ended.
#[derive(Clone, Copy, Debug, PartialEq, Eq, Structural)]
pub enum RemoveOutcome {
    /// The directory was removed.
    Removed,
    /// There was no directory to remove.
    NothingThere,
    /// The removal was attempted and failed.
    Failed,
}

/// The name of the subdirectory of the mods directory that holds disabled mods.
pub open spec fn disabled_dir_name() -> Seq<char> {
    "Disabled"@
}

/// Where an enabled mod lives.
pub open spec fn active_path_of(root: Seq<char>, name: Seq<char>) -> Seq<char> {
    joined(root, name)
}

/// Where a disabled mod lives.
pub open spec fn disabled_path_of(root: Seq<char>, name: Seq<char>) -> Seq<char> {
    joined(joined(root, disabled_dir_name()), name)
}

/// The first record whose name has the key `key`.
pub open spec fn is_first_match(ms: Seq<ModManifest>, key: Seq<char>, i: int) -> bool {
    &&& 0 <= i < ms.len()
    &&& normalized(ms[i].name@) == key
    &&& forall|j: int| 0 <= j < i ==> normalized(#[trigger] ms[j].name@) != key
}

/// No record has a name with the key `key`.
pub open spec fn no_match(ms: Seq<ModManifest>, key: Seq<char>) -> bool {
    forall|j: int| 0 <= j < ms.len() ==> normalized(#[trigger] ms[j].name@) != key
}

/// Some profile in `ps` is called `name`.
pub open spec fn has_profile(ps: Seq<Profile>, name: Seq<char>) -> bool {
    exists|i: int| 0 <= i < ps.len() && #[trigger] ps[i].name@ == name
}

/// Profile names are non-empty and unique.
pub open spec fn profiles_wf(ps: Seq<Profile>) -> bool {
    &&& forall|i: int| 0 <= i < ps.len() ==> (#[trigger] ps[i].name@).len() > 0
    &&& forall|i: int, j: int|
        0 <= i < j < ps.len() ==> (#[trigger] ps[i].name@) != (#[trigger] ps[j].name@)
}

/// The record after its directory moved into the disabled location.
pub open spec fn after_disable(m: ModManifest) -> ModManifest {
    m.with_flags(m.installed, false)
}

/// The record after its directory moved back to the active location.
pub open spec fn after_enable(m: ModManifest) -> ModManifest {
    m.with_flags(true, true)
}

/// The single authoritative state document.
pub struct ModState {
    pub mods_path: String,
    pub manifests: Vec<ModManifest>,
    pub profiles: Vec<Profile>,
    pub current_profile: String,
    pub download_progress: u8,
}

impl ModState {
    /// Records are consistent, profiles well formed, progress a percentage.
    pub open spec fn wf(&self) -> bool {
        &&& all_consistent(self.manifests@)
        &&& profiles_wf(self.profiles@)
        &&& self.download_progress <= 100
    }

    /// Everything but the records is as in `other`.
    pub open spec fn same_but_manifests(&self, other: &ModState) -> bool {
        &&& self.mods_path == other.mods_path
        &&& self.profiles == other.profiles
        &&& self.current_profile == other.current_profile
        &&& self.download_progress == other.download_progress
    }

    /// Everything but the profiles is as in `other`.
    pub open spec fn same_but_profiles(&self, other: &ModState) -> bool {
        &&& self.mods_path == other.mods_path
        &&& self.manifests == other.manifests
        &&& self.current_profile == other.current_profile
        &&& self.download_progress == other.download_progress
    }

    /// The mods directory is known.
    pub open spec fn configured(&self) -> bool {
        self.mods_path@.len() > 0
    }

    /// The empty document a session starts from when nothing was saved.
    pub fn new() -> (r: ModState)
        ensures
            r.wf(),
            r.mods_path@.len() == 0,
            r.manifests@.len() == 0,
            r.profiles@.len() == 0,
            r.current_profile@.len() == 0,
            r.download_progress == 0,
    {
        ModState {
            mods_path: String::new(),
            manifests: Vec::new(),
            profiles: Vec::new(),
            current_profile: String::new(),
            download_progress: 0,
        }
    }

    /// Whether the mods directory has been set.
    pub fn is_configured(&self) -> (r: bool)
        ensures
            r == self.configured(),
    {
        self.mods_path.as_str().unicode_len() > 0
    }

    /// Sets the mods directory.
    pub fn set_mods_path(&mut self, path: String)
        requires
            old(self).wf(),
        ensures
            final(self).wf(),
            final(self).mods_path == path,
            final(self).manifests == old(self).manifests,
            final(self).profiles == old(self).profiles,
            final(self).current_profile == old(self).current_profile,
            final(self).download_progress == old(self).download_progress,
    {
        self.mods_path = path;
    }

    /// Replaces the catalog with a freshly fetched one whose flags were
    /// already merged from disk.
    pub fn set_manifests(&mut self, manifests: Vec<ModManifest>)
        requires
            old(self).wf(),
            all_consistent(manifests@),
        ensures
            final(self).wf(),
            final(self).manifests == manifests,
            final(self).same_but_manifests(old(self)),
    {
        self.manifests = manifests;
    }

    /// The active and the disabled path of the mod called `name`.
    pub fn locate(&self, name: &str) -> (r: Result<(String, String), ModError>)
        ensures
            match r {
                Ok((active, disabled)) => self.configured() && active@ == active_path_of(
                    self.mods_path@,
                    name@,
                ) && disabled@ == disabled_path_of(self.mods_path@, name@),
                Err(e) => !self.configured() && e == ModError::NotConfigured,
            },
    {
        if !self.is_configured() {
            return Err(ModError::NotConfigured);
        }
        let active = join_path(self.mods_path.as_str(), name);
        let dir = join_path(self.mods_path.as_str(), "Disabled");
        let disabled = join_path(dir.as_str(), name);
        Ok((active, disabled))
    }

    /// The directory that holds disabled mods.
    pub fn disabled_dir(&self) -> (r: Result<String, ModError>)
        ensures
            match r {
                Ok(p) => self.configured() && p@ == joined(self.mods_path@, disabled_dir_name()),
                Err(e) => !self.configured() && e == ModError::NotConfigured,
            },
    {
        if !self.is_configured() {
            return Err(ModError::NotConfigured);
        }
        Ok(join_path(self.mods_path.as_str(), "Disabled"))
    }

    /// The matching key of every record's name, in catalog order.
    pub fn name_keys(&self) -> (r: Vec<String>)
        ensures
            r.len() == self.manifests.len(),
            forall|i: int|
                0 <= i < r.len() ==> (#[trigger] r@[i])@ == normalized(self.manifests@[i].name@),
    {
        let mut r: Vec<String> = Vec::new();
        for i in 0..self.manifests.len()
            invariant
                r.len() == i,
                forall|j: int|
                    0 <= j < i ==> (#[trigger] r@[j])@ == normalized(self.manifests@[j].name@),
        {
            r.push(normalize_name(self.manifests[i].name.as_str()));
        }
        r
    }

    /// The first record whose name matches `query` once both are stripped of
    /// spaces and lowercased.
    pub fn find_mod(&self, query: &str) -> (r: Option<usize>)
        ensures
            match r {
                Some(i) => is_first_match(self.manifests@, normalized(query@), i as int),
                None => no_match(self.manifests@, normalized(query@)),
            },
    {
        let keys = self.name_keys();
        let key = normalize_name(query);
        let r = position_of_key(&keys, &key);
        proof {
            if let Some(i) = r {
                assert forall|j: int| 0 <= j < i implies normalized(
                    #[trigger] self.manifests@[j].name@,
                ) != normalized(query@) by {
                    assert(keys@[j]@ != key@);
                }
            } else {
                assert forall|j: int| 0 <= j < self.manifests.len() implies normalized(
                    #[trigger] self.manifests@[j].name@,
                ) != normalized(query@) by {
                    assert(keys@[j]@ != key@);
                }
            }
        }
        r
    }

    /// Records the end of moving mod `i` out of the active location. Only a
    /// completed move clears the enabled flag; a failed one is a `PathError`.
    pub fn record_disable(&mut self, i: usize, outcome: MoveOutcome) -> (r: Result<(), ModError>)
        requires
            old(self).wf(),
            i < old(self).manifests.len(),
        ensures
            final(self).wf(),
            final(self).same_but_manifests(old(self)),
            outcome == MoveOutcome::Moved ==> final(self).manifests@ == old(
                self,
            ).manifests@.update(i as int, after_disable(old(self).manifests@[i as int])),
            outcome != MoveOutcome::Moved ==> final(self).manifests == old(self).manifests,
            r is Err <==> outcome == MoveOutcome::Failed,
            r matches Err(e) ==> e == ModError::PathError,
    {
        match outcome {
            MoveOutcome::Moved => {
                self.manifests[i].enabled = false;
                proof {
                    assert(self.manifests@ =~= old(self).manifests@.update(
                        i as int,
                        after_disable(old(self).manifests@[i as int]),
                    ));
                }
                Ok(())
            },
            MoveOutcome::SourceMissing => Ok(()),
            MoveOutcome::Failed => Err(ModError::PathError),
        }
    }

    /// Records the end of moving mod `i` back to the active location. Only a
    /// completed move sets the flags; a failed one is a `PathError`.
    pub fn record_enable(&mut self, i: usize, outcome: MoveOutcome) -> (r: Result<(), ModError>)
        requires
            old(self).wf(),
            i < old(self).manifests.len(),
        ensures
            final(self).wf(),
            final(self).same_but_manifests(old(self)),
            outcome == MoveOutcome::Moved ==> final(self).manifests@ == old(
                self,
            ).manifests@.update(i as int, after_enable(old(self).manifests@[i as int])),
            outcome != MoveOutcome::Moved ==> final(self).manifests == old(self).manifests,
            r is Err <==> outcome == MoveOutcome::Failed,
            r matches Err(e) ==> e == ModError::PathError,
    {
        match outcome {
            MoveOutcome::Moved => {
                self.manifests[i].installed = true;
                self.manifests[i].enabled = true;
                proof {
                    assert(self.manifests@ =~= old(self).manifests@.update(
                        i as int,
                        after_enable(old(self).manifests@[i as int]),
                    ));
                }
                Ok(())
            },
            MoveOutcome::SourceMissing => Ok(()),
            MoveOutcome::Failed => Err(ModError::PathError),
        }
    }

    /// Which directory uninstalling mod `i` removes, given what exists on
    /// disk: the active one when present, else the disabled one, else none.
    pub fn removal_target(&self, i: usize, presence: Presence) -> (r: Result<Option<String>, ModError>)
        requires
            i < self.manifests.len(),
        ensures
            match r {
                Ok(Some(p)) => {
                    &&& self.configured()
                    &&& presence.active ==> p@ == active_path_of(
                        self.mods_path@,
                        self.manifests@[i as int].name@,
                    )
                    &&& !presence.active ==> presence.disabled && p@ == disabled_path_of(
                        self.mods_path@,
                        self.manifests@[i as int].name@,
                    )
                },
                Ok(None) => self.configured() && !presence.active && !presence.disabled,
                Err(e) => !self.configured() && e == ModError::NotConfigured,
            },
    {
        match self.locate(self.manifests[i].name.as_str()) {
            Err(e) => Err(e),
            Ok((active, disabled)) => {
                if presence.active {
                    Ok(Some(active))
                } else if presence.disabled {
                    Ok(Some(disabled))
                } else {
                    Ok(None)
                }
            },
        }
    }

    /// Records how uninstalling mod `i` ended: once its directory is gone,
    /// or was never there, it is neither installed nor enabled; a failed
    /// removal changes nothing and is a `PathError`.
    pub fn record_uninstall(&mut self, i: usize, outcome: RemoveOutcome) -> (r: Result<(), ModError>)
        requires
            old(self).wf(),
            i < old(self).manifests.len(),
        ensures
            final(self).wf(),
            final(self).same_but_manifests(old(self)),
            outcome != RemoveOutcome::Failed ==> final(self).manifests@ == old(
                self,
            ).manifests@.update(i as int, old(self).manifests@[i as int].with_flags(false, false)),
            outcome == RemoveOutcome::Failed ==> final(self).manifests == old(self).manifests,
            r is Err <==> outcome == RemoveOutcome::Failed,
            r matches Err(e) ==> e == ModError::PathError,
    {
        if outcome == RemoveOutcome::Failed {
            return Err(ModError::PathError);
        }
        self.manifests[i].installed = false;
        self.manifests[i].enabled = false;
        proof {
            assert(self.manifests@ =~= old(self).manifests@.update(
                i as int,
                old(self).manifests@[i as int].with_flags(false, false),
            ));
        }
        Ok(())
    }
}

/// Re-enabling a mod that is installed but disabled leaves it installed and
/// enabled, with the rest of its record and every other record as they were.
pub proof fn lemma_reenable(ms: Seq<ModManifest>, i: int)
    requires
        0 <= i < ms.len(),
        ms[i].installed,
        !ms[i].enabled,
    ensures
        ms.update(i, after_enable(ms[i]))[i].installed,
        ms.update(i, after_enable(ms[i]))[i].enabled,
        ms.update(i, after_enable(ms[i]))[i] == ms[i].with_flags(true, true),
        ms.update(i, after_enable(ms[i])).len() == ms.len(),
        forall|j: int| 0 <= j < ms.len() && j != i ==> #[trigger] ms.update(i, after_enable(ms[i]))[j] == ms[j],
{
}

/// Disabling an installed, enabled mod and then enabling it again gives back
/// the very same catalog.
pub proof fn lemma_disable_then_enable(ms: Seq<ModManifest>, i: int)
    requires
        0 <= i < ms.len(),
        ms[i].installed,
        ms[i].enabled,
    ensures
        ms.update(i, after_disable(ms[i])).update(i, after_enable(ms.update(i, after_disable(ms[i]))[i]))
            == ms,
{
    assert(ms.update(i, after_disable(ms[i])).update(i, after_enable(ms.update(i, after_disable(ms[i]))[i]))
        =~= ms);
}

} // verus!
