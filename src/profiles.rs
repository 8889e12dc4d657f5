//! Profiles: named sets of wanted mods, and the reconciliation of the
//! catalog's enabled mods against one of them.

use vstd::prelude::*;
use crate::manifest::ModManifest;
use crate::state::{has_profile, profiles_wf, ModError, ModState, Profile};

verus! {

/// The list `mods` holds a name equal to `name`.
pub open spec fn wants(mods: Seq<String>, name: Seq<char>) -> bool {
    exists|j: int| 0 <= j < mods.len() && #[trigger] mods[j]@ == name
}

/// One change that reconciling a profile asks for.
#[derive(Clone, Copy, Debug, PartialEq, Eq, Structural)]
pub enum Change {
    /// Install the mod at this index, or enable it if it is installed.
    Install(usize),
    /// Disable the mod at this index.
    Disable(usize),
}

impl Change {
    /// The index of the mod that the change is about.
    pub open spec fn index(self) -> usize {
        match self {
            Change::Install(i) => i,
            Change::Disable(i) => i,
        }
    }
}

/// What mod `i`, with record `m`, needs for the wanted names `mods`: wanted
/// and not enabled, an install; enabled and not wanted, a disable.
pub open spec fn change_of(m: ModManifest, mods: Seq<String>, i: usize) -> Option<Change> {
    if wants(mods, m.name@) && !m.enabled {
        Some(Change::Install(i))
    } else if !wants(mods, m.name@) && m.enabled {
        Some(Change::Disable(i))
    } else {
        None
    }
}

/// Some change of `cs` is about mod `i`.
pub open spec fn listed(cs: Seq<Change>, i: int) -> bool {
    exists|k: int| 0 <= k < cs.len() && #[trigger] cs[k].index() == i
}

/// `cs` is exactly the list of changes that the records `ms` need for the
/// wanted names `mods`, in catalog order.
pub open spec fn is_reconciliation(ms: Seq<ModManifest>, mods: Seq<String>, cs: Seq<Change>) -> bool {
    &&& forall|k: int|
        0 <= k < cs.len() ==> (#[trigger] cs[k]).index() < ms.len() && change_of(
            ms[cs[k].index() as int],
            mods,
            cs[k].index(),
        ) == Some(cs[k])
    &&& forall|k: int, l: int|
        0 <= k < l < cs.len() ==> (#[trigger] cs[k]).index() < (#[trigger] cs[l]).index()
    &&& forall|i: int|
        0 <= i < ms.len() && (#[trigger] change_of(ms[i], mods, i as usize)) is Some ==> listed(
            cs,
            i,
        )
}

/// Whether `mods` holds a name equal to `name`.
pub fn wants_name(mods: &Vec<String>, name: &String) -> (r: bool)
    ensures
        r == wants(mods@, name@),
{
    for j in 0..mods.len()
        invariant
            forall|t: int| 0 <= t < j ==> mods@[t]@ != name@,
    {
        if mods[j] == *name {
            return true;
        }
    }
    false
}

/// The changes that bring the records `ms` to the wanted names `mods`: only
/// the mods whose enabled flag disagrees with `mods`, each once, in catalog
/// order.
pub fn reconcile(ms: &Vec<ModManifest>, mods: &Vec<String>) -> (r: Vec<Change>)
    ensures
        is_reconciliation(ms@, mods@, r@),
{
    let mut r: Vec<Change> = Vec::new();
    for i in 0..ms.len()
        invariant
            forall|k: int|
                0 <= k < r.len() ==> (#[trigger] r@[k]).index() < i && change_of(
                    ms@[r@[k].index() as int],
                    mods@,
                    r@[k].index(),
                ) == Some(r@[k]),
            forall|k: int, l: int|
                0 <= k < l < r.len() ==> (#[trigger] r@[k]).index() < (#[trigger] r@[l]).index(),
            forall|t: int|
                0 <= t < i && (#[trigger] change_of(ms@[t], mods@, t as usize)) is Some ==> listed(
                    r@,
                    t,
                ),
    {
        let wanted = wants_name(mods, &ms[i].name);
        let enabled = ms[i].enabled;
        let ghost r0 = r@;
        if wanted && !enabled {
            r.push(Change::Install(i));
        } else if !wanted && enabled {
            r.push(Change::Disable(i));
        }
        proof {
            assert forall|t: int|
                0 <= t < i + 1 && (#[trigger] change_of(ms@[t], mods@, t as usize)) is Some implies listed(
                r@,
                t,
            ) by {
                if t < i {
                    let k = choose|k: int| 0 <= k < r0.len() && #[trigger] r0[k].index() == t;
                    assert(r@[k] == r0[k]);
                } else {
                    assert(r@[r.len() - 1].index() == t);
                }
            }
        }
    }
    r
}

impl ModState {
    /// The position of the profile called exactly `name`.
    pub fn profile_index(&self, name: &str) -> (r: Option<usize>)
        ensures
            match r {
                Some(k) => k < self.profiles.len() && self.profiles@[k as int].name@ == name@,
                None => !has_profile(self.profiles@, name@),
            },
    {
        let wanted = name.to_owned();
        for k in 0..self.profiles.len()
            invariant
                wanted@ == name@,
                forall|t: int| 0 <= t < k ==> self.profiles@[t].name@ != name@,
        {
            if self.profiles[k].name == wanted {
                return Some(k);
            }
        }
        None
    }

    /// The published name of the first mod matching `query`, for storing in
    /// a profile.
    pub fn canonical_name(&self, query: &str) -> (r: Option<String>)
        ensures
            match r {
                Some(n) => exists|i: int|
                    crate::state::is_first_match(
                        self.manifests@,
                        crate::text::normalized(query@),
                        i,
                    ) && self.manifests@[i].name == n,
                None => crate::state::no_match(self.manifests@, crate::text::normalized(query@)),
            },
    {
        match self.find_mod(query) {
            Some(i) => Some(self.manifests[i].name.clone()),
            None => None,
        }
    }

    /// Adds a profile. Its name must be non-empty and not taken.
    pub fn create_profile(&mut self, name: String, mods: Vec<String>) -> (r: Result<(), ModError>)
        requires
            old(self).wf(),
        ensures
            final(self).wf(),
            r matches Err(ModError::EmptyProfileName) <==> name@.len() == 0,
            r matches Err(ModError::DuplicateProfile) <==> name@.len() > 0 && has_profile(
                old(self).profiles@,
                name@,
            ),
            r is Ok <==> name@.len() > 0 && !has_profile(old(self).profiles@, name@),
            r is Ok ==> final(self).profiles@ == old(self).profiles@.push(
                (Profile { name: name, mods: mods }),
            ),
            r is Err ==> final(self).profiles == old(self).profiles,
            final(self).same_but_profiles(old(self)),
    {
        if name.as_str().unicode_len() == 0 {
            return Err(ModError::EmptyProfileName);
        }
        if self.profile_index(name.as_str()).is_some() {
            return Err(ModError::DuplicateProfile);
        }
        let ghost ps = self.profiles@;
        let ghost n = name;
        let ghost ms = mods;
        self.profiles.push(Profile { name, mods });
        proof {
            assert(self.profiles@ == ps.push(Profile { name: n, mods: ms }));
            assert forall|i: int, j: int|
                0 <= i < j < self.profiles@.len() implies (#[trigger] self.profiles@[i].name@) != (
                #[trigger] self.profiles@[j].name@) by {
                if j == ps.len() {
                    assert(self.profiles@[i] == ps[i]);
                    assert(ps[i].name@ != n@);
                } else {
                    assert(self.profiles@[i] == ps[i]);
                    assert(self.profiles@[j] == ps[j]);
                }
            }
            assert(profiles_wf(self.profiles@));
        }
        Ok(())
    }

    /// Removes the profile called exactly `name`; a name that no profile has
    /// is `NotFound` and leaves the profiles as they were.
    pub fn delete_profile(&mut self, name: &str) -> (r: Result<(), ModError>)
        requires
            old(self).wf(),
        ensures
            final(self).wf(),
            final(self).same_but_profiles(old(self)),
            r is Err <==> !has_profile(old(self).profiles@, name@),
            r matches Err(e) ==> e == ModError::NotFound,
            r is Err ==> final(self).profiles == old(self).profiles,
            r is Ok ==> exists|k: int|
                0 <= k < old(self).profiles@.len() && old(self).profiles@[k].name@ == name@
                    && final(self).profiles@ == old(self).profiles@.remove(k),
            r is Ok ==> !has_profile(final(self).profiles@, name@),
    {
        match self.profile_index(name) {
            None => Err(ModError::NotFound),
            Some(k) => {
                let ghost ps = self.profiles@;
                self.profiles.remove(k);
                proof {
                    assert(self.profiles@ == ps.remove(k as int));
                    assert forall|i: int, j: int|
                        0 <= i < j < self.profiles@.len() implies (
                        #[trigger] self.profiles@[i].name@) != (#[trigger] self.profiles@[j].name@) by {
                        let a = if i < k { i } else { i + 1 };
                        let b = if j < k { j } else { j + 1 };
                        assert(self.profiles@[i] == ps[a]);
                        assert(self.profiles@[j] == ps[b]);
                    }
                    assert forall|i: int| 0 <= i < self.profiles@.len() implies (
                    #[trigger] self.profiles@[i].name@).len() > 0 by {
                        let a = if i < k { i } else { i + 1 };
                        assert(self.profiles@[i] == ps[a]);
                    }
                    if has_profile(self.profiles@, name@) {
                        let i = choose|i: int|
                            0 <= i < self.profiles@.len() && #[trigger] self.profiles@[i].name@
                                == name@;
                        let a = if i < k { i } else { i + 1 };
                        assert(self.profiles@[i] == ps[a]);
                    }
                }
                Ok(())
            },
        }
    }

    /// Looks up the profile called exactly `name`, makes it the current
    /// profile and returns the changes that bring the catalog to it: each mod
    /// it names that is not enabled gets installed or enabled, each enabled
    /// mod it does not name gets disabled, the rest is left alone.
    pub fn apply_profile(&mut self, name: &str) -> (r: Result<Vec<Change>, ModError>)
        requires
            old(self).wf(),
        ensures
            final(self).wf(),
            final(self).mods_path == old(self).mods_path,
            final(self).manifests == old(self).manifests,
            final(self).profiles == old(self).profiles,
            final(self).download_progress == old(self).download_progress,
            match r {
                Ok(cs) => {
                    &&& final(self).current_profile@ == name@
                    &&& exists|k: int|
                        0 <= k < old(self).profiles@.len() && old(self).profiles@[k].name@ == name@
                            && is_reconciliation(
                            old(self).manifests@,
                            old(self).profiles@[k].mods@,
                            cs@,
                        )
                },
                Err(e) => {
                    &&& e == ModError::NotFound
                    &&& !has_profile(old(self).profiles@, name@)
                    &&& final(self).current_profile == old(self).current_profile
                },
            },
    {
        match self.profile_index(name) {
            None => Err(ModError::NotFound),
            Some(k) => {
                let cs = reconcile(&self.manifests, &self.profiles[k].mods);
                self.current_profile = name.to_owned();
                Ok(cs)
            },
        }
    }
}

} // verus!
