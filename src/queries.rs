//! Read-only questions about the state document: listings and lookups.

use vstd::prelude::*;
use crate::args::ModFilter;
use crate::manifest::ModManifest;
use crate::state::ModState;
use crate::text::{contains_text, is_infix, lower_of, normalize_name, normalized, to_lower};

verus! {

/// `r` lists, in increasing order and each once, exactly the indices below
/// `n` that satisfy `pred`.
pub open spec fn lists_exactly(r: Seq<usize>, n: int, pred: spec_fn(int) -> bool) -> bool {
    &&& forall|k: int| 0 <= k < r.len() ==> (#[trigger] r[k]) < n && pred(r[k] as int)
    &&& forall|k: int, l: int| 0 <= k < l < r.len() ==> (#[trigger] r[k]) < (#[trigger] r[l])
    &&& forall|i: int| 0 <= i < n && #[trigger] pred(i) ==> r.contains(i as usize)
}

/// Whether the record `m` passes the filter `f`.
pub open spec fn passes(m: ModManifest, f: ModFilter) -> bool {
    match f {
        ModFilter::All => true,
        ModFilter::Installed => m.installed,
        ModFilter::Enabled => m.enabled,
        ModFilter::Disabled => m.installed && !m.enabled,
        ModFilter::Uninstalled => !m.installed,
        ModFilter::Containing(t) => is_infix(t@, lower_of(m.name@)),
    }
}

/// Whether the record `m` passes the filter `f`.
pub fn filter_accepts(m: &ModManifest, f: &ModFilter) -> (r: bool)
    ensures
        r == passes(*m, *f),
{
    match f {
        ModFilter::All => true,
        ModFilter::Installed => m.installed,
        ModFilter::Enabled => m.enabled,
        ModFilter::Disabled => m.installed && !m.enabled,
        ModFilter::Uninstalled => !m.installed,
        ModFilter::Containing(t) => {
            let lowered = to_lower(m.name.as_str());
            contains_text(lowered.as_str(), t.as_str())
        },
    }
}

impl ModState {
    /// The indices of the records that pass `filter`, in catalog order.
    pub fn list_mods(&self, filter: &ModFilter) -> (r: Vec<usize>)
        ensures
            lists_exactly(
                r@,
                self.manifests@.len() as int,
                |i: int| passes(self.manifests@[i], *filter),
            ),
    {
        let ghost pred = |i: int| passes(self.manifests@[i], *filter);
        let mut r: Vec<usize> = Vec::new();
        for i in 0..self.manifests.len()
            invariant
                pred == (|i: int| passes(self.manifests@[i], *filter)),
                forall|k: int| 0 <= k < r.len() ==> (#[trigger] r@[k]) < i && pred(r@[k] as int),
                forall|k: int, l: int|
                    0 <= k < l < r.len() ==> (#[trigger] r@[k]) < (#[trigger] r@[l]),
                forall|t: int| 0 <= t < i && #[trigger] pred(t) ==> r@.contains(t as usize),
        {
            let ghost r0 = r@;
            if filter_accepts(&self.manifests[i], filter) {
                r.push(i);
                proof {
                    assert(r@[r0.len() as int] == i);
                    assert forall|t: int| 0 <= t < i && #[trigger] pred(t) implies r@.contains(
                        t as usize,
                    ) by {
                        let k = choose|k: int| 0 <= k < r0.len() && r0[k] == t as usize;
                        assert(r@[k] == r0[k]);
                    }
                }
            }
        }
        r
    }

    /// The indices of every record whose name matches `query` once both are
    /// stripped of spaces and lowercased, in catalog order.
    pub fn mods_matching(&self, query: &str) -> (r: Vec<usize>)
        ensures
            lists_exactly(
                r@,
                self.manifests@.len() as int,
                |i: int| normalized(self.manifests@[i].name@) == normalized(query@),
            ),
    {
        let ghost pred = |i: int| normalized(self.manifests@[i].name@) == normalized(query@);
        let keys = self.name_keys();
        let key = normalize_name(query);
        let mut r: Vec<usize> = Vec::new();
        for i in 0..self.manifests.len()
            invariant
                keys.len() == self.manifests.len(),
                forall|j: int|
                    0 <= j < keys.len() ==> (#[trigger] keys@[j])@ == normalized(
                        self.manifests@[j].name@,
                    ),
                key@ == normalized(query@),
                pred == (|i: int| normalized(self.manifests@[i].name@) == normalized(query@)),
                forall|k: int| 0 <= k < r.len() ==> (#[trigger] r@[k]) < i && pred(r@[k] as int),
                forall|k: int, l: int|
                    0 <= k < l < r.len() ==> (#[trigger] r@[k]) < (#[trigger] r@[l]),
                forall|t: int| 0 <= t < i && #[trigger] pred(t) ==> r@.contains(t as usize),
        {
            let ghost r0 = r@;
            if keys[i] == key {
                r.push(i);
                proof {
                    assert(r@[r0.len() as int] == i);
                    assert forall|t: int| 0 <= t < i && #[trigger] pred(t) implies r@.contains(
                        t as usize,
                    ) by {
                        let k = choose|k: int| 0 <= k < r0.len() && r0[k] == t as usize;
                        assert(r@[k] == r0[k]);
                    }
                }
            } else {
                proof {
                    assert(!pred(i as int)) by {
                        assert(keys@[i as int]@ != key@);
                    }
                }
            }
        }
        r
    }

    /// The first profile whose name matches `query` once both are stripped
    /// of spaces and lowercased.
    pub fn profile_matching(&self, query: &str) -> (r: Option<usize>)
        ensures
            match r {
                Some(k) => k < self.profiles.len() && normalized(self.profiles@[k as int].name@)
                    == normalized(query@) && forall|j: int|
                    0 <= j < k ==> normalized(#[trigger] self.profiles@[j].name@) != normalized(
                        query@,
                    ),
                None => forall|j: int|
                    0 <= j < self.profiles.len() ==> normalized(#[trigger] self.profiles@[j].name@)
                        != normalized(query@),
            },
    {
        let key = normalize_name(query);
        for k in 0..self.profiles.len()
            invariant
                key@ == normalized(query@),
                forall|j: int|
                    0 <= j < k ==> normalized(#[trigger] self.profiles@[j].name@) != normalized(
                        query@,
                    ),
        {
            let pk = normalize_name(self.profiles[k].name.as_str());
            if pk == key {
                return Some(k);
            }
        }
        None
    }

    /// Whether profile `k` is the one applied last.
    pub fn is_current_profile(&self, k: usize) -> (r: bool)
        requires
            k < self.profiles.len(),
        ensures
            r == (self.profiles@[k as int].name@ == self.current_profile@),
    {
        self.profiles[k].name == self.current_profile
    }
}

} // verus!
