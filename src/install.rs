//! The installer: resolving a request to the list of mods to bring in,
//! dependencies first, with a guard against cyclic catalogs, and deciding
//! for each of them whether to skip, re-enable or download it.

use vstd::prelude::*;
use crate::manifest::ModManifest;
use crate::state::{
    active_path_of, after_enable, is_first_match, no_match, ModError, ModState,
};
use crate::text::{normalize_name, normalized, position_of_key};

verus! {

/// Dependency `d` of mod `a` names mod `b`.
pub open spec fn resolves_dep(ms: Seq<ModManifest>, a: int, d: int, b: int) -> bool {
    &&& 0 <= a < ms.len()
    &&& 0 <= d < ms[a].dependencies@.len()
    &&& is_first_match(ms, normalized(ms[a].dependencies@[d]@), b)
}

/// Mod `a` lists a dependency that names mod `b`.
pub open spec fn depends_on(ms: Seq<ModManifest>, a: int, b: int) -> bool {
    exists|d: int| #[trigger] resolves_dep(ms, a, d, b)
}

/// Every mod of `order` comes after all the mods it depends on.
pub open spec fn deps_first(ms: Seq<ModManifest>, order: Seq<usize>) -> bool {
    forall|k: int, b: int|
        0 <= k < order.len() && #[trigger] depends_on(ms, order[k] as int, b) ==> exists|m: int|
            0 <= m < k && order[m] == b
}

/// Some mod after position `k` of `order` depends on the one at `k`.
pub open spec fn needed_later(ms: Seq<ModManifest>, order: Seq<usize>, k: int) -> bool {
    exists|m: int| k < m < order.len() && #[trigger] depends_on(ms, order[m] as int, order[k] as int)
}

/// Every mod of `order` but the last is needed by a mod after it.
pub open spec fn each_needed(ms: Seq<ModManifest>, order: Seq<usize>) -> bool {
    forall|k: int| 0 <= k < order.len() - 1 ==> #[trigger] needed_later(ms, order, k)
}

/// Each mod of `p` depends on the next one.
pub open spec fn is_dep_path(ms: Seq<ModManifest>, p: Seq<usize>) -> bool {
    forall|j: int| 0 <= j < p.len() - 1 ==> #[trigger] depends_on(ms, p[j] as int, p[j + 1] as int)
}

/// A chain of dependencies from `root` that comes back to a mod met before.
pub open spec fn is_cycle_from(ms: Seq<ModManifest>, root: int, p: Seq<usize>) -> bool {
    &&& p.len() >= 2
    &&& p[0] == root
    &&& is_dep_path(ms, p)
    &&& exists|j: int| 0 <= j < p.len() - 1 && #[trigger] p[j] == p.last()
}

/// Indices into a catalog of `n` records, each at most once.
pub open spec fn distinct_below(s: Seq<usize>, n: int) -> bool {
    &&& s.no_duplicates()
    &&& forall|i: int| 0 <= i < s.len() ==> #[trigger] s[i] < n
}

/// The indices below `n`, as a set.
spec fn below(n: usize) -> Set<usize> {
    Set::new(|x: usize| x < n)
}

proof fn lemma_below_len(n: usize)
    ensures
        below(n).finite(),
        below(n).len() == n,
    decreases n,
{
    if n == 0 {
        assert(below(n) =~= Set::empty());
    } else {
        lemma_below_len((n - 1) as usize);
        assert(below((n - 1) as usize).insert((n - 1) as usize) =~= below(n));
    }
}

/// No more distinct indices than there are records.
proof fn lemma_distinct_len(s: Seq<usize>, n: usize)
    requires
        distinct_below(s, n as int),
    ensures
        s.len() <= n,
{
    s.unique_seq_to_set();
    lemma_below_len(n);
    assert(s.to_set().subset_of(below(n)));
    vstd::set_lib::lemma_len_subset(s.to_set(), below(n));
}

/// What the depth-first walk keeps true: `stack` is the chain of mods being
/// resolved, starting at `root`; `order` the mods already resolved, each after
/// its dependencies, each needed by a later mod or by one still resolving.
spec fn walk_inv(ms: Seq<ModManifest>, root: int, stack: Seq<usize>, order: Seq<usize>) -> bool {
    &&& distinct_below(stack, ms.len() as int)
    &&& distinct_below(order, ms.len() as int)
    &&& forall|x: usize| !(stack.contains(x) && order.contains(x))
    &&& stack.len() > 0 ==> stack[0] == root
    &&& is_dep_path(ms, stack)
    &&& deps_first(ms, order)
    &&& forall|k: int|
        #![trigger order[k]]
        0 <= k < order.len() ==> order[k] == root || (exists|m: int|
            k < m < order.len() && #[trigger] depends_on(ms, order[m] as int, order[k] as int))
            || (exists|j: int|
            0 <= j < stack.len() && #[trigger] depends_on(ms, stack[j] as int, order[k] as int))
}

fn contains_index(v: &Vec<usize>, x: usize) -> (r: bool)
    ensures
        r == v@.contains(x),
{
    for i in 0..v.len()
        invariant
            forall|j: int| 0 <= j < i ==> v@[j] != x,
    {
        if v[i] == x {
            return true;
        }
    }
    false
}

/// Resolves mod `a` and, before it, everything it depends on.
fn visit(
    ms: &Vec<ModManifest>,
    keys: &Vec<String>,
    a: usize,
    root: Ghost<int>,
    stack: &mut Vec<usize>,
    order: &mut Vec<usize>,
) -> (r: Result<(), ()>)
    requires
        keys.len() == ms.len(),
        forall|i: int| 0 <= i < keys.len() ==> (#[trigger] keys@[i])@ == normalized(ms@[i].name@),
        a < ms.len(),
        !old(stack)@.contains(a),
        !old(order)@.contains(a),
        walk_inv(ms@, root@, old(stack)@, old(order)@),
        old(stack)@.len() == 0 ==> a == root@,
        old(stack)@.len() > 0 ==> depends_on(ms@, old(stack)@.last() as int, a as int),
    ensures
        final(order)@.len() >= old(order)@.len(),
        final(order)@.subrange(0, old(order)@.len() as int) == old(order)@,
        r is Ok ==> {
            &&& final(stack)@ == old(stack)@
            &&& final(order)@.len() > 0
            &&& final(order)@.last() == a
            &&& walk_inv(ms@, root@, final(stack)@, final(order)@)
        },
        r is Err ==> is_cycle_from(ms@, root@, final(stack)@),
    decreases ms.len() - old(stack)@.len(),
{
    let ghost s0 = stack@;
    let ghost o0 = order@;
    stack.push(a);
    proof {
        assert(stack@ == s0.push(a));
        assert forall|j: int| 0 <= j < stack@.len() - 1 implies #[trigger] depends_on(
            ms@,
            stack@[j] as int,
            stack@[j + 1] as int,
        ) by {
            if j < s0.len() - 1 {
                assert(depends_on(ms@, s0[j] as int, s0[j + 1] as int));
            }
        }
        assert forall|x: usize| !(stack@.contains(x) && order@.contains(x)) by {
            if stack@.contains(x) && order@.contains(x) {
                let t = choose|t: int| 0 <= t < stack@.len() && stack@[t] == x;
                if t < s0.len() {
                    assert(s0.contains(x));
                }
            }
        }
        assert forall|k: int|
            #![trigger order@[k]]
            0 <= k < order@.len() implies order@[k] == root@ || (exists|m: int|
                k < m < order@.len() && #[trigger] depends_on(
                    ms@,
                    order@[m] as int,
                    order@[k] as int,
                )) || (exists|j: int|
                0 <= j < stack@.len() && #[trigger] depends_on(
                    ms@,
                    stack@[j] as int,
                    order@[k] as int,
                )) by {
            if !(order@[k] == root@) && !(exists|m: int|
                k < m < order@.len() && #[trigger] depends_on(
                    ms@,
                    order@[m] as int,
                    order@[k] as int,
                )) {
                let j = choose|j: int|
                    0 <= j < s0.len() && #[trigger] depends_on(
                        ms@,
                        s0[j] as int,
                        order@[k] as int,
                    );
                assert(stack@[j] == s0[j]);
            }
        }
        lemma_distinct_len(stack@, ms.len());
    }
    let n_deps = ms[a].dependencies.len();
    for d in 0..n_deps
        invariant
            keys.len() == ms.len(),
            forall|i: int|
                0 <= i < keys.len() ==> (#[trigger] keys@[i])@ == normalized(ms@[i].name@),
            a < ms.len(),
            n_deps == ms@[a as int].dependencies@.len(),
            s0 == old(stack)@,
            o0 == old(order)@,
            stack@ == s0.push(a),
            stack@.len() <= ms.len(),
            !order@.contains(a),
            order@.len() >= o0.len(),
            order@.subrange(0, o0.len() as int) == o0,
            walk_inv(ms@, root@, stack@, order@),
            forall|dd: int, b: int|
                0 <= dd < d && #[trigger] resolves_dep(ms@, a as int, dd, b) ==> order@.contains(
                    b as usize,
                ),
    {
        let key = normalize_name(ms[a].dependencies[d].as_str());
        let found = position_of_key(keys, &key);
        proof {
            assert forall|dd: int, b: int|
                0 <= dd <= d && #[trigger] resolves_dep(ms@, a as int, dd, b) implies (found
                is Some && b == found->0 as int) || dd < d by {
                if dd == d {
                    if let Some(fb) = found {
                        if b < fb as int {
                            assert(keys@[b]@ != key@);
                        } else if (fb as int) < b {
                            assert(normalized(ms@[fb as int].name@) == key@);
                        }
                    } else {
                        assert(keys@[b]@ != key@);
                    }
                }
            }
        }
        if let Some(b) = found {
            proof {
                assert(is_first_match(ms@, normalized(ms@[a as int].dependencies@[d as int]@), b as int)) by {
                    assert forall|j: int| 0 <= j < b implies normalized(
                        #[trigger] ms@[j].name@,
                    ) != key@ by {
                        assert(keys@[j]@ != key@);
                    }
                }
                assert(resolves_dep(ms@, a as int, d as int, b as int));
                assert(depends_on(ms@, a as int, b as int));
            }
            if contains_index(order, b) {
            } else if contains_index(stack, b) {
                let ghost s1 = stack@;
                stack.push(b);
                proof {
                    assert(stack@ == s1.push(b));
                    assert forall|j: int| 0 <= j < stack@.len() - 1 implies #[trigger] depends_on(
                        ms@,
                        stack@[j] as int,
                        stack@[j + 1] as int,
                    ) by {
                        if j < s1.len() - 1 {
                            assert(depends_on(ms@, s1[j] as int, s1[j + 1] as int));
                        }
                    }
                    let t = choose|t: int| 0 <= t < s1.len() && s1[t] == b;
                    assert(stack@[t] == stack@.last());
                }
                return Err(());
            } else {
                let ghost o1 = order@;
                let res = visit(ms, keys, b, root, stack, order);
                if res.is_err() {
                    proof {
                        assert(order@.subrange(0, o0.len() as int) =~= o1.subrange(
                            0,
                            o0.len() as int,
                        ));
                    }
                    return Err(());
                }
                proof {
                    assert(order@.subrange(0, o0.len() as int) =~= o1.subrange(0, o0.len() as int));
                    assert forall|dd: int, bb: int|
                        0 <= dd <= d && #[trigger] resolves_dep(
                            ms@,
                            a as int,
                            dd,
                            bb,
                        ) implies order@.contains(bb as usize) by {
                        if dd < d {
                            let t = choose|t: int| 0 <= t < o1.len() && o1[t] == bb as usize;
                            assert(order@[t] == o1[t]);
                        } else {
                            assert(order@[order@.len() - 1] == b);
                        }
                    }
                    if order@.contains(a) {
                        let t = choose|t: int| 0 <= t < order@.len() && order@[t] == a;
                        assert(stack@.contains(a));
                    }
                }
            }
        }
        proof {
            assert forall|dd: int, bb: int|
                0 <= dd <= d && #[trigger] resolves_dep(ms@, a as int, dd, bb) implies order@.contains(
                bb as usize,
            ) by {
                if dd == d {
                }
            }
        }
    }
    let ghost o2 = order@;
    stack.pop();
    assert(stack@ =~= s0);
    order.push(a);
    proof {
        assert(order@ == o2.push(a));
        assert(order@.subrange(0, o0.len() as int) =~= o2.subrange(0, o0.len() as int));
        assert forall|x: usize| !(stack@.contains(x) && order@.contains(x)) by {
            if stack@.contains(x) && order@.contains(x) {
                let t = choose|t: int| 0 <= t < order@.len() && order@[t] == x;
                if t < o2.len() {
                    assert(o2.contains(x));
                    let u = choose|u: int| 0 <= u < s0.len() && s0[u] == x;
                    assert(s0.push(a)[u] == x);
                }
            }
        }
        assert forall|k: int, b: int|
            0 <= k < order@.len() && #[trigger] depends_on(ms@, order@[k] as int, b) implies exists|
            m: int,
        | 0 <= m < k && order@[m] == b by {
            if k < o2.len() {
                assert(order@[k] == o2[k]);
                let m = choose|m: int| 0 <= m < k && o2[m] == b;
                assert(order@[m] == b);
            } else {
                let dd = choose|dd: int| #[trigger] resolves_dep(ms@, a as int, dd, b);
                assert(o2.contains(b as usize));
                let m = choose|m: int| 0 <= m < o2.len() && o2[m] == b as usize;
                assert(order@[m] == b);
            }
        }
        assert forall|k: int|
            #![trigger order@[k]]
            0 <= k < order@.len() implies order@[k] == root@ || (exists|m: int|
                k < m < order@.len() && #[trigger] depends_on(
                    ms@,
                    order@[m] as int,
                    order@[k] as int,
                )) || (exists|j: int|
                0 <= j < stack@.len() && #[trigger] depends_on(
                    ms@,
                    stack@[j] as int,
                    order@[k] as int,
                )) by {
            if k == o2.len() {
                if s0.len() > 0 {
                    assert(depends_on(ms@, stack@[s0.len() - 1] as int, order@[k] as int));
                }
            } else {
                assert(order@[k] == o2[k]);
                if o2[k] as int != root@ {
                    if exists|m: int|
                        k < m < o2.len() && #[trigger] depends_on(
                            ms@,
                            o2[m] as int,
                            o2[k] as int,
                        ) {
                        let m = choose|m: int|
                            k < m < o2.len() && #[trigger] depends_on(
                                ms@,
                                o2[m] as int,
                                o2[k] as int,
                            );
                        assert(order@[m] == o2[m]);
                    } else {
                        let j = choose|j: int|
                            0 <= j < s0.len() + 1 && #[trigger] depends_on(
                                ms@,
                                s0.push(a)[j] as int,
                                o2[k] as int,
                            );
                        if j == s0.len() {
                            assert(order@[o2.len() as int] == a);
                            assert(depends_on(ms@, order@[o2.len() as int] as int, order@[k] as int));
                        } else {
                            assert(stack@[j] == s0.push(a)[j]);
                        }
                    }
                }
            }
        }
    }
    Ok(())
}

/// The position of `x` in `order`.
spec fn position_in(order: Seq<usize>, x: usize) -> int {
    choose|m: int| 0 <= m < order.len() && order[m] == x
}

proof fn lemma_path_positions(ms: Seq<ModManifest>, order: Seq<usize>, p: Seq<usize>, j: int)
    requires
        distinct_below(order, ms.len() as int),
        deps_first(ms, order),
        order.len() > 0,
        p.len() > 0,
        p[0] == order.last(),
        is_dep_path(ms, p),
        0 <= j < p.len(),
    ensures
        order.contains(p[j]),
        forall|i: int| 0 <= i < j ==> position_in(order, p[j]) < position_in(order, #[trigger] p[i]),
    decreases j,
{
    if j == 0 {
        assert(order[order.len() - 1] == p[0]);
    } else {
        lemma_path_positions(ms, order, p, j - 1);
        let q = position_in(order, p[j - 1]);
        let k = j - 1;
        assert(depends_on(ms, p[k] as int, p[k + 1] as int));
        assert(k + 1 == j);
        assert(depends_on(ms, order[q] as int, p[j] as int));
        let m = choose|m: int| 0 <= m < q && order[m] == p[j];
        assert(order.contains(p[j]));
        let pj = position_in(order, p[j]);
        assert(pj == m) by {
            if pj != m {
                assert(order[pj] == order[m]);
            }
        }
    }
}

/// A plan that puts every mod after its dependencies rules out any cycle of
/// dependencies starting from its last mod.
pub proof fn lemma_ordered_plan_is_acyclic(ms: Seq<ModManifest>, order: Seq<usize>, p: Seq<usize>)
    requires
        distinct_below(order, ms.len() as int),
        deps_first(ms, order),
        order.len() > 0,
    ensures
        !is_cycle_from(ms, order.last() as int, p),
{
    if is_cycle_from(ms, order.last() as int, p) {
        let last = p.len() - 1;
        lemma_path_positions(ms, order, p, last);
        let j = choose|j: int| 0 <= j < p.len() - 1 && #[trigger] p[j] == p.last();
        assert(position_in(order, p[last]) < position_in(order, p[j]));
    }
}

/// What installing one mod of a plan takes.
#[derive(Debug)]
pub enum InstallStep {
    /// Installed and enabled already: nothing to do, nothing to fetch.
    AlreadyEnabled,
    /// Installed but disabled: move it back instead of downloading it.
    EnableInstead,
    /// Not installed: fetch `url` into the directory `dest`.
    Download { url: String, dest: String },
}

impl ModState {
    /// Resolves `query` to a mod and lists what installing it takes: the
    /// mods it depends on, directly or not, each after its own dependencies,
    /// and the requested mod last. A dependency that names no mod is passed
    /// over. A catalog in which the request leads back to a mod already
    /// being resolved gives `CyclicDependency`.
    pub fn plan_install(&self, query: &str) -> (r: Result<Vec<usize>, ModError>)
        ensures
            match r {
                Ok(order) => {
                    &&& self.configured()
                    &&& order@.len() > 0
                    &&& is_first_match(self.manifests@, normalized(query@), order@.last() as int)
                    &&& distinct_below(order@, self.manifests@.len() as int)
                    &&& deps_first(self.manifests@, order@)
                    &&& each_needed(self.manifests@, order@)
                },
                Err(ModError::NotConfigured) => !self.configured(),
                Err(ModError::NotFound) => self.configured() && no_match(
                    self.manifests@,
                    normalized(query@),
                ),
                Err(ModError::CyclicDependency) => self.configured() && exists|t: int, p: Seq<usize>|
                    is_first_match(self.manifests@, normalized(query@), t) && is_cycle_from(
                        self.manifests@,
                        t,
                        p,
                    ),
                Err(_) => false,
            },
    {
        if !self.is_configured() {
            return Err(ModError::NotConfigured);
        }
        let target = match self.find_mod(query) {
            None => {
                return Err(ModError::NotFound);
            },
            Some(t) => t,
        };
        let keys = self.name_keys();
        let mut stack: Vec<usize> = Vec::new();
        let mut order: Vec<usize> = Vec::new();
        proof {
            assert(walk_inv(self.manifests@, target as int, stack@, order@));
        }
        match visit(&self.manifests, &keys, target, Ghost(target as int), &mut stack, &mut order) {
            Ok(()) => {
                proof {
                    let ms = self.manifests@;
                    let last = order@.len() - 1;
                    assert forall|k: int| 0 <= k < last implies #[trigger] needed_later(ms, order@, k) by {
                        assert(order@[k] != order@[last]);
                    }
                }
                Ok(order)
            },
            Err(()) => {
                proof {
                    assert(is_cycle_from(self.manifests@, target as int, stack@));
                }
                Err(ModError::CyclicDependency)
            },
        }
    }

    /// The dependencies of mod `i` that name no mod of the catalog.
    pub fn unresolved_dependencies(&self, i: usize) -> (r: Vec<String>)
        requires
            i < self.manifests.len(),
        ensures
            forall|k: int|
                0 <= k < r.len() ==> self.manifests@[i as int].dependencies@.contains(
                    #[trigger] r@[k],
                ),
            forall|k: int|
                0 <= k < r.len() ==> no_match(self.manifests@, normalized((#[trigger] r@[k])@)),
            forall|d: int|
                0 <= d < self.manifests@[i as int].dependencies@.len() && no_match(
                    self.manifests@,
                    normalized((#[trigger] self.manifests@[i as int].dependencies@[d])@),
                ) ==> r@.contains(self.manifests@[i as int].dependencies@[d]),
    {
        let deps = &self.manifests[i].dependencies;
        let mut r: Vec<String> = Vec::new();
        for d in 0..deps.len()
            invariant
                i < self.manifests.len(),
                deps == self.manifests@[i as int].dependencies,
                forall|k: int| 0 <= k < r.len() ==> deps@.contains(#[trigger] r@[k]),
                forall|k: int|
                    0 <= k < r.len() ==> no_match(self.manifests@, normalized((#[trigger] r@[k])@)),
                forall|dd: int|
                    0 <= dd < d && no_match(self.manifests@, normalized((#[trigger] deps@[dd])@))
                        ==> r@.contains(deps@[dd]),
        {
            if self.find_mod(deps[d].as_str()).is_none() {
                let ghost r0 = r@;
                r.push(deps[d].clone());
                proof {
                    assert(r@[r0.len() as int] == deps@[d as int]);
                    assert forall|dd: int|
                        0 <= dd < d && no_match(self.manifests@, normalized((#[trigger] deps@[dd])@))
                            implies r@.contains(deps@[dd]) by {
                        let t = choose|t: int| 0 <= t < r0.len() && r0[t] == deps@[dd];
                        assert(r@[t] == r0[t]);
                    }
                    assert forall|k: int| 0 <= k < r.len() implies deps@.contains(#[trigger] r@[k]) by {
                        if k == r0.len() {
                            assert(deps@[d as int] == r@[k]);
                        } else {
                            assert(r@[k] == r0[k]);
                        }
                    }
                }
            }
        }
        r
    }

    /// Decides what mod `i` needs: nothing when it is installed and enabled,
    /// a move back when it is installed but disabled, else a download of its
    /// published link into its active directory.
    pub fn install_step(&self, i: usize) -> (r: Result<InstallStep, ModError>)
        requires
            i < self.manifests.len(),
        ensures
            match r {
                Ok(InstallStep::AlreadyEnabled) => self.configured()
                    && self.manifests@[i as int].installed && self.manifests@[i as int].enabled,
                Ok(InstallStep::EnableInstead) => self.configured()
                    && self.manifests@[i as int].installed && !self.manifests@[i as int].enabled,
                Ok(InstallStep::Download { url, dest }) => {
                    &&& self.configured()
                    &&& !self.manifests@[i as int].installed
                    &&& url@ == self.manifests@[i as int].link@
                    &&& dest@ == active_path_of(self.mods_path@, self.manifests@[i as int].name@)
                },
                Err(e) => !self.configured() && e == ModError::NotConfigured,
            },
    {
        let m = &self.manifests[i];
        if m.installed && m.enabled {
            if !self.is_configured() {
                return Err(ModError::NotConfigured);
            }
            return Ok(InstallStep::AlreadyEnabled);
        }
        if m.installed {
            if !self.is_configured() {
                return Err(ModError::NotConfigured);
            }
            return Ok(InstallStep::EnableInstead);
        }
        match self.locate(m.name.as_str()) {
            Ok((dest, _)) => Ok(InstallStep::Download { url: m.link.clone(), dest }),
            Err(e) => Err(e),
        }
    }

    /// Records how the download of mod `i` ended: on success it is installed
    /// and enabled; on failure nothing changes and the result is a
    /// `TransferError`.
    pub fn record_download(&mut self, i: usize, succeeded: bool) -> (r: Result<(), ModError>)
        requires
            old(self).wf(),
            i < old(self).manifests.len(),
        ensures
            final(self).wf(),
            final(self).same_but_manifests(old(self)),
            succeeded ==> final(self).manifests@ == old(self).manifests@.update(
                i as int,
                after_enable(old(self).manifests@[i as int]),
            ),
            !succeeded ==> final(self).manifests == old(self).manifests,
            r is Ok <==> succeeded,
            r matches Err(e) ==> e == ModError::TransferError,
    {
        if succeeded {
            self.manifests[i].installed = true;
            self.manifests[i].enabled = true;
            proof {
                assert(self.manifests@ =~= old(self).manifests@.update(
                    i as int,
                    after_enable(old(self).manifests@[i as int]),
                ));
            }
            Ok(())
        } else {
            Err(ModError::TransferError)
        }
    }

    /// Stores the percentage of the download in flight.
    pub fn record_progress(&mut self, percent: u8)
        requires
            old(self).wf(),
            percent <= 100,
        ensures
            final(self).wf(),
            final(self).download_progress == percent,
            final(self).mods_path == old(self).mods_path,
            final(self).manifests == old(self).manifests,
            final(self).profiles == old(self).profiles,
            final(self).current_profile == old(self).current_profile,
    {
        self.download_progress = percent;
    }
}

} // verus!
