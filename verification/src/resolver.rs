//! Dependency closure over a system package index.
//!
//! `Resolver::resolve_with_satisfied` walks the requested packages depth first
//! and emits every package after the packages it depends on. The walk is stated
//! as the spec function `resolve_spec`; the answers that the caller's
//! "already satisfied by the host" test gave are a map from dependency name to
//! answer, since the walk asks about each name at most once; the map holds an
//! answer for exactly the names the walk asks about (`asked_names`).
use vstd::prelude::*;

use crate::error::OilError;
use crate::registry::{dep_name, lemma_find_pos, parse_dep_name, spec_find, PackageIndex, PackageMetadata};
use crate::text::{owned, push_str};

verus! {

/// The set of names held by a list of strings.
pub open spec fn names_set(v: Seq<String>) -> Set<Seq<char>> {
    Set::new(|n: Seq<char>| exists|k: int| 0 <= k < v.len() && #[trigger] v[k]@ == n)
}

/// Where the walk stands: names already looked at, names already emitted,
/// the packages emitted so far, and the dependency names the host was asked about.
pub struct ResolveState {
    pub visited: Set<Seq<char>>,
    pub pushed: Set<Seq<char>>,
    pub out: Seq<PackageMetadata>,
    pub asked: Set<Seq<char>>,
}

pub open spec fn empty_state() -> ResolveState {
    ResolveState { visited: Set::empty(), pushed: Set::empty(), out: seq![], asked: Set::empty() }
}

/// Entering a name not seen before: it is marked visited, and a dependency
/// (not a requested name) is put to the host's "already satisfied" test.
pub open spec fn enter(st: ResolveState, name: Seq<char>, requested: bool) -> ResolveState {
    ResolveState {
        visited: st.visited.insert(name),
        asked: if requested {
            st.asked
        } else {
            st.asked.insert(name)
        },
        ..st
    }
}

/// The host-satisfied answer recorded for `n` (`false` when none was recorded).
pub open spec fn answer(sat: Map<Seq<char>, bool>, n: Seq<char>) -> bool {
    sat.contains_key(n) && sat[n]
}

/// Visiting one name: a name seen before is not walked again (its lookup is
/// still reported); a dependency (not a requested name) that the host already
/// satisfies is skipped; otherwise the package it resolves to is walked, its
/// dependencies first, and emitted unless a package of that name was emitted
/// already.
pub open spec fn visit_spec(
    pkgs: Seq<PackageMetadata>,
    sat: Map<Seq<char>, bool>,
    name: Seq<char>,
    requested: bool,
    st: ResolveState,
    fuel: nat,
) -> (ResolveState, Option<PackageMetadata>)
    decreases fuel, 0int, 0int,
{
    if fuel == 0 {
        (st, None)
    } else if st.visited.contains(name) {
        (st, spec_find(pkgs, name))
    } else {
        let st1 = enter(st, name, requested);
        if !requested && answer(sat, name) {
            (st1, None)
        } else {
            match spec_find(pkgs, name) {
                None => (st1, None),
                Some(meta) => {
                    let st2 = ResolveState { visited: st1.visited.insert(meta.name@), ..st1 };
                    let st3 = deps_spec(pkgs, sat, meta.depends@, st2, (fuel - 1) as nat);
                    let st4 = if st3.pushed.contains(meta.name@) {
                        st3
                    } else {
                        ResolveState {
                            pushed: st3.pushed.insert(meta.name@),
                            out: st3.out.push(meta),
                            ..st3
                        }
                    };
                    (st4, Some(meta))
                },
            }
        }
    }
}

/// Visiting the dependency entries `deps` in order (entries naming nothing are skipped).
pub open spec fn deps_spec(
    pkgs: Seq<PackageMetadata>,
    sat: Map<Seq<char>, bool>,
    deps: Seq<String>,
    st: ResolveState,
    fuel: nat,
) -> ResolveState
    decreases fuel, 1int, deps.len(),
{
    if deps.len() == 0 {
        st
    } else {
        let prev = deps_spec(pkgs, sat, deps.drop_last(), st, fuel);
        let d = dep_name(deps.last()@);
        if d.len() == 0 {
            prev
        } else {
            visit_spec(pkgs, sat, d, false, prev, fuel).0
        }
    }
}

/// Visiting the requested entries in order; the second component lists those
/// that resolve to no package.
pub open spec fn requests_spec(
    pkgs: Seq<PackageMetadata>,
    sat: Map<Seq<char>, bool>,
    reqs: Seq<String>,
    fuel: nat,
) -> (ResolveState, Seq<String>)
    decreases reqs.len(),
{
    if reqs.len() == 0 {
        (empty_state(), seq![])
    } else {
        let prev = requests_spec(pkgs, sat, reqs.drop_last(), fuel);
        let r = visit_spec(pkgs, sat, dep_name(reqs.last()@), true, prev.0, fuel);
        (r.0, if r.1 is None {
            prev.1.push(reqs.last())
        } else {
            prev.1
        })
    }
}

/// Every name the walk can meet: requested names, package names and dependency names.
pub open spec fn dep_names_of(pkgs: Seq<PackageMetadata>) -> Seq<Seq<char>>
    decreases pkgs.len(),
{
    if pkgs.len() == 0 {
        seq![]
    } else {
        dep_names_of(pkgs.drop_last()) + pkgs.last().depends@.map_values(
            |d: String| dep_name(d@),
        ) + seq![pkgs.last().name@]
    }
}

pub open spec fn universe(pkgs: Seq<PackageMetadata>, reqs: Seq<String>) -> Seq<Seq<char>> {
    reqs.map_values(|r: String| dep_name(r@)) + dep_names_of(pkgs)
}

/// Enough steps for the walk: each nested visit looks at a name not seen before.
pub open spec fn resolve_fuel(pkgs: Seq<PackageMetadata>, reqs: Seq<String>) -> nat {
    universe(pkgs, reqs).len() + 1
}

/// The outcome of resolving `reqs`: the emitted packages, in order, or the
/// requested entries that name no package of the index.
pub open spec fn resolve_spec(
    pkgs: Seq<PackageMetadata>,
    reqs: Seq<String>,
    sat: Map<Seq<char>, bool>,
) -> Result<Seq<PackageMetadata>, Seq<String>> {
    let r = requests_spec(pkgs, sat, reqs, resolve_fuel(pkgs, reqs));
    if r.1.len() == 0 {
        Ok(r.0.out)
    } else {
        Err(r.1)
    }
}

/// The dependency names that resolving `reqs` puts to the host's
/// "already satisfied" test.
pub open spec fn asked_names(
    pkgs: Seq<PackageMetadata>,
    reqs: Seq<String>,
    sat: Map<Seq<char>, bool>,
) -> Set<Seq<char>> {
    requests_spec(pkgs, sat, reqs, resolve_fuel(pkgs, reqs)).0.asked
}

/// `items` joined with `sep` between them.
pub open spec fn join_spec(items: Seq<String>, sep: Seq<char>) -> Seq<char>
    decreases items.len(),
{
    if items.len() == 0 {
        seq![]
    } else if items.len() == 1 {
        items[0]@
    } else {
        join_spec(items.drop_last(), sep) + sep + items.last()@
    }
}

/// The error text for the requested entries that were not found.
pub open spec fn missing_message(missing: Seq<String>) -> Seq<char> {
    "package"@ + (if missing.len() == 1 {
        ""@
    } else {
        "s"@
    }) + " not found in system registry: "@ + join_spec(missing, ", "@)
}

/// The closure `f` can answer `b` for some string whose characters are `n`.
pub open spec fn answered<F: Fn(&str) -> bool>(f: F, n: Seq<char>, b: bool) -> bool {
    exists|s: &str| s@ == n && #[trigger] call_ensures(f, (s,), b)
}

/// Every recorded answer is one the closure can give.
pub open spec fn answers_valid<F: Fn(&str) -> bool>(f: F, sat: Map<Seq<char>, bool>) -> bool {
    forall|n: Seq<char>| #[trigger] sat.contains_key(n) ==> answered(f, n, sat[n])
}

pub open spec fn deref_all(v: Seq<&PackageMetadata>) -> Seq<PackageMetadata> {
    v.map_values(|p: &PackageMetadata| *p)
}

pub open spec fn agree_on(a1: Map<Seq<char>, bool>, a2: Map<Seq<char>, bool>, s: Set<Seq<char>>) -> bool {
    forall|n: Seq<char>| s.contains(n) ==> answer(a1, n) == answer(a2, n)
}

// ---------------------------------------------------------------------------
// Facts about the walk
// ---------------------------------------------------------------------------
pub proof fn lemma_visit_mono(
    pkgs: Seq<PackageMetadata>,
    sat: Map<Seq<char>, bool>,
    name: Seq<char>,
    requested: bool,
    st: ResolveState,
    fuel: nat,
)
    ensures
        st.visited.subset_of(visit_spec(pkgs, sat, name, requested, st, fuel).0.visited),
    decreases fuel, 0int, 0int,
{
    if fuel > 0 && !st.visited.contains(name) {
        let st1 = enter(st, name, requested);
        if !(!requested && answer(sat, name)) {
            if let Some(meta) = spec_find(pkgs, name) {
                let st2 = ResolveState { visited: st1.visited.insert(meta.name@), ..st1 };
                lemma_deps_mono(pkgs, sat, meta.depends@, st2, (fuel - 1) as nat);
            }
        }
    }
}

pub proof fn lemma_deps_mono(
    pkgs: Seq<PackageMetadata>,
    sat: Map<Seq<char>, bool>,
    deps: Seq<String>,
    st: ResolveState,
    fuel: nat,
)
    ensures
        st.visited.subset_of(deps_spec(pkgs, sat, deps, st, fuel).visited),
    decreases fuel, 1int, deps.len(),
{
    if deps.len() > 0 {
        lemma_deps_mono(pkgs, sat, deps.drop_last(), st, fuel);
        let prev = deps_spec(pkgs, sat, deps.drop_last(), st, fuel);
        let d = dep_name(deps.last()@);
        if d.len() > 0 {
            lemma_visit_mono(pkgs, sat, d, false, prev, fuel);
        }
    }
}

pub proof fn lemma_visit_agree(
    pkgs: Seq<PackageMetadata>,
    a1: Map<Seq<char>, bool>,
    a2: Map<Seq<char>, bool>,
    name: Seq<char>,
    requested: bool,
    st: ResolveState,
    fuel: nat,
)
    requires
        agree_on(a1, a2, visit_spec(pkgs, a1, name, requested, st, fuel).0.visited),
    ensures
        visit_spec(pkgs, a1, name, requested, st, fuel) == visit_spec(
            pkgs,
            a2,
            name,
            requested,
            st,
            fuel,
        ),
    decreases fuel, 0int, 0int,
{
    if fuel > 0 && !st.visited.contains(name) {
        let st1 = enter(st, name, requested);
        if let Some(meta) = spec_find(pkgs, name) {
            let st2 = ResolveState { visited: st1.visited.insert(meta.name@), ..st1 };
            lemma_deps_mono(pkgs, a1, meta.depends@, st2, (fuel - 1) as nat);
            if !(!requested && answer(a1, name)) {
                assert(visit_spec(pkgs, a1, name, requested, st, fuel).0.visited.contains(name));
                lemma_deps_agree(pkgs, a1, a2, meta.depends@, st2, (fuel - 1) as nat);
            } else {
                assert(visit_spec(pkgs, a1, name, requested, st, fuel).0.visited.contains(name));
            }
        } else {
            assert(visit_spec(pkgs, a1, name, requested, st, fuel).0.visited.contains(name));
        }
    }
}

pub proof fn lemma_deps_agree(
    pkgs: Seq<PackageMetadata>,
    a1: Map<Seq<char>, bool>,
    a2: Map<Seq<char>, bool>,
    deps: Seq<String>,
    st: ResolveState,
    fuel: nat,
)
    requires
        agree_on(a1, a2, deps_spec(pkgs, a1, deps, st, fuel).visited),
    ensures
        deps_spec(pkgs, a1, deps, st, fuel) == deps_spec(pkgs, a2, deps, st, fuel),
    decreases fuel, 1int, deps.len(),
{
    if deps.len() > 0 {
        let prev = deps_spec(pkgs, a1, deps.drop_last(), st, fuel);
        let d = dep_name(deps.last()@);
        if d.len() > 0 {
            lemma_visit_mono(pkgs, a1, d, false, prev, fuel);
            lemma_visit_agree(pkgs, a1, a2, d, false, prev, fuel);
        }
        lemma_deps_agree(pkgs, a1, a2, deps.drop_last(), st, fuel);
    }
}

pub proof fn lemma_requests_mono(
    pkgs: Seq<PackageMetadata>,
    sat: Map<Seq<char>, bool>,
    reqs: Seq<String>,
    k: int,
    fuel: nat,
)
    requires
        0 <= k <= reqs.len(),
    ensures
        requests_spec(pkgs, sat, reqs.take(k), fuel).0.visited.subset_of(
            requests_spec(pkgs, sat, reqs, fuel).0.visited,
        ),
    decreases reqs.len(),
{
    if k < reqs.len() {
        assert(reqs.drop_last().take(k) == reqs.take(k));
        lemma_requests_mono(pkgs, sat, reqs.drop_last(), k, fuel);
        let prev = requests_spec(pkgs, sat, reqs.drop_last(), fuel);
        lemma_visit_mono(pkgs, sat, dep_name(reqs.last()@), true, prev.0, fuel);
    } else {
        assert(reqs.take(k) == reqs);
    }
}

pub proof fn lemma_requests_agree(
    pkgs: Seq<PackageMetadata>,
    a1: Map<Seq<char>, bool>,
    a2: Map<Seq<char>, bool>,
    reqs: Seq<String>,
    fuel: nat,
)
    requires
        agree_on(a1, a2, requests_spec(pkgs, a1, reqs, fuel).0.visited),
    ensures
        requests_spec(pkgs, a1, reqs, fuel) == requests_spec(pkgs, a2, reqs, fuel),
    decreases reqs.len(),
{
    if reqs.len() > 0 {
        let prev = requests_spec(pkgs, a1, reqs.drop_last(), fuel);
        lemma_visit_mono(pkgs, a1, dep_name(reqs.last()@), true, prev.0, fuel);
        lemma_visit_agree(pkgs, a1, a2, dep_name(reqs.last()@), true, prev.0, fuel);
        lemma_requests_agree(pkgs, a1, a2, reqs.drop_last(), fuel);
    }
}

/// A requested name is reported found exactly when the index resolves it.
pub proof fn lemma_visit_requested(
    pkgs: Seq<PackageMetadata>,
    sat: Map<Seq<char>, bool>,
    name: Seq<char>,
    st: ResolveState,
    fuel: nat,
)
    requires
        fuel > 0,
    ensures
        visit_spec(pkgs, sat, name, true, st, fuel).1 == spec_find(pkgs, name),
{
}

/// Number of entries of `u` whose name is not yet in `v`.
pub open spec fn unvisited(u: Seq<Seq<char>>, v: Set<Seq<char>>) -> nat
    decreases u.len(),
{
    if u.len() == 0 {
        0
    } else {
        unvisited(u.drop_last(), v) + (if v.contains(u.last()) {
            0nat
        } else {
            1nat
        })
    }
}

proof fn lemma_unvisited_mono(u: Seq<Seq<char>>, v1: Set<Seq<char>>, v2: Set<Seq<char>>)
    requires
        v1.subset_of(v2),
    ensures
        unvisited(u, v2) <= unvisited(u, v1),
    decreases u.len(),
{
    if u.len() > 0 {
        lemma_unvisited_mono(u.drop_last(), v1, v2);
    }
}

proof fn lemma_unvisited_strict(u: Seq<Seq<char>>, v: Set<Seq<char>>, n: Seq<char>)
    requires
        u.contains(n),
        !v.contains(n),
    ensures
        unvisited(u, v.insert(n)) < unvisited(u, v),
    decreases u.len(),
{
    if u.last() == n {
        lemma_unvisited_mono(u.drop_last(), v, v.insert(n));
    } else {
        let k = choose|k: int| 0 <= k < u.len() && u[k] == n;
        assert(u.drop_last()[k] == n);
        lemma_unvisited_strict(u.drop_last(), v, n);
    }
}

proof fn lemma_unvisited_bound(u: Seq<Seq<char>>, v: Set<Seq<char>>)
    ensures
        unvisited(u, v) <= u.len(),
    decreases u.len(),
{
    if u.len() > 0 {
        lemma_unvisited_bound(u.drop_last(), v);
    }
}

proof fn lemma_dep_names_of(pkgs: Seq<PackageMetadata>, i: int)
    requires
        0 <= i < pkgs.len(),
    ensures
        dep_names_of(pkgs).contains(pkgs[i].name@),
        forall|k: int|
            0 <= k < pkgs[i].depends@.len() ==> dep_names_of(pkgs).contains(
                #[trigger] dep_name(pkgs[i].depends@[k]@),
            ),
    decreases pkgs.len(),
{
    let front = dep_names_of(pkgs.drop_last());
    let ds = pkgs.last().depends@.map_values(|d: String| dep_name(d@));
    let all = dep_names_of(pkgs);
    assert(all == front + ds + seq![pkgs.last().name@]);
    if i == pkgs.len() - 1 {
        assert(all[(front.len() + ds.len()) as int] == pkgs[i].name@);
        assert forall|k: int| 0 <= k < pkgs[i].depends@.len() implies all.contains(
            #[trigger] dep_name(pkgs[i].depends@[k]@),
        ) by {
            assert(all[front.len() + k] == dep_name(pkgs[i].depends@[k]@));
        }
    } else {
        lemma_dep_names_of(pkgs.drop_last(), i);
        assert(pkgs.drop_last()[i] == pkgs[i]);
        let j = choose|j: int| 0 <= j < front.len() && front[j] == pkgs[i].name@;
        assert(all[j] == pkgs[i].name@);
        assert forall|k: int| 0 <= k < pkgs[i].depends@.len() implies all.contains(
            #[trigger] dep_name(pkgs[i].depends@[k]@),
        ) by {
            assert(front.contains(dep_name(pkgs.drop_last()[i].depends@[k]@)));
            let j2 = choose|j2: int|
                0 <= j2 < front.len() && front[j2] == dep_name(pkgs[i].depends@[k]@);
            assert(all[j2] == front[j2]);
        }
    }
}

proof fn lemma_universe_pkg(pkgs: Seq<PackageMetadata>, reqs: Seq<String>, i: int)
    requires
        0 <= i < pkgs.len(),
    ensures
        universe(pkgs, reqs).contains(pkgs[i].name@),
        forall|k: int|
            0 <= k < pkgs[i].depends@.len() ==> universe(pkgs, reqs).contains(
                #[trigger] dep_name(pkgs[i].depends@[k]@),
            ),
{
    lemma_dep_names_of(pkgs, i);
    let rs = reqs.map_values(|r: String| dep_name(r@));
    let ds = dep_names_of(pkgs);
    let u = universe(pkgs, reqs);
    let j = choose|j: int| 0 <= j < ds.len() && ds[j] == pkgs[i].name@;
    assert(u[rs.len() + j] == pkgs[i].name@);
    assert forall|k: int| 0 <= k < pkgs[i].depends@.len() implies u.contains(
        #[trigger] dep_name(pkgs[i].depends@[k]@),
    ) by {
        assert(ds.contains(dep_name(pkgs[i].depends@[k]@)));
        let j2 = choose|j2: int| 0 <= j2 < ds.len() && ds[j2] == dep_name(pkgs[i].depends@[k]@);
        assert(u[rs.len() + j2] == ds[j2]);
    }
}

// ---------------------------------------------------------------------------
// The walk
// ---------------------------------------------------------------------------
/// The mutable part of one resolution run.
struct Walk<'a> {
    visited: Vec<String>,
    pushed: Vec<String>,
    result: Vec<&'a PackageMetadata>,
    answers: Ghost<Map<Seq<char>, bool>>,
}

impl<'a> Walk<'a> {
    spec fn state(&self) -> ResolveState {
        ResolveState {
            visited: names_set(self.visited@),
            pushed: names_set(self.pushed@),
            out: deref_all(self.result@),
            asked: self.answers@.dom(),
        }
    }

    /// Answers are recorded only for names already visited.
    spec fn wf(&self) -> bool {
        forall|n: Seq<char>| #[trigger]
            self.answers@.contains_key(n) ==> names_set(self.visited@).contains(n)
    }
}

/// Answers recorded during a step are for names that were new at its start;
/// answers recorded before it are kept.
spec fn answers_extend(a_old: Map<Seq<char>, bool>, a_new: Map<Seq<char>, bool>, v_old: Set<Seq<char>>) -> bool {
    &&& a_old.submap_of(a_new)
    &&& forall|n: Seq<char>| #[trigger]
        a_new.contains_key(n) && !a_old.contains_key(n) ==> !v_old.contains(n)
}

fn names_contain(v: &Vec<String>, n: &String) -> (b: bool)
    ensures
        b == names_set(v@).contains(n@),
{
    let mut k: usize = 0;
    while k < v.len()
        invariant
            k <= v@.len(),
            forall|m: int| 0 <= m < k ==> #[trigger] v@[m]@ != n@,
        decreases v@.len() - k,
    {
        if v[k] == *n {
            return true;
        }
        k = k + 1;
    }
    false
}

proof fn lemma_names_push(v: Seq<String>, s: String)
    ensures
        names_set(v.push(s)) == names_set(v).insert(s@),
{
    assert forall|n: Seq<char>| names_set(v.push(s)).contains(n) == names_set(v).insert(
        s@,
    ).contains(n) by {
        if names_set(v.push(s)).contains(n) {
            let k = choose|k: int| 0 <= k < v.push(s).len() && #[trigger] v.push(s)[k]@ == n;
            if k < v.len() {
                assert(v[k]@ == n);
            }
        }
        if names_set(v).contains(n) {
            let k = choose|k: int| 0 <= k < v.len() && #[trigger] v[k]@ == n;
            assert(v.push(s)[k]@ == n);
        }
        if n == s@ {
            assert(v.push(s)[v.len() as int]@ == n);
        }
    }
    assert(names_set(v.push(s)) =~= names_set(v).insert(s@));
}

/// The arguments an answer test is called with accept any string.
pub open spec fn accepts_all<F: Fn(&str) -> bool>(f: F) -> bool {
    forall|s: &str| #[trigger] call_requires(f, (s,))
}

pub struct Resolver<'a> {
    index: &'a PackageIndex,
}

impl<'a> Resolver<'a> {
    pub closed spec fn index(&self) -> &'a PackageIndex {
        self.index
    }

    pub fn new(index: &'a PackageIndex) -> (r: Self)
        ensures
            r.index() == index,
    {
        Self { index }
    }

    /// Resolve the full install closure for the requested packages, treating no
    /// dependency as satisfied by the host. Returns packages in topological order
    /// (dependencies before dependents).
    pub fn resolve(&self, packages: &[String]) -> (r: Result<Vec<&'a PackageMetadata>, OilError>)
        ensures
            match r {
                Ok(v) => resolve_spec(self.index().packages@, packages@, Map::empty()) == Ok::<
                    Seq<PackageMetadata>,
                    Seq<String>,
                >(deref_all(v@)),
                Err(e) => exists|missing: Seq<String>|
                    resolve_spec(self.index().packages@, packages@, Map::empty()) == Err::<
                        Seq<PackageMetadata>,
                        Seq<String>,
                    >(missing) && e == OilError::InstallError(e->InstallError_0) && e.text()
                        == missing_message(missing),
            },
    {
        let never = |dep: &str| -> (b: bool)
            ensures
                !b,
            { false };
        let r = self.resolve_with_satisfied(packages, never);
        proof {
            let pkgs = self.index().packages@;
            let fuel = resolve_fuel(pkgs, packages@);
            let sat = choose|sat: Map<Seq<char>, bool>|
                answers_valid(never, sat) && match r {
                    Ok(v) => resolve_spec(pkgs, packages@, sat) == Ok::<
                        Seq<PackageMetadata>,
                        Seq<String>,
                    >(deref_all(v@)),
                    Err(e) => exists|missing: Seq<String>|
                        resolve_spec(pkgs, packages@, sat) == Err::<
                            Seq<PackageMetadata>,
                            Seq<String>,
                        >(missing) && e == OilError::InstallError(e->InstallError_0) && e.text()
                            == missing_message(missing),
                };
            assert forall|n: Seq<char>| answer(sat, n) == answer(Map::empty(), n) by {
                if sat.contains_key(n) {
                    assert(answered(never, n, sat[n]));
                }
            }
            lemma_requests_agree(pkgs, sat, Map::empty(), packages@, fuel);
        }
        r
    }

    /// Resolve the full install closure for the requested packages, skipping
    /// dependencies for which `dep_satisfied` answers `true`. Returns packages in
    /// topological order (dependencies before dependents), or an error naming
    /// every requested package the index does not have.
    pub fn resolve_with_satisfied<F>(&self, packages: &[String], dep_satisfied: F) -> (r: Result<
        Vec<&'a PackageMetadata>,
        OilError,
    >) where F: Fn(&str) -> bool
        requires
            accepts_all(dep_satisfied),
        ensures
            exists|sat: Map<Seq<char>, bool>|
                answers_valid(dep_satisfied, sat) && sat.dom() == asked_names(
                    self.index().packages@,
                    packages@,
                    sat,
                ) && match r {
                    Ok(v) => resolve_spec(self.index().packages@, packages@, sat) == Ok::<
                        Seq<PackageMetadata>,
                        Seq<String>,
                    >(deref_all(v@)),
                    Err(e) => exists|missing: Seq<String>|
                        resolve_spec(self.index().packages@, packages@, sat) == Err::<
                            Seq<PackageMetadata>,
                            Seq<String>,
                        >(missing) && e == OilError::InstallError(e->InstallError_0) && e.text()
                            == missing_message(missing),
                },
    {
        let ghost pkgs = self.index.packages@;
        let ghost fuel = resolve_fuel(pkgs, packages@);
        let ghost u = universe(pkgs, packages@);
        let mut w = Walk {
            visited: Vec::new(),
            pushed: Vec::new(),
            result: Vec::new(),
            answers: Ghost(Map::empty()),
        };
        let mut missing_requested: Vec<String> = Vec::new();
        proof {
            lemma_universe_all(pkgs, packages@);
            assert(names_set(w.visited@) =~= Set::<Seq<char>>::empty());
            assert(names_set(w.pushed@) =~= Set::<Seq<char>>::empty());
            assert(deref_all(w.result@) =~= Seq::<PackageMetadata>::empty());
            assert(w.answers@.dom() =~= Set::<Seq<char>>::empty());
            assert(packages@.take(0) =~= Seq::<String>::empty());
        }
        let mut i: usize = 0;
        while i < packages.len()
            invariant
                i <= packages@.len(),
                pkgs == self.index.packages@,
                fuel == resolve_fuel(pkgs, packages@),
                u == universe(pkgs, packages@),
                forall|i: int| 0 <= i < pkgs.len() ==> u.contains(#[trigger] pkgs[i].name@),
                forall|i: int, k: int|
                    0 <= i < pkgs.len() && 0 <= k < pkgs[i].depends@.len() ==> u.contains(
                        #[trigger] dep_name(pkgs[i].depends@[k]@),
                    ),
                accepts_all(dep_satisfied),
                w.wf(),
                answers_valid(dep_satisfied, w.answers@),
                (w.state(), missing_requested@) == requests_spec(
                    pkgs,
                    w.answers@,
                    packages@.take(i as int),
                    fuel,
                ),
            decreases packages@.len() - i,
        {
            let name = parse_dep_name(packages[i].as_str());
            let ghost st0 = w.state();
            let ghost a0 = w.answers@;
            proof {
                lemma_unvisited_bound(u, st0.visited);
                let rs = packages@.map_values(|r: String| dep_name(r@));
                assert(u[i as int] == rs[i as int]);
                assert(u.contains(name@));
            }
            let found = self.visit(&name, true, &dep_satisfied, &mut w, Ghost(u), Ghost(fuel));
            proof {
                let a1 = w.answers@;
                let prev = requests_spec(pkgs, a0, packages@.take(i as int), fuel);
                assert(packages@.take(i + 1).drop_last() == packages@.take(i as int));
                assert(packages@.take(i + 1).last() == packages@[i as int]);
                // the earlier requests read the same answers under the extended map
                assert forall|n: Seq<char>| prev.0.visited.contains(n) implies answer(a0, n)
                    == answer(a1, n) by {
                    if a1.contains_key(n) && !a0.contains_key(n) {
                        assert(!st0.visited.contains(n));
                    }
                }
                lemma_requests_agree(pkgs, a0, a1, packages@.take(i as int), fuel);
                lemma_visit_requested(pkgs, a1, name@, st0, fuel);
            }
            if found.is_none() {
                missing_requested.push(packages[i].clone());
            }
            i = i + 1;
        }
        proof {
            assert(packages@.take(packages@.len() as int) == packages@);
        }
        if missing_requested.len() > 0 {
            let mut msg = owned("package");
            if missing_requested.len() == 1 {
                push_str(&mut msg, "");
            } else {
                push_str(&mut msg, "s");
            }
            push_str(&mut msg, " not found in system registry: ");
            let joined = join_strings(&missing_requested, ", ");
            push_str(&mut msg, joined.as_str());
            let e = OilError::InstallError(msg);
            proof {
                assert(resolve_spec(pkgs, packages@, w.answers@) == Err::<
                    Seq<PackageMetadata>,
                    Seq<String>,
                >(missing_requested@));
                assert(e.text() == missing_message(missing_requested@));
            }
            return Err(e);
        }
        Ok(w.result)
    }

    fn visit<F>(
        &self,
        name: &String,
        requested: bool,
        dep_satisfied: &F,
        w: &mut Walk<'a>,
        Ghost(u): Ghost<Seq<Seq<char>>>,
        Ghost(fuel): Ghost<nat>,
    ) -> (r: Option<&'a PackageMetadata>) where F: Fn(&str) -> bool
        requires
            accepts_all(*dep_satisfied),
            old(w).wf(),
            answers_valid(*dep_satisfied, old(w).answers@),
            u.contains(name@),
            forall|i: int|
                0 <= i < self.index.packages@.len() ==> u.contains(
                    #[trigger] self.index.packages@[i].name@,
                ),
            forall|i: int, k: int|
                0 <= i < self.index.packages@.len() && 0 <= k
                    < self.index.packages@[i].depends@.len() ==> u.contains(
                    #[trigger] dep_name(self.index.packages@[i].depends@[k]@),
                ),
            fuel > unvisited(u, old(w).state().visited),
        ensures
            final(w).wf(),
            answers_valid(*dep_satisfied, final(w).answers@),
            answers_extend(old(w).answers@, final(w).answers@, old(w).state().visited),
            old(w).state().visited.subset_of(final(w).state().visited),
            (final(w).state(), match r {
                Some(p) => Some(*p),
                None => None::<PackageMetadata>,
            }) == visit_spec(
                self.index.packages@,
                final(w).answers@,
                name@,
                requested,
                old(w).state(),
                fuel,
            ),
        decreases fuel,
    {
        let ghost pkgs = self.index.packages@;
        let ghost st = w.state();
        proof {
            lemma_find_pos(pkgs, name@);
        }
        if names_contain(&w.visited, name) {
            return self.index.find(name.as_str());
        }
        proof {
            lemma_names_push(w.visited@, *name);
        }
        w.visited.push(name.clone());
        assert(w.state() == ResolveState { visited: st.visited.insert(name@), ..st });
        if !requested {
            let s = dep_satisfied(name.as_str());
            proof {
                let a0 = w.answers@;
                w.answers@ = a0.insert(name@, s);
                assert(answered(*dep_satisfied, name@, s));
                assert forall|n: Seq<char>| #[trigger]
                    w.answers@.contains_key(n) implies answered(
                    *dep_satisfied,
                    n,
                    w.answers@[n],
                ) by {
                    if n != name@ {
                        assert(a0.contains_key(n));
                    }
                }
                assert(a0.submap_of(w.answers@));
                assert(w.answers@.dom() =~= st.asked.insert(name@));
                assert(w.state() == enter(st, name@, requested));
            }
            if s {
                return None;
            }
        }
        let ghost a1 = w.answers@;
        let ghost st1 = w.state();
        assert(st1 == enter(st, name@, requested));
        let meta = match self.index.find(name.as_str()) {
            Some(m) => m,
            None => {
                return None;
            },
        };
        let ghost mi = crate::registry::find_pos(pkgs, name@);
        proof {
            lemma_universe_pkg_in(pkgs, u, mi);
            lemma_unvisited_strict(u, st.visited, name@);
        }
        if !names_contain(&w.visited, &meta.name) {
            proof {
                lemma_names_push(w.visited@, meta.name);
            }
            w.visited.push(meta.name.clone());
        } else {
            assert(st1.visited.insert(meta.name@) =~= st1.visited);
        }
        let ghost st2 = w.state();
        assert(st2 == ResolveState { visited: st1.visited.insert(meta.name@), ..st1 });
        proof {
            lemma_unvisited_mono(u, st.visited.insert(name@), st2.visited);
            assert(meta.depends@.take(0) =~= Seq::<String>::empty());
        }
        let deps = &meta.depends;
        let mut k: usize = 0;
        while k < deps.len()
            invariant
                k <= deps@.len(),
                deps == &meta.depends,
                pkgs == self.index.packages@,
                spec_find(pkgs, name@) == Some(*meta),
                mi == crate::registry::find_pos(pkgs, name@),
                0 <= mi < pkgs.len(),
                pkgs[mi] == *meta,
                accepts_all(*dep_satisfied),
                w.wf(),
                answers_valid(*dep_satisfied, w.answers@),
                answers_extend(a1, w.answers@, st2.visited),
                st2.visited.subset_of(w.state().visited),
                fuel > 0,
                fuel - 1 > unvisited(u, st2.visited),
                forall|i: int|
                    0 <= i < self.index.packages@.len() ==> u.contains(
                        #[trigger] self.index.packages@[i].name@,
                    ),
                forall|i: int, k: int|
                    0 <= i < self.index.packages@.len() && 0 <= k
                        < self.index.packages@[i].depends@.len() ==> u.contains(
                        #[trigger] dep_name(self.index.packages@[i].depends@[k]@),
                    ),
                w.state() == deps_spec(
                    pkgs,
                    w.answers@,
                    deps@.take(k as int),
                    st2,
                    (fuel - 1) as nat,
                ),
            decreases deps@.len() - k,
        {
            let dep_name_k = parse_dep_name(deps[k].as_str());
            let ghost cur = w.state();
            let ghost ak = w.answers@;
            proof {
                assert(deps@.take(k + 1).drop_last() == deps@.take(k as int));
                assert(deps@.take(k + 1).last() == deps@[k as int]);
            }
            if !dep_name_k.as_str().is_empty() {
                proof {
                    assert(u.contains(dep_name(pkgs[mi].depends@[k as int]@)));
                    lemma_unvisited_mono(u, st2.visited, cur.visited);
                }
                let _ = self.visit(
                    &dep_name_k,
                    false,
                    dep_satisfied,
                    w,
                    Ghost(u),
                    Ghost((fuel - 1) as nat),
                );
                proof {
                    let an = w.answers@;
                    assert forall|n: Seq<char>| cur.visited.contains(n) implies answer(ak, n)
                        == answer(an, n) by {
                        if an.contains_key(n) && !ak.contains_key(n) {
                            assert(!cur.visited.contains(n));
                        }
                    }
                    lemma_deps_agree(pkgs, ak, an, deps@.take(k as int), st2, (fuel - 1) as nat);
                    lemma_extend_trans(a1, ak, an, st2.visited, cur.visited);
                }
            } else {
                proof {
                    assert(dep_name_k@.len() == 0);
                }
            }
            k = k + 1;
        }
        proof {
            assert(deps@.take(deps@.len() as int) == deps@);
        }
        let ghost st3 = w.state();
        assert(answers_extend(a1, w.answers@, st2.visited));
        if !names_contain(&w.pushed, &meta.name) {
            proof {
                lemma_names_push(w.pushed@, meta.name);
            }
            w.pushed.push(meta.name.clone());
            w.result.push(meta);
            proof {
                assert(deref_all(w.result@) =~= st3.out.push(*meta));
            }
        }
        proof {
            // the answers recorded by this visit agree with those it started with
            let af = w.answers@;
            assert(answers_extend(a1, af, st2.visited));
            assert(answers_extend(old(w).answers@, a1, st.visited));
            lemma_extend_trans(old(w).answers@, a1, af, st.visited, st2.visited);
            assert forall|n: Seq<char>| st1.visited.contains(n) implies answer(a1, n) == answer(
                af,
                n,
            ) by {
                if af.contains_key(n) && !a1.contains_key(n) {
                    assert(!st2.visited.contains(n));
                }
                if a1.contains_key(n) {
                    lemma_submap_lookup(a1, af, n);
                }
            }
            assert(answer(a1, name@) == answer(af, name@));
        }
        Some(meta)
    }
}

proof fn lemma_universe_all(pkgs: Seq<PackageMetadata>, reqs: Seq<String>)
    ensures
        forall|i: int| 0 <= i < pkgs.len() ==> universe(pkgs, reqs).contains(#[trigger] pkgs[i].name@),
        forall|i: int, k: int|
            0 <= i < pkgs.len() && 0 <= k < pkgs[i].depends@.len() ==> universe(pkgs, reqs).contains(
                #[trigger] dep_name(pkgs[i].depends@[k]@),
            ),
{
    assert forall|i: int| 0 <= i < pkgs.len() implies universe(pkgs, reqs).contains(
        #[trigger] pkgs[i].name@,
    ) by {
        lemma_universe_pkg(pkgs, reqs, i);
    }
    assert forall|i: int, k: int|
        0 <= i < pkgs.len() && 0 <= k < pkgs[i].depends@.len() implies universe(pkgs, reqs).contains(
        #[trigger] dep_name(pkgs[i].depends@[k]@),
    ) by {
        lemma_universe_pkg(pkgs, reqs, i);
    }
}

proof fn lemma_extend_trans(
    a1: Map<Seq<char>, bool>,
    a2: Map<Seq<char>, bool>,
    a3: Map<Seq<char>, bool>,
    v1: Set<Seq<char>>,
    v2: Set<Seq<char>>,
)
    requires
        answers_extend(a1, a2, v1),
        answers_extend(a2, a3, v2),
        v1.subset_of(v2),
    ensures
        answers_extend(a1, a3, v1),
{
    assert forall|n: Seq<char>| #[trigger] a3.contains_key(n) && !a1.contains_key(n) implies !v1.contains(n) by {
        if a2.contains_key(n) {
        } else {
            assert(!v2.contains(n));
        }
    }
    assert forall|n: Seq<char>| #[trigger] a1.contains_key(n) implies a3.contains_key(n) && a3[n] == a1[n] by {
        assert(a2.contains_key(n));
    }
}

proof fn lemma_submap_lookup(a: Map<Seq<char>, bool>, b: Map<Seq<char>, bool>, n: Seq<char>)
    requires
        a.submap_of(b),
        a.contains_key(n),
    ensures
        b.contains_key(n) && b[n] == a[n],
{
    assert(a.dom().contains(n));
}

proof fn lemma_universe_pkg_in(pkgs: Seq<PackageMetadata>, u: Seq<Seq<char>>, i: int)
    requires
        0 <= i < pkgs.len(),
        forall|j: int| 0 <= j < pkgs.len() ==> u.contains(#[trigger] pkgs[j].name@),
    ensures
        u.contains(pkgs[i].name@),
{
}

/// `items` joined with `sep`.
pub fn join_strings(items: &Vec<String>, sep: &str) -> (r: String)
    ensures
        r@ == join_spec(items@, sep@),
{
    let mut r = String::new();
    let mut i: usize = 0;
    while i < items.len()
        invariant
            i <= items@.len(),
            r@ == join_spec(items@.take(i as int), sep@),
        decreases items@.len() - i,
    {
        proof {
            assert(items@.take(i + 1).drop_last() == items@.take(i as int));
        }
        if i > 0 {
            push_str(&mut r, sep);
        }
        push_str(&mut r, items[i].as_str());
        proof {
            if i == 0 {
                assert(r@ == items@[0]@);
            }
        }
        i = i + 1;
    }
    proof {
        assert(items@.take(items@.len() as int) == items@);
    }
    r
}

} // verus!

verus! {

// ---------------------------------------------------------------------------
// Laws of resolution
// ---------------------------------------------------------------------------
/// Emitted packages carry distinct names, come from the index, and the emitted
/// names are exactly the `pushed` set.
pub open spec fn out_wf(pkgs: Seq<PackageMetadata>, st: ResolveState) -> bool {
    &&& forall|i: int, j: int|
        0 <= i < j < st.out.len() ==> #[trigger] st.out[i].name@ != #[trigger] st.out[j].name@
    &&& forall|n: Seq<char>|
        st.pushed.contains(n) <==> exists|i: int| 0 <= i < st.out.len() && #[trigger] st.out[i].name@ == n
    &&& forall|k: int| 0 <= k < st.out.len() ==> pkgs.contains(#[trigger] st.out[k])
}

/// `n` is settled in `st`: it resolves to nothing, or a package of the name it
/// resolves to has been emitted.
pub open spec fn settled(pkgs: Seq<PackageMetadata>, st: ResolveState, n: Seq<char>) -> bool {
    match spec_find(pkgs, n) {
        None => true,
        Some(q) => st.pushed.contains(q.name@),
    }
}

proof fn lemma_find_in(pkgs: Seq<PackageMetadata>, n: Seq<char>)
    ensures
        spec_find(pkgs, n) matches Some(q) ==> pkgs.contains(q),
{
    lemma_find_pos(pkgs, n);
    if let Some(q) = spec_find(pkgs, n) {
        assert(pkgs[crate::registry::find_pos(pkgs, n)] == q);
    }
}

proof fn lemma_find_own_name(pkgs: Seq<PackageMetadata>, p: PackageMetadata)
    requires
        pkgs.contains(p),
    ensures
        spec_find(pkgs, p.name@) matches Some(q) && q.name@ == p.name@,
{
    let i = choose|i: int| 0 <= i < pkgs.len() && pkgs[i] == p;
    lemma_name_pos_found(pkgs, p.name@, 0, i);
    crate::registry::lemma_name_pos(pkgs, p.name@, 0);
}

proof fn lemma_name_pos_found(pkgs: Seq<PackageMetadata>, n: Seq<char>, j: int, i: int)
    requires
        0 <= j <= i < pkgs.len(),
        pkgs[i].name@ == n,
    ensures
        crate::registry::name_pos(pkgs, n, j) <= i,
    decreases i - j,
{
    if pkgs[j].name@ != n {
        lemma_name_pos_found(pkgs, n, j + 1, i);
    }
}

proof fn lemma_visit_facts(
    pkgs: Seq<PackageMetadata>,
    sat: Map<Seq<char>, bool>,
    name: Seq<char>,
    requested: bool,
    st: ResolveState,
    fuel: nat,
)
    ensures
        ({
            let st2 = visit_spec(pkgs, sat, name, requested, st, fuel).0;
            &&& st.pushed.subset_of(st2.pushed)
            &&& out_wf(pkgs, st) ==> out_wf(pkgs, st2)
            &&& forall|n: Seq<char>|
                st2.visited.contains(n) && !st.visited.contains(n) && !answer(sat, n) ==> settled(
                    pkgs,
                    st2,
                    n,
                )
            &&& (requested && fuel > 0 && !st.visited.contains(name)) ==> settled(pkgs, st2, name)
            &&& fuel > 0 ==> st2.visited.contains(name)
        }),
    decreases fuel, 0int, 0int,
{
    lemma_visit_mono(pkgs, sat, name, requested, st, fuel);
    if fuel > 0 && !st.visited.contains(name) {
        let st1 = enter(st, name, requested);
        if !(!requested && answer(sat, name)) {
            if let Some(meta) = spec_find(pkgs, name) {
                let st2 = ResolveState { visited: st1.visited.insert(meta.name@), ..st1 };
                let st3 = deps_spec(pkgs, sat, meta.depends@, st2, (fuel - 1) as nat);
                lemma_deps_mono(pkgs, sat, meta.depends@, st2, (fuel - 1) as nat);
                lemma_deps_facts(pkgs, sat, meta.depends@, st2, (fuel - 1) as nat);
                lemma_find_in(pkgs, name);
                lemma_find_own_name(pkgs, meta);
                let st4 = visit_spec(pkgs, sat, name, requested, st, fuel).0;
                assert(st4.pushed.contains(meta.name@));
                if out_wf(pkgs, st) {
                    assert(out_wf(pkgs, st2));
                    if !st3.pushed.contains(meta.name@) {
                        assert forall|n: Seq<char>| st4.pushed.contains(n) <==> exists|i: int|
                            0 <= i < st4.out.len() && #[trigger] st4.out[i].name@ == n by {
                            if n == meta.name@ {
                                assert(st4.out[st3.out.len() as int].name@ == n);
                            } else if st4.pushed.contains(n) {
                                let i = choose|i: int| 0 <= i < st3.out.len() && #[trigger] st3.out[i].name@ == n;
                                assert(st4.out[i].name@ == n);
                            } else if exists|i: int| 0 <= i < st4.out.len() && #[trigger] st4.out[i].name@ == n {
                                let i = choose|i: int| 0 <= i < st4.out.len() && #[trigger] st4.out[i].name@ == n;
                                assert(st3.out[i].name@ == n);
                            }
                        }
                        assert forall|i: int, j: int|
                            0 <= i < j < st4.out.len() implies #[trigger] st4.out[i].name@ != #[trigger] st4.out[j].name@ by {
                            if j == st3.out.len() {
                                assert(st3.out[i].name@ == st4.out[i].name@);
                            } else {
                                assert(st3.out[i].name@ != st3.out[j].name@);
                            }
                        }
                        assert forall|k: int| 0 <= k < st4.out.len() implies pkgs.contains(#[trigger] st4.out[k]) by {
                            if k < st3.out.len() {
                                assert(pkgs.contains(st3.out[k]));
                            }
                        }
                    }
                }
                assert forall|n: Seq<char>|
                    st4.visited.contains(n) && !st.visited.contains(n) && !answer(sat, n) implies settled(
                    pkgs,
                    st4,
                    n,
                ) by {
                    if n == name {
                    } else if n == meta.name@ {
                    } else {
                        assert(!st2.visited.contains(n));
                        assert(settled(pkgs, st3, n));
                    }
                }
            }
        }
    }
}

proof fn lemma_deps_facts(
    pkgs: Seq<PackageMetadata>,
    sat: Map<Seq<char>, bool>,
    deps: Seq<String>,
    st: ResolveState,
    fuel: nat,
)
    ensures
        ({
            let st2 = deps_spec(pkgs, sat, deps, st, fuel);
            &&& st.pushed.subset_of(st2.pushed)
            &&& out_wf(pkgs, st) ==> out_wf(pkgs, st2)
            &&& forall|n: Seq<char>|
                st2.visited.contains(n) && !st.visited.contains(n) && !answer(sat, n) ==> settled(
                    pkgs,
                    st2,
                    n,
                )
        }),
    decreases fuel, 1int, deps.len(),
{
    if deps.len() > 0 {
        lemma_deps_facts(pkgs, sat, deps.drop_last(), st, fuel);
        let prev = deps_spec(pkgs, sat, deps.drop_last(), st, fuel);
        let d = dep_name(deps.last()@);
        if d.len() > 0 {
            lemma_visit_facts(pkgs, sat, d, false, prev, fuel);
            lemma_visit_mono(pkgs, sat, d, false, prev, fuel);
            let st2 = deps_spec(pkgs, sat, deps, st, fuel);
            assert forall|n: Seq<char>|
                st2.visited.contains(n) && !st.visited.contains(n) && !answer(sat, n) implies settled(
                pkgs,
                st2,
                n,
            ) by {
                if prev.visited.contains(n) {
                    assert(settled(pkgs, prev, n));
                }
            }
        }
    }
}

proof fn lemma_requests_facts(
    pkgs: Seq<PackageMetadata>,
    sat: Map<Seq<char>, bool>,
    reqs: Seq<String>,
    fuel: nat,
)
    requires
        fuel > 0,
    ensures
        ({
            let r = requests_spec(pkgs, sat, reqs, fuel);
            &&& out_wf(pkgs, r.0)
            &&& forall|n: Seq<char>| r.0.visited.contains(n) && !answer(sat, n) ==> settled(pkgs, r.0, n)
            &&& forall|k: int|
                0 <= k < reqs.len() ==> settled(pkgs, r.0, #[trigger] dep_name(reqs[k]@))
                    || r.0.visited.contains(dep_name(reqs[k]@)) && answer(sat, dep_name(reqs[k]@))
            &&& forall|k: int| 0 <= k < reqs.len() ==> r.0.visited.contains(#[trigger] dep_name(reqs[k]@))
                || spec_find(pkgs, dep_name(reqs[k]@)) is None
            &&& r.1 == reqs.filter(resolves_nothing(pkgs))
        }),
    decreases reqs.len(),
{
    if reqs.len() == 0 {
        let e = empty_state();
        assert(out_wf(pkgs, e));
        reveal(Seq::filter);
        assert(reqs.filter(resolves_nothing(pkgs)) =~= Seq::<String>::empty());
    } else {
        lemma_requests_facts(pkgs, sat, reqs.drop_last(), fuel);
        let prev = requests_spec(pkgs, sat, reqs.drop_last(), fuel);
        let name = dep_name(reqs.last()@);
        lemma_visit_facts(pkgs, sat, name, true, prev.0, fuel);
        lemma_visit_mono(pkgs, sat, name, true, prev.0, fuel);
        lemma_visit_requested(pkgs, sat, name, prev.0, fuel);
        let r = requests_spec(pkgs, sat, reqs, fuel);
        assert forall|n: Seq<char>| r.0.visited.contains(n) && !answer(sat, n) implies settled(pkgs, r.0, n) by {
            if prev.0.visited.contains(n) {
                assert(settled(pkgs, prev.0, n));
            }
        }
        assert forall|k: int| 0 <= k < reqs.len() implies settled(pkgs, r.0, #[trigger] dep_name(reqs[k]@))
            || r.0.visited.contains(dep_name(reqs[k]@)) && answer(sat, dep_name(reqs[k]@)) by {
            if k < reqs.len() - 1 {
                assert(reqs.drop_last()[k] == reqs[k]);
                if settled(pkgs, prev.0, dep_name(reqs[k]@)) {
                }
            } else if prev.0.visited.contains(name) {
                if !answer(sat, name) {
                    assert(settled(pkgs, prev.0, name));
                }
            }
        }
        assert forall|k: int| 0 <= k < reqs.len() implies r.0.visited.contains(#[trigger] dep_name(reqs[k]@))
            || spec_find(pkgs, dep_name(reqs[k]@)) is None by {
            if k < reqs.len() - 1 {
                assert(reqs.drop_last()[k] == reqs[k]);
            }
        }
        reveal(Seq::filter);
    }
}

/// Does a requested entry name no package of `pkgs`?
pub open spec fn resolves_nothing(pkgs: Seq<PackageMetadata>) -> spec_fn(String) -> bool {
    |x: String| spec_find(pkgs, dep_name(x@)) is None
}

/// A resolution emits each package name at most once, and only packages of the index.
pub proof fn law_resolve_emits_index_packages_once(
    pkgs: Seq<PackageMetadata>,
    reqs: Seq<String>,
    sat: Map<Seq<char>, bool>,
)
    ensures
        resolve_spec(pkgs, reqs, sat) matches Ok(out) ==> {
            &&& forall|i: int, j: int|
                0 <= i < j < out.len() ==> #[trigger] out[i].name@ != #[trigger] out[j].name@
            &&& forall|k: int| 0 <= k < out.len() ==> pkgs.contains(#[trigger] out[k])
        },
{
    lemma_requests_facts(pkgs, sat, reqs, resolve_fuel(pkgs, reqs));
}

/// A resolution fails exactly when some requested entry names no package of the
/// index (by name or by what packages provide), and the failure lists those
/// entries in the order requested.
pub proof fn law_resolve_fails_on_missing(
    pkgs: Seq<PackageMetadata>,
    reqs: Seq<String>,
    sat: Map<Seq<char>, bool>,
)
    ensures
        resolve_spec(pkgs, reqs, sat) is Err <==> exists|k: int|
            0 <= k < reqs.len() && spec_find(pkgs, #[trigger] dep_name(reqs[k]@)) is None,
        resolve_spec(pkgs, reqs, sat) matches Err(missing) ==> missing == reqs.filter(
            |x: String| spec_find(pkgs, dep_name(x@)) is None,
        ),
{
    lemma_requests_facts(pkgs, sat, reqs, resolve_fuel(pkgs, reqs));
    let p = resolves_nothing(pkgs);
    let missing = reqs.filter(p);
    if exists|k: int| 0 <= k < reqs.len() && spec_find(pkgs, #[trigger] dep_name(reqs[k]@)) is None {
        let k = choose|k: int| 0 <= k < reqs.len() && spec_find(pkgs, #[trigger] dep_name(reqs[k]@)) is None;
        reqs.lemma_filter_contains(p, k);
        assert(missing.len() > 0);
    }
    if missing.len() > 0 {
        reqs.lemma_filter_pred(p, 0);
        assert(missing.contains(missing[0]));
        reqs.lemma_filter_contains_rev(p, missing[0]);
        let k = choose|k: int| 0 <= k < reqs.len() && reqs[k] == missing[0];
        assert(spec_find(pkgs, dep_name(reqs[k]@)) is None);
    }
}

/// When no dependency is treated as already satisfied by the host, every
/// requested entry that names a package of the index has a package of that
/// name among the emitted packages.
pub proof fn law_resolve_emits_requested(pkgs: Seq<PackageMetadata>, reqs: Seq<String>, k: int)
    requires
        0 <= k < reqs.len(),
        spec_find(pkgs, dep_name(reqs[k]@)) is Some,
    ensures
        resolve_spec(pkgs, reqs, Map::empty()) matches Ok(out) ==> exists|i: int|
            0 <= i < out.len() && out[i].name@ == spec_find(pkgs, dep_name(reqs[k]@))->0.name@,
{
    let sat = Map::<Seq<char>, bool>::empty();
    lemma_requests_facts(pkgs, sat, reqs, resolve_fuel(pkgs, reqs));
    let r = requests_spec(pkgs, sat, reqs, resolve_fuel(pkgs, reqs));
    let n = dep_name(reqs[k]@);
    assert(!answer(sat, n));
    assert(settled(pkgs, r.0, n));
    let q = spec_find(pkgs, n)->0;
    assert(r.0.pushed.contains(q.name@));
    assert(exists|i: int| 0 <= i < r.0.out.len() && #[trigger] r.0.out[i].name@ == q.name@);
    if let Ok(out) = resolve_spec(pkgs, reqs, sat) {
        assert(out == r.0.out);
        let i = choose|i: int| 0 <= i < r.0.out.len() && #[trigger] r.0.out[i].name@ == q.name@;
        assert(out[i].name@ == spec_find(pkgs, dep_name(reqs[k]@))->0.name@);
    }
}

// ---------------------------------------------------------------------------
// Dependencies come first
// ---------------------------------------------------------------------------
/// The dependency `dn` resolves to a package of lower rank than `m`.
pub open spec fn ranked_below(
    pkgs: Seq<PackageMetadata>,
    rank: spec_fn(Seq<char>) -> nat,
    m: PackageMetadata,
    dn: Seq<char>,
) -> bool {
    spec_find(pkgs, dn) matches Some(q) ==> rank(q.name@) < rank(m.name@)
}

/// The walk goes from the name `a` on to the name `b`: `b` names a
/// dependency, not already satisfied by the host, of the package `a`
/// resolves to.
pub open spec fn dep_step(
    pkgs: Seq<PackageMetadata>,
    sat: Map<Seq<char>, bool>,
    a: Seq<char>,
    b: Seq<char>,
) -> bool {
    &&& spec_find(pkgs, a) is Some
    &&& b.len() > 0
    &&& !answer(sat, b)
    &&& exists|k: int|
        0 <= k < spec_find(pkgs, a)->0.depends@.len() && #[trigger] dep_name(
            spec_find(pkgs, a)->0.depends@[k]@,
        ) == b
}

/// `path` starts at a requested name and goes on by dependency steps.
pub open spec fn dep_path(
    pkgs: Seq<PackageMetadata>,
    reqs: Seq<String>,
    sat: Map<Seq<char>, bool>,
    path: Seq<Seq<char>>,
) -> bool {
    &&& path.len() > 0
    &&& exists|j: int| 0 <= j < reqs.len() && #[trigger] dep_name(reqs[j]@) == path[0]
    &&& forall|i: int| 0 <= i < path.len() - 1 ==> #[trigger] dep_step(pkgs, sat, path[i], path[i + 1])
}

/// Resolving `reqs` can reach the name `n`: a requested name, or a dependency
/// (not satisfied by the host) of a package reached before.
pub open spec fn reached(
    pkgs: Seq<PackageMetadata>,
    reqs: Seq<String>,
    sat: Map<Seq<char>, bool>,
    n: Seq<char>,
) -> bool {
    exists|path: Seq<Seq<char>>| #[trigger] dep_path(pkgs, reqs, sat, path) && path.last() == n
}

/// The `k`th dependency of `p`, when the walk follows it, resolves to a
/// package ranked below `p`.
pub open spec fn dep_ranked(
    pkgs: Seq<PackageMetadata>,
    sat: Map<Seq<char>, bool>,
    rank: spec_fn(Seq<char>) -> nat,
    p: PackageMetadata,
    k: int,
) -> bool {
    let dn = dep_name(p.depends@[k]@);
    (dn.len() > 0 && !answer(sat, dn)) ==> ranked_below(pkgs, rank, p, dn)
}

/// The packages that resolving `reqs` reaches have no dependency cycle among
/// them: some ranking of package names puts each reached package above the
/// packages its followed dependencies resolve to. Dependencies the host
/// already satisfies, and packages never reached, may form cycles.
pub open spec fn acyclic_from(
    pkgs: Seq<PackageMetadata>,
    reqs: Seq<String>,
    sat: Map<Seq<char>, bool>,
    rank: spec_fn(Seq<char>) -> nat,
) -> bool {
    forall|n: Seq<char>, k: int|
        reached(pkgs, reqs, sat, n) && spec_find(pkgs, n) is Some && 0 <= k < spec_find(
            pkgs,
            n,
        )->0.depends@.len() ==> #[trigger] dep_ranked(pkgs, sat, rank, spec_find(pkgs, n)->0, k)
}

proof fn lemma_reached_request(pkgs: Seq<PackageMetadata>, reqs: Seq<String>, sat: Map<Seq<char>, bool>, j: int)
    requires
        0 <= j < reqs.len(),
    ensures
        reached(pkgs, reqs, sat, dep_name(reqs[j]@)),
{
    let path = seq![dep_name(reqs[j]@)];
    assert(dep_path(pkgs, reqs, sat, path));
}

proof fn lemma_reached_step(
    pkgs: Seq<PackageMetadata>,
    reqs: Seq<String>,
    sat: Map<Seq<char>, bool>,
    a: Seq<char>,
    b: Seq<char>,
)
    requires
        reached(pkgs, reqs, sat, a),
        dep_step(pkgs, sat, a, b),
    ensures
        reached(pkgs, reqs, sat, b),
{
    let path = choose|path: Seq<Seq<char>>| #[trigger] dep_path(pkgs, reqs, sat, path) && path.last() == a;
    let p2 = path.push(b);
    assert forall|i: int| 0 <= i < p2.len() - 1 implies #[trigger] dep_step(pkgs, sat, p2[i], p2[i + 1]) by {
        if i < path.len() - 1 {
            assert(dep_step(pkgs, sat, path[i], path[i + 1]));
        }
    }
    let j = choose|j: int| 0 <= j < reqs.len() && #[trigger] dep_name(reqs[j]@) == path[0];
    assert(dep_name(reqs[j]@) == p2[0]);
    assert(dep_path(pkgs, reqs, sat, p2));
}

/// Position `i` of `out` comes after a package of the name that its
/// dependency `dn` resolves to, unless `dn` names nothing, the host already
/// satisfies it, or the index lacks it.
pub open spec fn emitted_before(
    pkgs: Seq<PackageMetadata>,
    sat: Map<Seq<char>, bool>,
    out: Seq<PackageMetadata>,
    i: int,
    dn: Seq<char>,
) -> bool {
    (dn.len() > 0 && !answer(sat, dn) && spec_find(pkgs, dn) is Some) ==> exists|j: int|
        0 <= j < i && #[trigger] out[j].name@ == spec_find(pkgs, dn)->0.name@
}

/// Every emitted package comes after the packages its dependencies resolve to.
pub open spec fn deps_first(pkgs: Seq<PackageMetadata>, sat: Map<Seq<char>, bool>, out: Seq<PackageMetadata>) -> bool {
    forall|i: int, k: int|
        0 <= i < out.len() && 0 <= k < out[i].depends@.len() ==> #[trigger] emitted_before(
            pkgs,
            sat,
            out,
            i,
            dep_name(out[i].depends@[k]@),
        )
}

/// Names looked at but not yet settled (their walk is under way) resolve to
/// packages ranked at least `r`.
spec fn pending_above(
    pkgs: Seq<PackageMetadata>,
    sat: Map<Seq<char>, bool>,
    rank: spec_fn(Seq<char>) -> nat,
    st: ResolveState,
    r: int,
) -> bool {
    forall|n: Seq<char>|
        #[trigger] st.visited.contains(n) && !answer(sat, n) && !settled(pkgs, st, n) ==> (spec_find(
            pkgs,
            n,
        ) matches Some(q) && rank(q.name@) >= r)
}

/// `u` holds every package name and every dependency name of the index.
spec fn covers(pkgs: Seq<PackageMetadata>, u: Seq<Seq<char>>) -> bool {
    &&& forall|i: int| 0 <= i < pkgs.len() ==> u.contains(#[trigger] pkgs[i].name@)
    &&& forall|i: int, k: int|
        0 <= i < pkgs.len() && 0 <= k < pkgs[i].depends@.len() ==> u.contains(
            #[trigger] dep_name(pkgs[i].depends@[k]@),
        )
}

proof fn lemma_settled_mono(pkgs: Seq<PackageMetadata>, a: ResolveState, b: ResolveState, n: Seq<char>)
    requires
        a.pushed.subset_of(b.pushed),
        settled(pkgs, a, n),
    ensures
        settled(pkgs, b, n),
{
}

proof fn lemma_deps_first_prefix(
    pkgs: Seq<PackageMetadata>,
    sat: Map<Seq<char>, bool>,
    out: Seq<PackageMetadata>,
    m: PackageMetadata,
)
    requires
        deps_first(pkgs, sat, out),
        forall|k: int| 0 <= k < m.depends@.len() ==> #[trigger] emitted_before(
            pkgs,
            sat,
            out.push(m),
            out.len() as int,
            dep_name(m.depends@[k]@),
        ),
    ensures
        deps_first(pkgs, sat, out.push(m)),
{
    let o2 = out.push(m);
    assert forall|i: int, k: int| 0 <= i < o2.len() && 0 <= k < o2[i].depends@.len() implies #[trigger] emitted_before(
        pkgs,
        sat,
        o2,
        i,
        dep_name(o2[i].depends@[k]@),
    ) by {
        if i < out.len() {
            let dn = dep_name(out[i].depends@[k]@);
            assert(emitted_before(pkgs, sat, out, i, dn));
            if dn.len() > 0 && !answer(sat, dn) && spec_find(pkgs, dn) is Some {
                let j = choose|j: int| 0 <= j < i && #[trigger] out[j].name@ == spec_find(pkgs, dn)->0.name@;
                assert(o2[j] == out[j]);
            }
        }
    }
}

proof fn lemma_visit_order(
    pkgs: Seq<PackageMetadata>,
    sat: Map<Seq<char>, bool>,
    rank: spec_fn(Seq<char>) -> nat,
    all: Seq<String>,
    u: Seq<Seq<char>>,
    name: Seq<char>,
    requested: bool,
    st: ResolveState,
    fuel: nat,
    r: int,
)
    requires
        acyclic_from(pkgs, all, sat, rank),
        (requested || !answer(sat, name)) ==> reached(pkgs, all, sat, name),
        (requested || !answer(sat, name)) ==> (spec_find(pkgs, name) matches Some(q) ==> rank(q.name@) < r),
        covers(pkgs, u),
        u.contains(name),
        fuel > unvisited(u, st.visited),
        out_wf(pkgs, st),
        deps_first(pkgs, sat, st.out),
        pending_above(pkgs, sat, rank, st, r),
    ensures
        ({
            let st2 = visit_spec(pkgs, sat, name, requested, st, fuel).0;
            &&& deps_first(pkgs, sat, st2.out)
            &&& pending_above(pkgs, sat, rank, st2, r)
            &&& (!answer(sat, name) ==> settled(pkgs, st2, name))
        }),
    decreases fuel, 0int, 0int,
{
    lemma_visit_facts(pkgs, sat, name, requested, st, fuel);
    lemma_visit_mono(pkgs, sat, name, requested, st, fuel);
    let st4 = visit_spec(pkgs, sat, name, requested, st, fuel).0;
    if st.visited.contains(name) {
        return;
    }
    lemma_unvisited_strict(u, st.visited, name);
    let st1 = enter(st, name, requested);
    if !requested && answer(sat, name) {
        assert(st4 == st1);
        assert forall|n: Seq<char>|
            #[trigger] st1.visited.contains(n) && !answer(sat, n) && !settled(pkgs, st1, n) implies (spec_find(
            pkgs,
            n,
        ) matches Some(q) && rank(q.name@) >= r) by {
            assert(st.visited.contains(n));
        }
        return;
    }
    match spec_find(pkgs, name) {
        None => {
            assert(st4 == st1);
            assert forall|n: Seq<char>|
                #[trigger] st1.visited.contains(n) && !answer(sat, n) && !settled(pkgs, st1, n) implies (spec_find(
                pkgs,
                n,
            ) matches Some(q) && rank(q.name@) >= r) by {
                assert(st.visited.contains(n));
            }
        },
        Some(meta) => {
            let st2 = ResolveState { visited: st1.visited.insert(meta.name@), ..st1 };
            let r2 = rank(meta.name@) as int;
            lemma_find_pos(pkgs, name);
            let mi = crate::registry::find_pos(pkgs, name);
            assert(pkgs[mi] == meta);
            lemma_find_own_name(pkgs, meta);
            lemma_find_in(pkgs, name);
            // the walk of `meta`'s dependencies starts with everything pending ranked at least `r2`
            assert forall|n: Seq<char>|
                #[trigger] st2.visited.contains(n) && !answer(sat, n) && !settled(pkgs, st2, n) implies (spec_find(
                pkgs,
                n,
            ) matches Some(q) && rank(q.name@) >= r2) by {
                if n != name && n != meta.name@ {
                    assert(st.visited.contains(n));
                    assert(!settled(pkgs, st, n));
                }
            }
            // each dependency the walk follows is reached, and ranked below `meta`
            assert forall|k: int|
                0 <= k < meta.depends@.len() && (#[trigger] dep_name(meta.depends@[k]@)).len() > 0
                    && !answer(sat, dep_name(meta.depends@[k]@)) implies reached(
                pkgs,
                all,
                sat,
                dep_name(meta.depends@[k]@),
            ) && (spec_find(pkgs, dep_name(meta.depends@[k]@)) matches Some(q) ==> rank(q.name@) < r2) by {
                let dn = dep_name(meta.depends@[k]@);
                assert(dep_ranked(pkgs, sat, rank, spec_find(pkgs, name)->0, k));
                assert(dep_step(pkgs, sat, name, dn));
                lemma_reached_step(pkgs, all, sat, name, dn);
            }
            assert forall|k: int| 0 <= k < meta.depends@.len() implies u.contains(
                #[trigger] dep_name(meta.depends@[k]@),
            ) by {
                assert(u.contains(dep_name(pkgs[mi].depends@[k]@)));
            }
            lemma_unvisited_mono(u, st.visited.insert(name), st2.visited);
            let st3 = deps_spec(pkgs, sat, meta.depends@, st2, (fuel - 1) as nat);
            lemma_deps_order(pkgs, sat, rank, all, u, meta.depends@, st2, (fuel - 1) as nat, r2);
            lemma_deps_facts(pkgs, sat, meta.depends@, st2, (fuel - 1) as nat);
            lemma_deps_mono(pkgs, sat, meta.depends@, st2, (fuel - 1) as nat);
            assert(out_wf(pkgs, st2));
            assert(out_wf(pkgs, st3));
            if !st3.pushed.contains(meta.name@) {
                assert(st4.out == st3.out.push(meta));
                assert forall|k: int| 0 <= k < meta.depends@.len() implies #[trigger] emitted_before(
                    pkgs,
                    sat,
                    st3.out.push(meta),
                    st3.out.len() as int,
                    dep_name(meta.depends@[k]@),
                ) by {
                    let dn = dep_name(meta.depends@[k]@);
                    if dn.len() > 0 && !answer(sat, dn) && spec_find(pkgs, dn) is Some {
                        assert(settled(pkgs, st3, dn));
                        let q = spec_find(pkgs, dn)->0;
                        assert(st3.pushed.contains(q.name@));
                        let j = choose|j: int| 0 <= j < st3.out.len() && #[trigger] st3.out[j].name@ == q.name@;
                        assert(st3.out.push(meta)[j].name@ == q.name@);
                    }
                }
                lemma_deps_first_prefix(pkgs, sat, st3.out, meta);
            } else {
                assert(st4 == st3);
            }
            assert(st4.pushed.contains(meta.name@));
            assert forall|n: Seq<char>|
                #[trigger] st4.visited.contains(n) && !answer(sat, n) && !settled(pkgs, st4, n) implies (spec_find(
                pkgs,
                n,
            ) matches Some(q) && rank(q.name@) >= r) by {
                if n == name || n == meta.name@ {
                } else if st2.visited.contains(n) {
                    assert(st.visited.contains(n));
                    if settled(pkgs, st, n) {
                        lemma_settled_mono(pkgs, st, st4, n);
                    }
                } else {
                    assert(settled(pkgs, st3, n));
                    lemma_settled_mono(pkgs, st3, st4, n);
                }
            }
        },
    }
}

proof fn lemma_deps_order(
    pkgs: Seq<PackageMetadata>,
    sat: Map<Seq<char>, bool>,
    rank: spec_fn(Seq<char>) -> nat,
    all: Seq<String>,
    u: Seq<Seq<char>>,
    deps: Seq<String>,
    st: ResolveState,
    fuel: nat,
    r: int,
)
    requires
        acyclic_from(pkgs, all, sat, rank),
        covers(pkgs, u),
        forall|k: int| 0 <= k < deps.len() ==> u.contains(#[trigger] dep_name(deps[k]@)),
        forall|k: int|
            0 <= k < deps.len() && (#[trigger] dep_name(deps[k]@)).len() > 0 && !answer(
                sat,
                dep_name(deps[k]@),
            ) ==> reached(pkgs, all, sat, dep_name(deps[k]@)) && (spec_find(pkgs, dep_name(deps[k]@)) matches Some(q)
                ==> rank(q.name@) < r),
        fuel > unvisited(u, st.visited),
        out_wf(pkgs, st),
        deps_first(pkgs, sat, st.out),
        pending_above(pkgs, sat, rank, st, r),
    ensures
        ({
            let st2 = deps_spec(pkgs, sat, deps, st, fuel);
            &&& deps_first(pkgs, sat, st2.out)
            &&& pending_above(pkgs, sat, rank, st2, r)
            &&& forall|k: int|
                0 <= k < deps.len() && (#[trigger] dep_name(deps[k]@)).len() > 0 && !answer(
                    sat,
                    dep_name(deps[k]@),
                ) ==> settled(pkgs, st2, dep_name(deps[k]@))
        }),
    decreases fuel, 1int, deps.len(),
{
    if deps.len() > 0 {
        let front = deps.drop_last();
        assert forall|k: int| 0 <= k < front.len() implies u.contains(#[trigger] dep_name(front[k]@)) by {
            assert(front[k] == deps[k]);
        }
        assert forall|k: int|
            0 <= k < front.len() && (#[trigger] dep_name(front[k]@)).len() > 0 && !answer(
                sat,
                dep_name(front[k]@),
            ) implies reached(pkgs, all, sat, dep_name(front[k]@)) && (spec_find(pkgs, dep_name(front[k]@)) matches Some(q)
                ==> rank(q.name@) < r) by {
            assert(front[k] == deps[k]);
        }
        lemma_deps_order(pkgs, sat, rank, all, u, front, st, fuel, r);
        lemma_deps_facts(pkgs, sat, front, st, fuel);
        lemma_deps_mono(pkgs, sat, front, st, fuel);
        let prev = deps_spec(pkgs, sat, front, st, fuel);
        let d = dep_name(deps.last()@);
        let st2 = deps_spec(pkgs, sat, deps, st, fuel);
        if d.len() > 0 {
            lemma_unvisited_mono(u, st.visited, prev.visited);
            assert(u.contains(dep_name(deps[deps.len() - 1]@)));
            assert(dep_name(deps[deps.len() - 1]@) == d);
            lemma_visit_order(pkgs, sat, rank, all, u, d, false, prev, fuel, r);
            lemma_visit_facts(pkgs, sat, d, false, prev, fuel);
            assert forall|k: int|
                0 <= k < deps.len() && (#[trigger] dep_name(deps[k]@)).len() > 0 && !answer(
                    sat,
                    dep_name(deps[k]@),
                ) implies settled(pkgs, st2, dep_name(deps[k]@)) by {
                if k < deps.len() - 1 {
                    assert(front[k] == deps[k]);
                    lemma_settled_mono(pkgs, prev, st2, dep_name(deps[k]@));
                }
            }
        } else {
            assert forall|k: int|
                0 <= k < deps.len() && (#[trigger] dep_name(deps[k]@)).len() > 0 && !answer(
                    sat,
                    dep_name(deps[k]@),
                ) implies settled(pkgs, st2, dep_name(deps[k]@)) by {
                if k < deps.len() - 1 {
                    assert(front[k] == deps[k]);
                }
            }
        }
    }
}

proof fn lemma_requests_order(
    pkgs: Seq<PackageMetadata>,
    sat: Map<Seq<char>, bool>,
    rank: spec_fn(Seq<char>) -> nat,
    all: Seq<String>,
    u: Seq<Seq<char>>,
    reqs: Seq<String>,
    fuel: nat,
)
    requires
        acyclic_from(pkgs, all, sat, rank),
        reqs.len() <= all.len(),
        forall|k: int| 0 <= k < reqs.len() ==> reqs[k] == all[k],
        covers(pkgs, u),
        forall|k: int| 0 <= k < reqs.len() ==> u.contains(#[trigger] dep_name(reqs[k]@)),
        fuel > u.len(),
    ensures
        deps_first(pkgs, sat, requests_spec(pkgs, sat, reqs, fuel).0.out),
    decreases reqs.len(),
{
    if reqs.len() > 0 {
        let front = reqs.drop_last();
        assert forall|k: int| 0 <= k < front.len() implies u.contains(#[trigger] dep_name(front[k]@)) by {
            assert(front[k] == reqs[k]);
        }
        lemma_requests_order(pkgs, sat, rank, all, u, front, fuel);
        lemma_requests_facts(pkgs, sat, front, fuel);
        let prev = requests_spec(pkgs, sat, front, fuel);
        let name = dep_name(reqs.last()@);
        let r: int = match spec_find(pkgs, name) {
            Some(q) => (rank(q.name@) + 1) as int,
            None => 0,
        };
        lemma_unvisited_bound(u, prev.0.visited);
        assert(u.contains(dep_name(reqs[reqs.len() - 1]@)));
        lemma_reached_request(pkgs, all, sat, reqs.len() - 1);
        lemma_visit_order(pkgs, sat, rank, all, u, name, true, prev.0, fuel, r);
    }
}

/// Resolution emits packages in dependency order: when the packages reached
/// from the request (following dependencies the host does not already
/// satisfy) have no dependency cycle among them, every emitted package comes
/// after a package of the name each of its dependencies resolves to, except
/// dependencies the host already satisfies. Cycles elsewhere in the index do
/// not matter.
pub proof fn law_resolve_dependencies_first(
    pkgs: Seq<PackageMetadata>,
    reqs: Seq<String>,
    sat: Map<Seq<char>, bool>,
    rank: spec_fn(Seq<char>) -> nat,
)
    requires
        acyclic_from(pkgs, reqs, sat, rank),
    ensures
        resolve_spec(pkgs, reqs, sat) matches Ok(out) ==> deps_first(pkgs, sat, out),
{
    let u = universe(pkgs, reqs);
    lemma_universe_all(pkgs, reqs);
    assert forall|k: int| 0 <= k < reqs.len() implies u.contains(#[trigger] dep_name(reqs[k]@)) by {
        let rs = reqs.map_values(|x: String| dep_name(x@));
        assert(u[k] == rs[k]);
    }
    lemma_requests_order(pkgs, sat, rank, reqs, u, reqs, resolve_fuel(pkgs, reqs));
}

} // verus!
