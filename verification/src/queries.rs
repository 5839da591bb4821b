//! Queries over the whole database: which definition a file sees for a name,
//! and fixtures that depend on fixtures of narrower scope.
use vstd::prelude::*;

use crate::db::{named, FixtureDatabase};
use crate::paths::{
    component_count, conftest_name, count_components, has_file_name, is_conftest_path, parent,
    parent_of, path_starts_with, path_starts_with_exec,
};
use crate::resolver::{best_in_file, find_in_file_last_max, first_index, first_picked, Pick, PickExec};
use crate::text::{chars_of, slice_range};
use crate::text::chars_eq;
use crate::resolver::contains_path;
use crate::types::{def_views, string_views, DefinitionView, FixtureDefinition, ScopeMismatch};

verus! {

/// Whether `d` is a non-third-party `conftest.py` in a directory that contains file `f`.
pub open spec fn conftest_candidate(d: DefinitionView, f: Seq<char>) -> bool {
    &&& !d.is_third_party
    &&& has_file_name(d.file_path, conftest_name())
    &&& parent(d.file_path) matches Some(p) && path_starts_with(f, p)
}

/// How deep the directory of `d` lies: the number of components of its parent.
pub open spec fn conftest_depth(d: DefinitionView) -> nat {
    match parent(d.file_path) {
        Some(p) => component_count(p),
        None => 0,
    }
}

/// Among the first `n` definitions, the first candidate conftest of greatest depth.
pub open spec fn deepest_conftest(ds: Seq<DefinitionView>, f: Seq<char>, n: int) -> Option<int>
    decreases n,
{
    if n <= 0 {
        None
    } else {
        let prev = deepest_conftest(ds, f, n - 1);
        let i = n - 1;
        if conftest_candidate(ds[i], f) {
            match prev {
                Some(p) => if conftest_depth(ds[i]) > conftest_depth(ds[p]) {
                    Some(i)
                } else {
                    Some(p)
                },
                None => Some(i),
            }
        } else {
            prev
        }
    }
}

/// The index, among the definitions `ds` of one name, that file `f` sees: the
/// one in the same file with the greatest line (a later definition shadows an
/// earlier one), else the deepest enclosing conftest, else the first
/// plugin fixture, else the first third-party one, else the first of all.
pub open spec fn resolve_for_file(ds: Seq<DefinitionView>, f: Seq<char>) -> Option<int> {
    match best_in_file(ds, f, None, ds.len() as int) {
        Some(i) => Some(i),
        None => match deepest_conftest(ds, f, ds.len() as int) {
            Some(i) => Some(i),
            None => match first_index(ds, Pick::Plugin, None) {
                Some(i) => Some(i),
                None => match first_index(ds, Pick::ThirdParty, None) {
                    Some(i) => Some(i),
                    None => if ds.len() > 0 {
                        Some(0)
                    } else {
                        None
                    },
                },
            },
        },
    }
}

fn is_conftest_candidate(d: &FixtureDefinition, f: &[char]) -> (r: Option<usize>)
    ensures
        match r {
            Some(depth) => conftest_candidate(d@, f@) && depth as nat == conftest_depth(d@),
            None => !conftest_candidate(d@, f@),
        },
{
    if d.is_third_party {
        return None;
    }
    let fp = chars_of(d.file_path.as_str());
    if !is_conftest_path(&fp) {
        return None;
    }
    match parent_of(&fp) {
        Some(p) => {
            if path_starts_with_exec(f, &p) {
                Some(count_components(&p))
            } else {
                None
            }
        },
        None => None,
    }
}

fn find_deepest_conftest(defs: &[FixtureDefinition], f: &[char]) -> (r: Option<usize>)
    ensures
        match r {
            Some(i) => deepest_conftest(def_views(defs@), f@, defs@.len() as int) == Some(i as int)
                && i < defs@.len(),
            None => deepest_conftest(def_views(defs@), f@, defs@.len() as int) is None,
        },
{
    let ghost ds = def_views(defs@);
    let mut best: Option<(usize, usize)> = None;
    let mut i: usize = 0;
    while i < defs.len()
        invariant
            i <= defs@.len(),
            ds == def_views(defs@),
            match best {
                Some((b, depth)) => deepest_conftest(ds, f@, i as int) == Some(b as int) && b < i
                    && depth as nat == conftest_depth(ds[b as int]),
                None => deepest_conftest(ds, f@, i as int) is None,
            },
        decreases defs@.len() - i,
    {
        let d = &defs[i];
        assert(ds[i as int] == d@);
        if let Some(depth) = is_conftest_candidate(d, f) {
            match best {
                Some((b, bd)) => {
                    if depth > bd {
                        best = Some((i, depth));
                    }
                },
                None => {
                    best = Some((i, depth));
                },
            }
        }
        i = i + 1;
    }
    match best {
        Some((b, _)) => Some(b),
        None => None,
    }
}

/// The index, among `defs` (the definitions of one fixture name), of the one
/// that file `file_path` sees.
pub fn resolve_index_for_file(defs: &[FixtureDefinition], file_path: &str) -> (r: Option<usize>)
    ensures
        match r {
            Some(i) => resolve_for_file(def_views(defs@), file_path@) == Some(i as int) && i
                < defs@.len(),
            None => resolve_for_file(def_views(defs@), file_path@) is None,
        },
{
    let f = chars_of(file_path);
    let fv = slice_range(&f, 0, f.len());
    assert(fv@ =~= f@);
    if let Some(i) = find_in_file_last_max(defs, &fv, None) {
        return Some(i);
    }
    if let Some(i) = find_deepest_conftest(defs, &f) {
        return Some(i);
    }
    if let Some(i) = first_picked(defs, &PickExec::Plugin, None) {
        return Some(i);
    }
    if let Some(i) = first_picked(defs, &PickExec::ThirdParty, None) {
        return Some(i);
    }
    if defs.len() > 0 {
        Some(0)
    } else {
        None
    }
}

/// Whether `ds[i]` is the first definition recorded in file `f` under its name.
pub open spec fn first_in_file(ds: Seq<DefinitionView>, f: Seq<char>, i: int) -> bool {
    &&& ds[i].file_path == f
    &&& forall|j: int| 0 <= j < i ==> !((#[trigger] ds[j]).file_path == f && ds[j].name == ds[i].name)
}

/// For fixture `fd`, each dependency in `deps` (in order) whose first
/// definition has a narrower scope than `fd`, paired with that definition.
pub open spec fn mismatches_for(fd: DefinitionView, ds: Seq<DefinitionView>, deps: Seq<Seq<char>>) -> Seq<
    (DefinitionView, DefinitionView),
>
    decreases deps.len(),
{
    if deps.len() == 0 {
        Seq::empty()
    } else {
        let r = mismatches_for(fd, ds, deps.drop_last());
        let nd = named(ds, deps.last());
        if nd.len() > 0 && fd.scope.spec_rank() > nd[0].scope.spec_rank() {
            r.push((fd, nd[0]))
        } else {
            r
        }
    }
}

/// The scope mismatches of the fixtures defined in file `f` among the first
/// `n` definitions: for each fixture name (its first definition in `f`), in
/// the order recorded, the mismatches of its dependencies.
pub open spec fn scope_mismatches(ds: Seq<DefinitionView>, f: Seq<char>, n: int) -> Seq<
    (DefinitionView, DefinitionView),
>
    decreases n,
{
    if n <= 0 {
        Seq::empty()
    } else {
        let prev = scope_mismatches(ds, f, n - 1);
        if first_in_file(ds, f, n - 1) {
            prev + mismatches_for(ds[n - 1], ds, ds[n - 1].dependencies)
        } else {
            prev
        }
    }
}

pub open spec fn mismatch_views(v: Seq<ScopeMismatch>) -> Seq<(DefinitionView, DefinitionView)> {
    v.map_values(|m: ScopeMismatch| (m.fixture@, m.dependency@))
}

impl FixtureDatabase {
    /// The fixtures defined in `file_path` that depend on a fixture of narrower
    /// scope (a session fixture using a function fixture, for instance); the
    /// dependency is taken as the first definition recorded under its name.
    pub fn detect_scope_mismatches_in_file(&self, file_path: &str) -> (r: Vec<ScopeMismatch>)
        ensures
            mismatch_views(r@) == scope_mismatches(
                self.defs(),
                file_path@,
                self.defs().len() as int,
            ),
    {
        let f = chars_of(file_path);
        let ghost ds = self.defs();
        let mut seen: Vec<String> = Vec::new();
        let mut r: Vec<ScopeMismatch> = Vec::new();
        let mut i: usize = 0;
        while i < self.definitions.len()
            invariant
                i <= ds.len(),
                ds == self.defs(),
                f@ == file_path@,
                mismatch_views(r@) == scope_mismatches(ds, f@, i as int),
                forall|n: Seq<char>|
                    #[trigger] string_views(seen@).contains(n) <==> exists|j: int|
                        0 <= j < i && (#[trigger] ds[j]).file_path == f@ && ds[j].name == n,
            decreases ds.len() - i,
        {
            let d = &self.definitions[i];
            assert(ds[i as int] == d@);
            let fp = chars_of(d.file_path.as_str());
            let dn = chars_of(d.name.as_str());
            let ghost seen_before = string_views(seen@);
            if chars_eq(&fp, &f) && !contains_path(&seen, &dn) {
                assert(first_in_file(ds, f@, i as int)) by {
                    assert forall|j: int| 0 <= j < i implies !((#[trigger] ds[j]).file_path == f@
                        && ds[j].name == ds[i as int].name) by {
                        if ds[j].file_path == f@ && ds[j].name == ds[i as int].name {
                            assert(seen_before.contains(dn@));
                        }
                    }
                }
                let ghost r0 = mismatch_views(r@);
                let mut k: usize = 0;
                while k < d.dependencies.len()
                    invariant
                        k <= d.dependencies@.len(),
                        ds == self.defs(),
                        d@ == ds[i as int],
                        mismatch_views(r@) == r0 + mismatches_for(
                            d@,
                            ds,
                            d@.dependencies.take(k as int),
                        ),
                    decreases d.dependencies@.len() - k,
                {
                    let dep = &d.dependencies[k];
                    assert(d@.dependencies.take(k + 1).drop_last() =~= d@.dependencies.take(
                        k as int,
                    ));
                    assert(d@.dependencies[k as int] == dep@);
                    let dd = self.definitions_named(dep.as_str());
                    if dd.len() > 0 {
                        assert(def_views(dd@)[0] == dd@[0]@);
                        if d.scope.is_broader_than(&dd[0].scope) {
                            let ghost before = mismatch_views(r@);
                            r.push(ScopeMismatch { fixture: d.duplicate(), dependency: dd[0].duplicate() });
                            assert(mismatch_views(r@) =~= before.push((d@, dd@[0]@)));
                        }
                    }
                    k = k + 1;
                }
                assert(d@.dependencies.take(d@.dependencies.len() as int) =~= d@.dependencies);
                seen.push(d.name.clone());
                proof {
                    assert(string_views(seen@) =~= seen_before.push(dn@));
                    assert forall|n: Seq<char>|
                        #[trigger] string_views(seen@).contains(n) <==> exists|j: int|
                            0 <= j < i + 1 && (#[trigger] ds[j]).file_path == f@ && ds[j].name == n by {
                        if string_views(seen@).contains(n) {
                            let q = choose|q: int| 0 <= q < string_views(seen@).len() && string_views(seen@)[q] == n;
                            if q < seen_before.len() {
                                assert(seen_before[q] == n);
                                assert(seen_before.contains(n));
                            } else {
                                assert(ds[i as int].file_path == f@ && ds[i as int].name == n);
                            }
                        }
                        if exists|j: int| 0 <= j < i + 1 && (#[trigger] ds[j]).file_path == f@ && ds[j].name == n {
                            let j = choose|j: int| 0 <= j < i + 1 && (#[trigger] ds[j]).file_path == f@ && ds[j].name == n;
                            if j < i {
                                assert(seen_before.contains(n));
                                let q = choose|q: int| 0 <= q < seen_before.len() && seen_before[q] == n;
                                assert(string_views(seen@)[q] == n);
                            } else {
                                assert(string_views(seen@)[seen_before.len() as int] == n);
                            }
                        }
                    }
                }
            } else {
                proof {
                    if fp@ == f@ {
                        assert(seen_before.contains(dn@));
                        let j = choose|j: int| 0 <= j < i && (#[trigger] ds[j]).file_path == f@ && ds[j].name == dn@;
                        assert(!first_in_file(ds, f@, i as int));
                    }
                    assert forall|n: Seq<char>|
                        #[trigger] string_views(seen@).contains(n) <==> exists|j: int|
                            0 <= j < i + 1 && (#[trigger] ds[j]).file_path == f@ && ds[j].name == n by {
                        if exists|j: int| 0 <= j < i + 1 && (#[trigger] ds[j]).file_path == f@ && ds[j].name == n {
                            let j = choose|j: int| 0 <= j < i + 1 && (#[trigger] ds[j]).file_path == f@ && ds[j].name == n;
                            if j == i {
                                assert(seen_before.contains(dn@));
                            } else {
                                assert(seen_before.contains(n));
                            }
                        }
                    }
                }
            }
            i = i + 1;
        }
        r
    }


    /// The definition of `fixture_name` that file `file_path` sees, under
    /// pytest's shadowing rules (same file, then the closest conftest, then
    /// plugins, then third-party fixtures).
    pub fn resolve_fixture_for_file(&self, file_path: &str, fixture_name: &str) -> (r: Option<
        FixtureDefinition,
    >)
        ensures
            match resolve_for_file(named(self.defs(), fixture_name@), file_path@) {
                Some(i) => r is Some && r->0@ == named(self.defs(), fixture_name@)[i],
                None => r is None,
            },
    {
        let defs = self.definitions_named(fixture_name);
        match resolve_index_for_file(&defs, file_path) {
            Some(i) => {
                assert(def_views(defs@)[i as int] == defs@[i as int]@);
                Some(defs[i].duplicate())
            },
            None => None,
        }
    }
}

} // verus!
