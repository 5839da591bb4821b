//! Properties that hold across the library's operations.
use vstd::prelude::*;

use crate::cycles::{cycle_step, depends_on, has_cycle, is_fixture_cycle};
use crate::db::{first_at_line, lemma_named_names, named, resolve_usage, without_file};
use crate::offsets::{increasing, line_of};
use crate::queries::{first_in_file, mismatches_for, scope_mismatches};
use crate::resolver::{best_in_file, closest, conftest_pick, first_index, passes, picks, Pick};
use crate::types::{DefinitionView, UsageView};
use crate::usage::{definition_keys, is_unused, lemma_definition_keys, resolves_into, unused_among, usage_count};

verus! {

// ---------------------------------------------------------------------------
// Resolution

pub proof fn lemma_best_in_file(ds: Seq<DefinitionView>, f: Seq<char>, excl: Option<DefinitionView>, n: int)
    requires
        0 <= n <= ds.len(),
    ensures
        match best_in_file(ds, f, excl, n) {
            Some(j) => 0 <= j < n && ds[j].file_path == f && passes(ds[j], excl) && forall|k: int|
                0 <= k < n && (#[trigger] ds[k]).file_path == f && passes(ds[k], excl) ==> ds[k].line <= ds[j].line,
            None => forall|k: int| 0 <= k < n ==> !((#[trigger] ds[k]).file_path == f && passes(ds[k], excl)),
        },
    decreases n,
{
    if n > 0 {
        lemma_best_in_file(ds, f, excl, n - 1);
    }
}

pub proof fn lemma_first_index_picks(ds: Seq<DefinitionView>, k: Pick, excl: Option<DefinitionView>)
    ensures
        match first_index(ds, k, excl) {
            Some(i) => 0 <= i < ds.len() && picks(k, ds[i], excl),
            None => true,
        },
    decreases ds.len(),
{
    if ds.len() > 0 && !picks(k, ds[0], excl) {
        lemma_first_index_picks(ds.drop_first(), k, excl);
        match first_index(ds.drop_first(), k, excl) {
            Some(i) => {
                assert(ds.drop_first()[i] == ds[i + 1]);
            },
            None => {},
        }
    }
}

proof fn lemma_conftest_pick_passes(
    ds: Seq<DefinitionView>,
    dir: Seq<char>,
    excl: Option<DefinitionView>,
    imp: Seq<Seq<char>>,
)
    ensures
        match conftest_pick(ds, dir, excl, imp) {
            Some(i) => 0 <= i < ds.len() && passes(ds[i], excl),
            None => true,
        },
    decreases dir.len(),
{
    let c = crate::paths::join(dir, crate::paths::conftest_name());
    lemma_first_index_picks(ds, Pick::InFile(c), excl);
    lemma_first_index_picks(ds, Pick::Any, excl);
    match crate::paths::parent(dir) {
        Some(p) => {
            crate::paths::lemma_parent_shorter(dir);
            lemma_conftest_pick_passes(ds, p, excl, imp);
        },
        None => {},
    }
}

/// Pytest's first shadowing rule: when file `f` itself defines the fixture
/// (leaving out `excl`), a usage in `f` resolves to a definition in `f`: the
/// one on the greatest line.
pub proof fn law_same_file_first(
    ds: Seq<DefinitionView>,
    f: Seq<char>,
    excl: Option<DefinitionView>,
    importing: Seq<Seq<char>>,
    i: int,
)
    requires
        0 <= i < ds.len(),
        ds[i].file_path == f,
        passes(ds[i], excl),
    ensures
        closest(ds, f, excl, importing) matches Some(j) && 0 <= j < ds.len() && ds[j].file_path == f
            && forall|k: int|
            0 <= k < ds.len() && (#[trigger] ds[k]).file_path == f && passes(ds[k], excl) ==> ds[k].line
                <= ds[j].line,
{
    lemma_best_in_file(ds, f, excl, ds.len() as int);
}

/// Whatever a usage resolves to is one of the definitions, and never the
/// one left out.
pub proof fn law_resolution_avoids_excluded(
    ds: Seq<DefinitionView>,
    f: Seq<char>,
    excl: Option<DefinitionView>,
    importing: Seq<Seq<char>>,
)
    ensures
        closest(ds, f, excl, importing) matches Some(j) ==> 0 <= j < ds.len() && passes(ds[j], excl),
{
    lemma_best_in_file(ds, f, excl, ds.len() as int);
    lemma_first_index_picks(ds, Pick::Plugin, excl);
    lemma_first_index_picks(ds, Pick::ThirdParty, excl);
    match crate::paths::parent(f) {
        Some(dir) => lemma_conftest_pick_passes(ds, dir, excl, importing),
        None => {},
    }
}

/// A fixture that takes a fixture of its own name as a parameter (an
/// override using the fixture it overrides) never resolves that parameter
/// to itself.
pub proof fn law_override_resolves_past_itself(
    ds: Seq<DefinitionView>,
    u: UsageView,
    fi: Seq<(Seq<char>, Seq<Seq<char>>)>,
)
    requires
        first_at_line(ds, u.file_path, u.line) matches Some(c) && 0 <= c < ds.len() && ds[c].name == u.name,
    ensures
        resolve_usage(ds, u, fi) != Some(ds[first_at_line(ds, u.file_path, u.line)->0]),
{
    let c = first_at_line(ds, u.file_path, u.line)->0;
    let nd = named(ds, u.name);
    law_resolution_avoids_excluded(nd, u.file_path, Some(ds[c]), crate::db::files_listing(fi, u.name));
}

// ---------------------------------------------------------------------------
// Re-analysis

/// Analyzing a file again replaces its definitions: once a file's
/// definitions are cleaned up, one recorded for it before does not remain.
pub proof fn law_cleanup_forgets_recorded(ds: Seq<DefinitionView>, d: DefinitionView)
    ensures
        without_file(ds.push(d), d.file_path) == without_file(ds, d.file_path),
{
    assert(ds.push(d).drop_last() =~= ds);
}

/// Cleaning up a file removes its definitions and keeps every other.
pub proof fn law_cleanup_keeps_others(ds: Seq<DefinitionView>, f: Seq<char>)
    ensures
        forall|k: int| 0 <= k < without_file(ds, f).len() ==> (#[trigger] without_file(ds, f)[k]).file_path != f,
        forall|i: int| 0 <= i < ds.len() && (#[trigger] ds[i]).file_path != f ==> without_file(ds, f).contains(ds[i]),
    decreases ds.len(),
{
    if ds.len() > 0 {
        let t = ds.drop_last();
        law_cleanup_keeps_others(t, f);
        let r = without_file(t, f);
        assert forall|i: int| 0 <= i < ds.len() && (#[trigger] ds[i]).file_path != f implies without_file(ds, f).contains(ds[i]) by {
            if i < ds.len() - 1 {
                assert(t[i] == ds[i]);
                let k = choose|k: int| 0 <= k < r.len() && r[k] == t[i];
                assert(without_file(ds, f)[k] == ds[i]);
            } else {
                assert(without_file(ds, f)[r.len() as int] == ds[i]);
            }
        }
        assert forall|k: int| 0 <= k < without_file(ds, f).len() implies (#[trigger] without_file(ds, f)[k]).file_path != f by {
            if k < r.len() {
                assert(without_file(ds, f)[k] == r[k]);
            }
        }
    }
}

// ---------------------------------------------------------------------------
// Offsets

/// The offset at which a line starts lies on that line.
pub proof fn law_line_start_on_its_line(index: Seq<usize>, i: int)
    requires
        increasing(index),
        0 <= i < index.len(),
    ensures
        line_of(index, index[i]) == i + 1,
    decreases index.len(),
{
    if i < index.len() - 1 {
        assert(index.last() == index[index.len() - 1]);
        assert(index[i] < index[index.len() - 1]);
        let t = index.drop_last();
        assert(t[i] == index[i]);
        assert(increasing(t)) by {
            assert forall|a: int, b: int| 0 <= a < b < t.len() implies t[a] < t[b] by {
                assert(t[a] == index[a] && t[b] == index[b]);
            }
        }
        law_line_start_on_its_line(t, i);
    }
}

// ---------------------------------------------------------------------------
// Cycles and scopes

/// A fixture that depends on itself is a cycle.
pub proof fn law_self_dependency_is_cycle(ds: Seq<DefinitionView>, n: Seq<char>)
    requires
        depends_on(ds, n, n),
    ensures
        has_cycle(ds),
{
    let p = seq![n, n];
    assert(cycle_step(ds, p, 0));
    assert(is_fixture_cycle(ds, p));
}

/// Every scope mismatch reported for file `f` pairs a fixture defined in `f`
/// with a dependency of narrower scope.
pub proof fn law_mismatch_is_narrower(ds: Seq<DefinitionView>, f: Seq<char>, n: int)
    requires
        0 <= n <= ds.len(),
    ensures
        forall|k: int|
            0 <= k < scope_mismatches(ds, f, n).len() ==> (#[trigger] scope_mismatches(ds, f, n)[k]).0.file_path == f
                && scope_mismatches(ds, f, n)[k].0.scope.spec_rank() > scope_mismatches(ds, f, n)[k].1.scope.spec_rank(),
    decreases n,
{
    if n > 0 {
        law_mismatch_is_narrower(ds, f, n - 1);
        let prev = scope_mismatches(ds, f, n - 1);
        if first_in_file(ds, f, n - 1) {
            let fd = ds[n - 1];
            lemma_mismatches_for(fd, ds, fd.dependencies);
            let extra = mismatches_for(fd, ds, fd.dependencies);
            assert forall|k: int| 0 <= k < scope_mismatches(ds, f, n).len() implies (#[trigger] scope_mismatches(ds, f, n)[k]).0.file_path == f
                && scope_mismatches(ds, f, n)[k].0.scope.spec_rank() > scope_mismatches(ds, f, n)[k].1.scope.spec_rank() by {
                if k < prev.len() {
                    assert(scope_mismatches(ds, f, n)[k] == prev[k]);
                } else {
                    assert(scope_mismatches(ds, f, n)[k] == extra[k - prev.len()]);
                }
            }
        }
    }
}

proof fn lemma_mismatches_for(fd: DefinitionView, ds: Seq<DefinitionView>, deps: Seq<Seq<char>>)
    ensures
        forall|k: int|
            0 <= k < mismatches_for(fd, ds, deps).len() ==> (#[trigger] mismatches_for(fd, ds, deps)[k]).0 == fd
                && fd.scope.spec_rank() > mismatches_for(fd, ds, deps)[k].1.scope.spec_rank(),
    decreases deps.len(),
{
    if deps.len() > 0 {
        lemma_mismatches_for(fd, ds, deps.drop_last());
    }
}

/// `dep` is a dependency of fixture `fd` whose first recorded definition has
/// a strictly narrower scope than `fd`.
pub open spec fn narrower_dependency(fd: DefinitionView, ds: Seq<DefinitionView>, dep: Seq<char>) -> bool {
    named(ds, dep).len() > 0 && fd.scope.spec_rank() > named(ds, dep)[0].scope.spec_rank()
}

/// The test "is a narrower dependency of `fd`", as a predicate.
pub open spec fn narrower_of(fd: DefinitionView, ds: Seq<DefinitionView>) -> spec_fn(Seq<char>) -> bool {
    |dep: Seq<char>| narrower_dependency(fd, ds, dep)
}

/// The test "is a mismatch reported for fixture `fd`", as a predicate.
pub open spec fn reported_for(fd: DefinitionView) -> spec_fn((DefinitionView, DefinitionView)) -> bool {
    |m: (DefinitionView, DefinitionView)| m.0 == fd
}

/// The mismatches reported for fixture `fd` are exactly its narrower
/// dependencies, in the order they are listed, each paired with its first
/// definition: every narrower dependency is reported, and the number of
/// mismatches is the number of narrower dependencies.
pub proof fn law_mismatches_are_the_narrower_dependencies(
    fd: DefinitionView,
    ds: Seq<DefinitionView>,
    deps: Seq<Seq<char>>,
)
    ensures
        mismatches_for(fd, ds, deps) == deps.filter(narrower_of(fd, ds)).map_values(
            |dep: Seq<char>| (fd, named(ds, dep)[0]),
        ),
        mismatches_for(fd, ds, deps).len() == deps.filter(narrower_of(fd, ds)).len(),
        forall|t: int|
            0 <= t < deps.len() && narrower_dependency(fd, ds, #[trigger] deps[t]) ==> mismatches_for(
                fd,
                ds,
                deps,
            ).contains((fd, named(ds, deps[t])[0])),
    decreases deps.len(),
{
    reveal(Seq::filter);
    let p = narrower_of(fd, ds);
    let g = |dep: Seq<char>| (fd, named(ds, dep)[0]);
    if deps.len() == 0 {
        assert(deps.filter(p) =~= Seq::<Seq<char>>::empty());
        assert(deps.filter(p).map_values(g) =~= Seq::<(DefinitionView, DefinitionView)>::empty());
    } else {
        let init = deps.drop_last();
        law_mismatches_are_the_narrower_dependencies(fd, ds, init);
        let prev = mismatches_for(fd, ds, init);
        assert(prev == init.filter(p).map_values(g));
        if p(deps.last()) {
            assert(deps.filter(p) == init.filter(p).push(deps.last()));
            assert(init.filter(p).push(deps.last()).map_values(g) =~= init.filter(p).map_values(g).push(
                g(deps.last()),
            ));
        } else {
            assert(deps.filter(p) == init.filter(p));
        }
        let all = mismatches_for(fd, ds, deps);
        assert forall|t: int| 0 <= t < deps.len() && narrower_dependency(fd, ds, #[trigger] deps[t]) implies all.contains(
            (fd, named(ds, deps[t])[0]),
        ) by {
            if t < deps.len() - 1 {
                assert(init[t] == deps[t]);
                assert(prev.contains((fd, named(ds, init[t])[0])));
                let m = choose|m: int| 0 <= m < prev.len() && prev[m] == (fd, named(ds, init[t])[0]);
                if p(deps.last()) {
                    assert(all[m] == prev[m]);
                }
            } else {
                assert(all[all.len() - 1] == (fd, named(ds, deps[t])[0]));
            }
        }
    }
}

/// Completeness of scope-mismatch detection for a file: for each fixture
/// first defined in `f` (among the first `n` definitions), every dependency
/// whose first definition has a strictly narrower scope is reported, paired
/// with that fixture.
pub proof fn law_every_narrower_dependency_is_reported(ds: Seq<DefinitionView>, f: Seq<char>, n: int, k: int, t: int)
    requires
        0 <= k < n <= ds.len(),
        first_in_file(ds, f, k),
        0 <= t < ds[k].dependencies.len(),
        narrower_dependency(ds[k], ds, ds[k].dependencies[t]),
    ensures
        scope_mismatches(ds, f, n).contains((ds[k], named(ds, ds[k].dependencies[t])[0])),
    decreases n,
{
    let x = (ds[k], named(ds, ds[k].dependencies[t])[0]);
    let prev = scope_mismatches(ds, f, n - 1);
    if k < n - 1 {
        law_every_narrower_dependency_is_reported(ds, f, n - 1, k, t);
        let m = choose|m: int| 0 <= m < prev.len() && prev[m] == x;
        if first_in_file(ds, f, n - 1) {
            assert(scope_mismatches(ds, f, n)[m] == prev[m]);
        }
    } else {
        law_mismatches_are_the_narrower_dependencies(ds[k], ds, ds[k].dependencies);
        let extra = mismatches_for(ds[k], ds, ds[k].dependencies);
        assert(extra.contains(x));
        let m = choose|m: int| 0 <= m < extra.len() && extra[m] == x;
        assert(scope_mismatches(ds, f, n)[prev.len() + m] == extra[m]);
    }
}

proof fn lemma_filter_none<A>(s: Seq<A>, pred: spec_fn(A) -> bool)
    requires
        forall|i: int| 0 <= i < s.len() ==> !pred(#[trigger] s[i]),
    ensures
        s.filter(pred).len() == 0,
    decreases s.len(),
{
    reveal(Seq::filter);
    if s.len() > 0 {
        assert(!pred(s[s.len() - 1]));
        assert forall|i: int| 0 <= i < s.drop_last().len() implies !pred(#[trigger] s.drop_last()[i]) by {
            assert(s.drop_last()[i] == s[i]);
        }
        lemma_filter_none(s.drop_last(), pred);
    }
}

proof fn lemma_filter_all<A>(s: Seq<A>, pred: spec_fn(A) -> bool)
    requires
        forall|i: int| 0 <= i < s.len() ==> pred(#[trigger] s[i]),
    ensures
        s.filter(pred).len() == s.len(),
    decreases s.len(),
{
    reveal(Seq::filter);
    if s.len() > 0 {
        assert(pred(s[s.len() - 1]));
        assert forall|i: int| 0 <= i < s.drop_last().len() implies pred(#[trigger] s.drop_last()[i]) by {
            assert(s.drop_last()[i] == s[i]);
        }
        lemma_filter_all(s.drop_last(), pred);
    }
}

/// `x` is one of the first `n` definitions, and the first in file `f` under its name.
pub open spec fn first_defined_among(ds: Seq<DefinitionView>, f: Seq<char>, n: int, x: DefinitionView) -> bool {
    exists|j: int| 0 <= j < n && first_in_file(ds, f, j) && ds[j] == x
}

/// Every scope mismatch reported for file `f` (among the first `n`
/// definitions) is reported for a fixture whose first definition in `f` is
/// among them: a fixture defined again later in the same file is not
/// checked a second time.
pub proof fn law_mismatches_come_from_first_definitions(ds: Seq<DefinitionView>, f: Seq<char>, n: int)
    requires
        0 <= n <= ds.len(),
    ensures
        forall|m: int|
            0 <= m < scope_mismatches(ds, f, n).len() ==> first_defined_among(
                ds,
                f,
                n,
                (#[trigger] scope_mismatches(ds, f, n)[m]).0,
            ),
    decreases n,
{
    if n > 0 {
        law_mismatches_come_from_first_definitions(ds, f, n - 1);
        let prev = scope_mismatches(ds, f, n - 1);
        let fd = ds[n - 1];
        lemma_mismatches_for(fd, ds, fd.dependencies);
        let extra = mismatches_for(fd, ds, fd.dependencies);
        assert forall|m: int| 0 <= m < scope_mismatches(ds, f, n).len() implies first_defined_among(
            ds,
            f,
            n,
            (#[trigger] scope_mismatches(ds, f, n)[m]).0,
        ) by {
            if m < prev.len() {
                assert(scope_mismatches(ds, f, n)[m] == prev[m]);
                assert(first_defined_among(ds, f, n - 1, prev[m].0));
                let j = choose|j: int| 0 <= j < n - 1 && first_in_file(ds, f, j) && ds[j] == prev[m].0;
                assert(0 <= j < n && first_in_file(ds, f, j) && ds[j] == prev[m].0);
            } else {
                assert(scope_mismatches(ds, f, n)[m] == extra[m - prev.len()]);
                assert(0 <= n - 1 < n && first_in_file(ds, f, n - 1) && ds[n - 1] == extra[m - prev.len()].0);
            }
        }
    }
}

/// For a fixture first defined in file `f`, the number of scope mismatches
/// reported for it in `f` is the number of its dependencies whose first
/// definition has a strictly narrower scope.
pub proof fn law_mismatch_count_per_fixture(ds: Seq<DefinitionView>, f: Seq<char>, n: int, k: int)
    requires
        0 <= k < n <= ds.len(),
        first_in_file(ds, f, k),
    ensures
        scope_mismatches(ds, f, n).filter(reported_for(ds[k])).len() == ds[k].dependencies.filter(
            narrower_of(ds[k], ds),
        ).len(),
    decreases n,
{
    let fk = ds[k];
    let sel = reported_for(fk);
    let prev = scope_mismatches(ds, f, n - 1);
    let fd = ds[n - 1];
    let extra = mismatches_for(fd, ds, fd.dependencies);
    lemma_mismatches_for(fd, ds, fd.dependencies);
    if k < n - 1 {
        law_mismatch_count_per_fixture(ds, f, n - 1, k);
        if first_in_file(ds, f, n - 1) {
            assert(fd.name != fk.name);
            assert forall|i: int| 0 <= i < extra.len() implies !sel(#[trigger] extra[i]) by {
                assert(extra[i].0 == fd);
            }
            lemma_filter_none(extra, sel);
            Seq::filter_distributes_over_add(prev, extra, sel);
        }
    } else {
        law_mismatches_come_from_first_definitions(ds, f, k);
        assert forall|i: int| 0 <= i < prev.len() implies !sel(#[trigger] prev[i]) by {
            assert(first_defined_among(ds, f, k, prev[i].0));
            let j = choose|j: int| 0 <= j < k && first_in_file(ds, f, j) && ds[j] == prev[i].0;
            assert(ds[j].name != fk.name);
        }
        lemma_filter_none(prev, sel);
        assert forall|i: int| 0 <= i < extra.len() implies sel(#[trigger] extra[i]) by {
            assert(extra[i].0 == fd);
        }
        lemma_filter_all(extra, sel);
        Seq::filter_distributes_over_add(prev, extra, sel);
        law_mismatches_are_the_narrower_dependencies(fk, ds, fk.dependencies);
    }
}

// ---------------------------------------------------------------------------
// Usage counts

/// Some definition among the first `n` is unused and has key `x`.
pub open spec fn unused_definition(
    ds: Seq<DefinitionView>,
    fi: Seq<(Seq<char>, Seq<Seq<char>>)>,
    us: Seq<UsageView>,
    n: int,
    x: (Seq<char>, Seq<char>),
) -> bool {
    exists|j: int| 0 <= j < n && is_unused(ds, fi, us, #[trigger] ds[j]) && (ds[j].file_path, ds[j].name) == x
}

/// Each unused fixture reported comes from a definition that is neither
/// third-party nor autouse and that no usage resolves to.
pub proof fn law_unused_are_unused(
    ds: Seq<DefinitionView>,
    fi: Seq<(Seq<char>, Seq<Seq<char>>)>,
    us: Seq<UsageView>,
    n: int,
)
    requires
        0 <= n <= ds.len(),
    ensures
        forall|k: int|
            0 <= k < unused_among(ds, fi, us, n).len() ==> unused_definition(
                ds,
                fi,
                us,
                n,
                #[trigger] unused_among(ds, fi, us, n)[k],
            ),
    decreases n,
{
    if n > 0 {
        law_unused_are_unused(ds, fi, us, n - 1);
        let prev = unused_among(ds, fi, us, n - 1);
        let cur = unused_among(ds, fi, us, n);
        assert forall|k: int| 0 <= k < cur.len() implies unused_definition(ds, fi, us, n, #[trigger] cur[k]) by {
            if k < prev.len() {
                assert(cur[k] == prev[k]);
                assert(unused_definition(ds, fi, us, n - 1, prev[k]));
                let j = choose|j: int|
                    0 <= j < n - 1 && is_unused(ds, fi, us, #[trigger] ds[j]) && (ds[j].file_path, ds[j].name) == prev[k];
                assert(0 <= j < n && is_unused(ds, fi, us, ds[j]) && (ds[j].file_path, ds[j].name) == cur[k]);
            } else {
                assert(cur[k] == (ds[n - 1].file_path, ds[n - 1].name));
                assert(is_unused(ds, fi, us, ds[n - 1]));
            }
        }
    }
}

/// The usages of `us` that resolve to some definition.
pub open spec fn resolved_count(ds: Seq<DefinitionView>, fi: Seq<(Seq<char>, Seq<Seq<char>>)>, us: Seq<UsageView>) -> nat
    decreases us.len(),
{
    if us.len() == 0 {
        0
    } else {
        resolved_count(ds, fi, us.drop_last()) + if resolve_usage(ds, us.last(), fi) is Some {
            1nat
        } else {
            0nat
        }
    }
}

/// The usage counts of `keys`, added up.
pub open spec fn total_count(
    ds: Seq<DefinitionView>,
    fi: Seq<(Seq<char>, Seq<Seq<char>>)>,
    us: Seq<UsageView>,
    keys: Seq<(Seq<char>, Seq<char>)>,
) -> nat
    decreases keys.len(),
{
    if keys.len() == 0 {
        0
    } else {
        total_count(ds, fi, us, keys.drop_last()) + usage_count(ds, fi, us, keys.last().0, keys.last().1)
    }
}

/// How many of `keys` the usage `u` counts toward.
pub open spec fn hits(
    ds: Seq<DefinitionView>,
    fi: Seq<(Seq<char>, Seq<Seq<char>>)>,
    u: UsageView,
    keys: Seq<(Seq<char>, Seq<char>)>,
) -> nat
    decreases keys.len(),
{
    if keys.len() == 0 {
        0
    } else {
        hits(ds, fi, u, keys.drop_last()) + if u.name == keys.last().1 && resolves_into(ds, fi, u, keys.last().0) {
            1nat
        } else {
            0nat
        }
    }
}

proof fn lemma_total_push(
    ds: Seq<DefinitionView>,
    fi: Seq<(Seq<char>, Seq<Seq<char>>)>,
    us: Seq<UsageView>,
    u: UsageView,
    keys: Seq<(Seq<char>, Seq<char>)>,
)
    ensures
        total_count(ds, fi, us.push(u), keys) == total_count(ds, fi, us, keys) + hits(ds, fi, u, keys),
    decreases keys.len(),
{
    assert(us.push(u).drop_last() =~= us);
    if keys.len() > 0 {
        lemma_total_push(ds, fi, us, u, keys.drop_last());
    }
}

/// A usage counts toward one key when the key of its definition is listed
/// once, and toward none when it resolves nowhere.
proof fn lemma_hits(
    ds: Seq<DefinitionView>,
    fi: Seq<(Seq<char>, Seq<Seq<char>>)>,
    u: UsageView,
    keys: Seq<(Seq<char>, Seq<char>)>,
)
    requires
        keys.no_duplicates(),
    ensures
        hits(ds, fi, u, keys) == if resolve_usage(ds, u, fi) is Some && keys.contains(
            (resolve_usage(ds, u, fi)->0.file_path, u.name),
        ) {
            1nat
        } else {
            0nat
        },
    decreases keys.len(),
{
    if keys.len() > 0 {
        let t = keys.drop_last();
        assert(t.no_duplicates()) by {
            assert forall|a: int, b: int| 0 <= a < t.len() && 0 <= b < t.len() && a != b implies t[a] != t[b] by {
                assert(t[a] == keys[a] && t[b] == keys[b]);
            }
        }
        lemma_hits(ds, fi, u, t);
        match resolve_usage(ds, u, fi) {
            Some(d) => {
                let x = (d.file_path, u.name);
                if keys.last() == x {
                    if t.contains(x) {
                        let a = choose|a: int| 0 <= a < t.len() && t[a] == x;
                        assert(keys[a] == keys[keys.len() - 1]);
                    }
                } else {
                    if keys.contains(x) {
                        let a = choose|a: int| 0 <= a < keys.len() && keys[a] == x;
                        assert(a != keys.len() - 1);
                        assert(t[a] == x);
                    }
                    if t.contains(x) {
                        let a = choose|a: int| 0 <= a < t.len() && t[a] == x;
                        assert(keys[a] == x);
                    }
                }
            },
            None => {},
        }
    }
}

/// The definition a usage resolves to is one of the definitions, of the
/// usage's name.
pub proof fn lemma_resolved_is_defined(ds: Seq<DefinitionView>, u: UsageView, fi: Seq<(Seq<char>, Seq<Seq<char>>)>)
    ensures
        resolve_usage(ds, u, fi) matches Some(d) ==> exists|j: int|
            0 <= j < ds.len() && #[trigger] ds[j] == d && d.name == u.name,
{
    let nd = named(ds, u.name);
    let excl = match first_at_line(ds, u.file_path, u.line) {
        Some(i) => if ds[i].name == u.name {
            Some(ds[i])
        } else {
            None
        },
        None => None,
    };
    law_resolution_avoids_excluded(nd, u.file_path, excl, crate::db::files_listing(fi, u.name));
    match closest(nd, u.file_path, excl, crate::db::files_listing(fi, u.name)) {
        Some(i) => {
            lemma_named_names(ds, u.name);
            lemma_named_member(ds, u.name, i);
        },
        None => {},
    }
}

proof fn lemma_named_member(ds: Seq<DefinitionView>, n: Seq<char>, i: int)
    requires
        0 <= i < named(ds, n).len(),
    ensures
        exists|j: int| 0 <= j < ds.len() && #[trigger] ds[j] == named(ds, n)[i],
    decreases ds.len(),
{
    let t = ds.drop_last();
    let r = named(t, n);
    if i < r.len() {
        lemma_named_member(t, n, i);
        let j = choose|j: int| 0 <= j < t.len() && #[trigger] t[j] == r[i];
        assert(ds[j] == t[j]);
    } else {
        assert(ds[ds.len() - 1] == named(ds, n)[i]);
    }
}

/// The usage counts of all fixture definitions add up to the number of
/// usages that resolve: each resolved usage is counted once, for the
/// definition it resolves to.
pub proof fn law_counts_add_up(ds: Seq<DefinitionView>, fi: Seq<(Seq<char>, Seq<Seq<char>>)>, us: Seq<UsageView>)
    ensures
        total_count(ds, fi, us, definition_keys(ds)) == resolved_count(ds, fi, us),
    decreases us.len(),
{
    let keys = definition_keys(ds);
    lemma_definition_keys(ds);
    if us.len() == 0 {
        lemma_total_empty(ds, fi, us, keys);
    } else {
        let t = us.drop_last();
        let u = us.last();
        law_counts_add_up(ds, fi, t);
        assert(t.push(u) =~= us);
        lemma_total_push(ds, fi, t, u, keys);
        lemma_hits(ds, fi, u, keys);
        lemma_resolved_is_defined(ds, u, fi);
        match resolve_usage(ds, u, fi) {
            Some(d) => {
                let j = choose|j: int| 0 <= j < ds.len() && #[trigger] ds[j] == d && d.name == u.name;
                assert(keys.contains((ds[j].file_path, ds[j].name)));
            },
            None => {},
        }
    }
}

proof fn lemma_total_empty(
    ds: Seq<DefinitionView>,
    fi: Seq<(Seq<char>, Seq<Seq<char>>)>,
    us: Seq<UsageView>,
    keys: Seq<(Seq<char>, Seq<char>)>,
)
    requires
        us.len() == 0,
    ensures
        total_count(ds, fi, us, keys) == 0,
    decreases keys.len(),
{
    if keys.len() > 0 {
        lemma_total_empty(ds, fi, us, keys.drop_last());
    }
}

} // verus!
