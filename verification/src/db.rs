//! The fixture database: every definition and usage the analyzer recorded,
//! and the queries an editor asks of them.
use vstd::prelude::*;

use crate::order::{chars_lt, lemma_trichotomy, seq_lt, strictly_sorted};
use crate::paths::parent;
use crate::paths::parent_of;
use crate::resolver::{
    closest, conftest_pick, contains_path, excl_view, find_closest_index, find_conftest_index,
    first_index, first_picked, Pick, PickExec,
};
use crate::text::{chars_eq, chars_of, slice_range};
use crate::types::{
    def_views, string_views, undeclared_views, usage_views, DefinitionView, FixtureDefinition,
    FixtureUsage, UndeclaredFixture, UndeclaredView, UsageView,
};

verus! {

/// A file and a list of names that belong to it.
#[derive(Debug)]
pub struct FileNames {
    pub file_path: String,
    pub names: Vec<String>,
}

pub open spec fn file_names_views(v: Seq<FileNames>) -> Seq<(Seq<char>, Seq<Seq<char>>)> {
    v.map_values(|f: FileNames| (f.file_path@, string_views(f.names@)))
}

/// The definitions in `ds` whose name is `n`, in order.
pub open spec fn named(ds: Seq<DefinitionView>, n: Seq<char>) -> Seq<DefinitionView>
    decreases ds.len(),
{
    if ds.len() == 0 {
        Seq::empty()
    } else {
        let r = named(ds.drop_last(), n);
        if ds.last().name == n {
            r.push(ds.last())
        } else {
            r
        }
    }
}

/// The definitions in `ds` that are not in file `f`, in order.
pub open spec fn without_file(ds: Seq<DefinitionView>, f: Seq<char>) -> Seq<DefinitionView>
    decreases ds.len(),
{
    if ds.len() == 0 {
        Seq::empty()
    } else {
        let r = without_file(ds.drop_last(), f);
        if ds.last().file_path != f {
            r.push(ds.last())
        } else {
            r
        }
    }
}

/// The usages in `us` that are not in file `f`, in order.
pub open spec fn usages_without_file(us: Seq<UsageView>, f: Seq<char>) -> Seq<UsageView>
    decreases us.len(),
{
    if us.len() == 0 {
        Seq::empty()
    } else {
        let r = usages_without_file(us.drop_last(), f);
        if us.last().file_path != f {
            r.push(us.last())
        } else {
            r
        }
    }
}

/// The usages in `us` recorded in file `f`, in order.
pub open spec fn usages_in(us: Seq<UsageView>, f: Seq<char>) -> Seq<UsageView>
    decreases us.len(),
{
    if us.len() == 0 {
        Seq::empty()
    } else {
        let r = usages_in(us.drop_last(), f);
        if us.last().file_path == f {
            r.push(us.last())
        } else {
            r
        }
    }
}

/// The names listed for file `f`: those of its first entry in `fs`, if any.
pub open spec fn names_for(fs: Seq<(Seq<char>, Seq<Seq<char>>)>, f: Seq<char>, i: int) -> Seq<Seq<char>>
    decreases fs.len() - i,
{
    if i < 0 || i >= fs.len() {
        Seq::empty()
    } else if fs[i].0 == f {
        fs[i].1
    } else {
        names_for(fs, f, i + 1)
    }
}

/// The undeclared-fixture records of `us` in file `f`, in order.
pub open spec fn undeclared_in(us: Seq<UndeclaredView>, f: Seq<char>) -> Seq<UndeclaredView>
    decreases us.len(),
{
    if us.len() == 0 {
        Seq::empty()
    } else {
        let r = undeclared_in(us.drop_last(), f);
        if us.last().file_path == f {
            r.push(us.last())
        } else {
            r
        }
    }
}

/// The usages in `us` of fixture `n`, in order.
pub open spec fn usages_named(us: Seq<UsageView>, n: Seq<char>) -> Seq<UsageView>
    decreases us.len(),
{
    if us.len() == 0 {
        Seq::empty()
    } else {
        let r = usages_named(us.drop_last(), n);
        if us.last().name == n {
            r.push(us.last())
        } else {
            r
        }
    }
}

/// The files among `fs` whose names include `n`, in order.
pub open spec fn files_listing(fs: Seq<(Seq<char>, Seq<Seq<char>>)>, n: Seq<char>) -> Seq<Seq<char>>
    decreases fs.len(),
{
    if fs.len() == 0 {
        Seq::empty()
    } else {
        let r = files_listing(fs.drop_last(), n);
        if fs.last().1.contains(n) {
            r.push(fs.last().0)
        } else {
            r
        }
    }
}

/// The index of the first definition in `ds`, from index `i` on, at line
/// `line` of file `f`, if any.
pub open spec fn first_at_line_from(ds: Seq<DefinitionView>, f: Seq<char>, line: usize, i: int) -> Option<int>
    decreases ds.len() - i,
{
    if i < 0 || i >= ds.len() {
        None
    } else if ds[i].file_path == f && ds[i].line == line {
        Some(i)
    } else {
        first_at_line_from(ds, f, line, i + 1)
    }
}

/// The index of the first definition in `ds` at line `line` of file `f`, if any.
pub open spec fn first_at_line(ds: Seq<DefinitionView>, f: Seq<char>, line: usize) -> Option<int> {
    first_at_line_from(ds, f, line, 0)
}

pub proof fn lemma_first_at_line_from(ds: Seq<DefinitionView>, f: Seq<char>, line: usize, i: int)
    requires
        0 <= i,
    ensures
        match first_at_line_from(ds, f, line, i) {
            Some(k) => i <= k < ds.len() && ds[k].file_path == f && ds[k].line == line,
            None => true,
        },
    decreases ds.len() - i,
{
    if i < ds.len() && !(ds[i].file_path == f && ds[i].line == line) {
        lemma_first_at_line_from(ds, f, line, i + 1);
    }
}

/// The definition a usage resolves to: a usage on the line of a definition of the
/// same name (a fixture overriding its parent) skips that definition.
pub open spec fn resolve_usage(
    ds: Seq<DefinitionView>,
    u: UsageView,
    fi: Seq<(Seq<char>, Seq<Seq<char>>)>,
) -> Option<DefinitionView> {
    let nd = named(ds, u.name);
    let imp = files_listing(fi, u.name);
    let excl = match first_at_line(ds, u.file_path, u.line) {
        Some(i) => if ds[i].name == u.name {
            Some(ds[i])
        } else {
            None
        },
        None => None,
    };
    match closest(nd, u.file_path, excl, imp) {
        Some(i) => Some(nd[i]),
        None => None,
    }
}

/// The usages among `us` that resolve to definition `d`, in order.
pub open spec fn resolving_to(
    us: Seq<UsageView>,
    ds: Seq<DefinitionView>,
    fi: Seq<(Seq<char>, Seq<Seq<char>>)>,
    d: DefinitionView,
) -> Seq<UsageView>
    decreases us.len(),
{
    if us.len() == 0 {
        Seq::empty()
    } else {
        let r = resolving_to(us.drop_last(), ds, fi, d);
        if resolve_usage(ds, us.last(), fi) == Some(d) {
            r.push(us.last())
        } else {
            r
        }
    }
}

/// The pick, among the definitions `ds` of one name, that completion offers in
/// file `f`: the first in the same file, else the closest conftest (defining or
/// importing it), else the first plugin fixture, else the first third-party one.
pub open spec fn available_pick(ds: Seq<DefinitionView>, f: Seq<char>, imp: Seq<Seq<char>>) -> Option<
    int,
> {
    match first_index(ds, Pick::InFile(f), None) {
        Some(i) => Some(i),
        None => {
            let c = match parent(f) {
                Some(d) => conftest_pick(ds, d, None, imp),
                None => None,
            };
            match c {
                Some(i) => Some(i),
                None => match first_index(ds, Pick::Plugin, None) {
                    Some(i) => Some(i),
                    None => first_index(ds, Pick::ThirdParty, None),
                },
            }
        },
    }
}

/// The definition of fixture `n` that completion offers in file `f`.
pub open spec fn available_for(
    ds: Seq<DefinitionView>,
    fi: Seq<(Seq<char>, Seq<Seq<char>>)>,
    f: Seq<char>,
    n: Seq<char>,
) -> Option<DefinitionView> {
    match available_pick(named(ds, n), f, files_listing(fi, n)) {
        Some(i) => Some(named(ds, n)[i]),
        None => None,
    }
}

/// The names of the definitions in `v`.
pub open spec fn def_names(v: Seq<FixtureDefinition>) -> Seq<Seq<char>> {
    v.map_values(|d: FixtureDefinition| d.name@)
}

/// The index, among `defs` (the definitions of one fixture name), of the
/// definition that completion offers in file `f`.
pub fn available_index(defs: &[FixtureDefinition], f: &[char], importing_conftests: &[String]) -> (r:
    Option<usize>)
    ensures
        match r {
            Some(i) => available_pick(def_views(defs@), f@, string_views(importing_conftests@))
                == Some(i as int) && i < defs@.len(),
            None => available_pick(def_views(defs@), f@, string_views(importing_conftests@)) is None,
        },
{
    let fv = slice_range(f, 0, f.len());
    assert(fv@ =~= f@);
    let in_file = PickExec::InFile(fv);
    if let Some(i) = first_picked(defs, &in_file, None) {
        return Some(i);
    }
    let c = match parent_of(f) {
        Some(d) => find_conftest_index(defs, d, None, importing_conftests),
        None => None,
    };
    if let Some(i) = c {
        return Some(i);
    }
    if let Some(i) = first_picked(defs, &PickExec::Plugin, None) {
        return Some(i);
    }
    first_picked(defs, &PickExec::ThirdParty, None)
}

/// Inserts `d` into `v`, whose names are strictly sorted and do not include
/// `d`'s name, at the place that keeps them sorted; returns that place.
fn insert_by_name(v: &mut Vec<FixtureDefinition>, d: FixtureDefinition) -> (p: usize)
    requires
        strictly_sorted(def_names(old(v)@)),
        !def_names(old(v)@).contains(d.name@),
    ensures
        p <= old(v)@.len(),
        final(v)@ == old(v)@.insert(p as int, d),
        strictly_sorted(def_names(final(v)@)),
{
    let ghost names = def_names(v@);
    let dn = chars_of(d.name.as_str());
    let mut p: usize = 0;
    while p < v.len()
        invariant
            p <= v@.len(),
            names == def_names(v@),
            dn@ == d.name@,
            strictly_sorted(names),
            !names.contains(d.name@),
            forall|k: int| 0 <= k < p ==> seq_lt(#[trigger] names[k], d.name@),
        ensures
            p < v@.len() ==> seq_lt(d.name@, names[p as int]),
        decreases v@.len() - p,
    {
        let vn = chars_of(v[p].name.as_str());
        assert(names[p as int] == vn@);
        if chars_lt(&dn, &vn) {
            break;
        }
        proof {
            lemma_trichotomy(vn@, dn@);
            assert(names.contains(names[p as int]));
        }
        p = p + 1;
    }
    let ghost before = v@;
    v.insert(p, d);
    proof {
        let after = def_names(v@);
        assert(after =~= names.insert(p as int, d.name@));
        assert forall|k: int| 0 <= k < after.len() - 1 implies seq_lt(#[trigger] after[k], after[k + 1]) by {
            if k < p as int - 1 {
                assert(after[k] == names[k] && after[k + 1] == names[k + 1]);
            } else if k == p as int - 1 {
                assert(after[k + 1] == d.name@);
            } else if k == p as int {
                assert(after[k + 1] == names[p as int]);
                if p < names.len() {
                    let vn = names[p as int];
                    assert(seq_lt(d.name@, vn));
                }
            } else {
                assert(after[k] == names[k - 1] && after[k + 1] == names[k]);
            }
        }
    }
    p
}

/// No conftest pick among no definitions.
pub proof fn lemma_conftest_pick_empty(dir: Seq<char>, imp: Seq<Seq<char>>)
    ensures
        conftest_pick(Seq::<DefinitionView>::empty(), dir, None, imp) is None,
    decreases dir.len(),
{
    let e = Seq::<DefinitionView>::empty();
    assert(first_index(e, Pick::InFile(crate::paths::join(dir, crate::paths::conftest_name())), None) is None);
    assert(first_index(e, Pick::Any, None) is None);
    match parent(dir) {
        Some(p) => {
            crate::paths::lemma_parent_shorter(dir);
            lemma_conftest_pick_empty(p, imp);
        },
        None => {},
    }
}

/// A name that some definition has.
pub proof fn lemma_named_nonempty(ds: Seq<DefinitionView>, n: Seq<char>)
    requires
        named(ds, n).len() > 0,
    ensures
        exists|j: int| 0 <= j < ds.len() && (#[trigger] ds[j]).name == n,
    decreases ds.len(),
{
    if ds.last().name == n {
        assert(ds[ds.len() - 1].name == n);
    } else {
        lemma_named_nonempty(ds.drop_last(), n);
        let j = choose|j: int| 0 <= j < ds.drop_last().len() && (#[trigger] ds.drop_last()[j]).name == n;
        assert(ds[j] == ds.drop_last()[j]);
    }
}

/// Completion offers no definition of a name that no definition has.
pub proof fn lemma_available_needs_definition(
    ds: Seq<DefinitionView>,
    fi: Seq<(Seq<char>, Seq<Seq<char>>)>,
    f: Seq<char>,
    n: Seq<char>,
)
    requires
        available_for(ds, fi, f, n) is Some,
    ensures
        exists|j: int| 0 <= j < ds.len() && (#[trigger] ds[j]).name == n,
{
    let nd = named(ds, n);
    if nd.len() == 0 {
        let e = Seq::<DefinitionView>::empty();
        assert(nd =~= e);
        assert(first_index(e, Pick::InFile(f), None) is None);
        assert(first_index(e, Pick::Plugin, None) is None);
        assert(first_index(e, Pick::ThirdParty, None) is None);
        match parent(f) {
            Some(d) => lemma_conftest_pick_empty(d, files_listing(fi, n)),
            None => {},
        }
        assert(available_pick(nd, f, files_listing(fi, n)) is None);
    } else {
        lemma_named_nonempty(ds, n);
    }
}

pub proof fn lemma_push_contains(s: Seq<Seq<char>>, x: Seq<char>)
    ensures
        s.push(x).contains(x),
        forall|y: Seq<char>| s.contains(y) ==> #[trigger] s.push(x).contains(y),
{
    assert(s.push(x)[s.len() as int] == x);
    assert forall|y: Seq<char>| s.contains(y) implies #[trigger] s.push(x).contains(y) by {
        let k = choose|k: int| 0 <= k < s.len() && s[k] == y;
        assert(s.push(x)[k] == y);
    }
}

pub proof fn lemma_named_names(ds: Seq<DefinitionView>, n: Seq<char>)
    ensures
        forall|k: int| 0 <= k < named(ds, n).len() ==> (#[trigger] named(ds, n)[k]).name == n,
        named(ds, n).len() <= ds.len(),
    decreases ds.len(),
{
    if ds.len() > 0 {
        lemma_named_names(ds.drop_last(), n);
    }
}

/// All the fixtures the analyzer found.
#[derive(Debug)]
pub struct FixtureDatabase {
    /// Every definition, in the order it was recorded.
    pub definitions: Vec<FixtureDefinition>,
    /// Every usage, in the order it was recorded.
    pub usages: Vec<FixtureUsage>,
    /// Fixture names used in function bodies without being declared.
    pub undeclared_fixtures: Vec<UndeclaredFixture>,
    /// For each analyzed file, the names bound at module level (imports,
    /// assignments, classes, functions that are not fixtures).
    pub imports: Vec<FileNames>,
    /// For each analyzed file, the fixtures it imports from other modules.
    pub fixture_imports: Vec<FileNames>,
    /// The packages installed in editable mode in the environment scanned.
    pub editable_install_roots: Vec<crate::types::EditableInstall>,
    /// The root of the workspace scanned, once known.
    pub workspace_root: Option<String>,
}

impl FixtureDatabase {
    pub open spec fn defs(&self) -> Seq<DefinitionView> {
        def_views(self.definitions@)
    }

    pub open spec fn uses(&self) -> Seq<UsageView> {
        usage_views(self.usages@)
    }

    pub open spec fn module_names(&self) -> Seq<(Seq<char>, Seq<Seq<char>>)> {
        file_names_views(self.imports@)
    }

    pub open spec fn fimports(&self) -> Seq<(Seq<char>, Seq<Seq<char>>)> {
        file_names_views(self.fixture_imports@)
    }

    pub fn new() -> (db: FixtureDatabase)
        ensures
            db.defs().len() == 0,
            db.uses().len() == 0,
            db.fimports().len() == 0,
            db.undeclared_fixtures@.len() == 0,
            db.imports@.len() == 0,
    {
        FixtureDatabase {
            definitions: Vec::new(),
            usages: Vec::new(),
            undeclared_fixtures: Vec::new(),
            imports: Vec::new(),
            fixture_imports: Vec::new(),
            editable_install_roots: Vec::new(),
            workspace_root: None,
        }
    }

    /// Records a definition.
    pub fn record_fixture_definition(&mut self, definition: FixtureDefinition)
        ensures
            final(self).defs() == old(self).defs().push(definition@),
            final(self).uses() == old(self).uses(),
            final(self).fimports() == old(self).fimports(),
            final(self).imports == old(self).imports,
            final(self).undeclared_fixtures == old(self).undeclared_fixtures,
    {
        let ghost d = definition@;
        self.definitions.push(definition);
        assert(self.defs() =~= old(self).defs().push(d));
    }

    /// Records a usage.
    pub fn record_fixture_usage(&mut self, usage: FixtureUsage)
        ensures
            final(self).uses() == old(self).uses().push(usage@),
            final(self).defs() == old(self).defs(),
            final(self).fimports() == old(self).fimports(),
            final(self).imports == old(self).imports,
            final(self).undeclared_fixtures == old(self).undeclared_fixtures,
    {
        let ghost u = usage@;
        self.usages.push(usage);
        assert(self.uses() =~= old(self).uses().push(u));
    }

    /// Removes every definition recorded for file `file_path`.
    pub fn cleanup_definitions_for_file(&mut self, file_path: &str)
        ensures
            final(self).defs() == without_file(old(self).defs(), file_path@),
            final(self).uses() == old(self).uses(),
            final(self).fimports() == old(self).fimports(),
            final(self).module_names() == old(self).module_names(),
            final(self).undeclared_fixtures@ == old(self).undeclared_fixtures@,
    {
        let f = chars_of(file_path);
        let mut old_defs: Vec<FixtureDefinition> = Vec::new();
        std::mem::swap(&mut old_defs, &mut self.definitions);
        let ghost ds = def_views(old_defs@);
        let mut kept: Vec<FixtureDefinition> = Vec::new();
        let rest = old_defs;
        let mut i: usize = 0;
        let n = rest.len();
        while i < n
            invariant
                n == rest@.len(),
                i <= n,
                ds == def_views(rest@),
                def_views(kept@) == without_file(ds.take(i as int), f@),
            decreases n - i,
        {
            let fp = chars_of(rest[i].file_path.as_str());
            let d = rest[i].duplicate();
            assert(ds.take(i + 1).drop_last() =~= ds.take(i as int));
            assert(ds.take(i + 1).last() == d@);
            if !chars_eq(&fp, &f) {
                let ghost before = kept@;
                kept.push(d);
                assert(def_views(kept@) =~= def_views(before).push(d@));
            }
            i = i + 1;
        }
        assert(ds.take(n as int) =~= ds);
        self.definitions = kept;
    }

    /// Removes every usage recorded for file `file_path`.
    pub fn cleanup_usages_for_file(&mut self, file_path: &str)
        ensures
            final(self).uses() == usages_without_file(old(self).uses(), file_path@),
            final(self).defs() == old(self).defs(),
            final(self).fimports() == old(self).fimports(),
            final(self).module_names() == old(self).module_names(),
            final(self).undeclared_fixtures@ == old(self).undeclared_fixtures@,
    {
        let f = chars_of(file_path);
        let mut old_uses: Vec<FixtureUsage> = Vec::new();
        std::mem::swap(&mut old_uses, &mut self.usages);
        let ghost us = usage_views(old_uses@);
        let mut kept: Vec<FixtureUsage> = Vec::new();
        let rest = old_uses;
        let mut i: usize = 0;
        let n = rest.len();
        while i < n
            invariant
                n == rest@.len(),
                i <= n,
                us == usage_views(rest@),
                usage_views(kept@) == usages_without_file(us.take(i as int), f@),
            decreases n - i,
        {
            let fp = chars_of(rest[i].file_path.as_str());
            let u = rest[i].duplicate();
            assert(us.take(i + 1).drop_last() =~= us.take(i as int));
            assert(us.take(i + 1).last() == u@);
            if !chars_eq(&fp, &f) {
                let ghost before = kept@;
                kept.push(u);
                assert(usage_views(kept@) =~= usage_views(before).push(u@));
            }
            i = i + 1;
        }
        assert(us.take(n as int) =~= us);
        self.usages = kept;
    }

    /// The definitions of fixture `name`, in the order they were recorded.
    pub fn definitions_named(&self, name: &str) -> (r: Vec<FixtureDefinition>)
        ensures
            def_views(r@) == named(self.defs(), name@),
    {
        let nm = chars_of(name);
        let ghost ds = self.defs();
        let mut r: Vec<FixtureDefinition> = Vec::new();
        let mut i: usize = 0;
        while i < self.definitions.len()
            invariant
                i <= ds.len(),
                ds == self.defs(),
                def_views(r@) == named(ds.take(i as int), nm@),
            decreases ds.len() - i,
        {
            let d = &self.definitions[i];
            assert(ds.take(i + 1).drop_last() =~= ds.take(i as int));
            assert(ds.take(i + 1).last() == d@);
            let dn = chars_of(d.name.as_str());
            if chars_eq(&dn, &nm) {
                let ghost before = r@;
                r.push(d.duplicate());
                assert(def_views(r@) =~= def_views(before).push(d@));
            }
            i = i + 1;
        }
        assert(ds.take(ds.len() as int) =~= ds);
        r
    }

    /// The files that import fixture `name` from another module.
    pub fn importing_files(&self, name: &str) -> (r: Vec<String>)
        ensures
            string_views(r@) == files_listing(self.fimports(), name@),
    {
        let nm = chars_of(name);
        let ghost fs = self.fimports();
        let mut r: Vec<String> = Vec::new();
        let mut i: usize = 0;
        while i < self.fixture_imports.len()
            invariant
                i <= fs.len(),
                fs == self.fimports(),
                string_views(r@) == files_listing(fs.take(i as int), nm@),
            decreases fs.len() - i,
        {
            let e = &self.fixture_imports[i];
            assert(fs.take(i + 1).drop_last() =~= fs.take(i as int));
            assert(fs.take(i + 1).last() == (e.file_path@, string_views(e.names@)));
            if contains_path(&e.names, &nm) {
                let ghost before = r@;
                r.push(e.file_path.clone());
                assert(string_views(r@) =~= string_views(before).push(e.file_path@));
            }
            i = i + 1;
        }
        assert(fs.take(fs.len() as int) =~= fs);
        r
    }

    /// The definition of `fixture_name` that a usage in `file_path` resolves to,
    /// leaving out `exclude`.
    pub fn find_closest_definition_excluding(
        &self,
        file_path: &str,
        fixture_name: &str,
        exclude: Option<&FixtureDefinition>,
    ) -> (r: Option<FixtureDefinition>)
        ensures
            match closest(
                named(self.defs(), fixture_name@),
                file_path@,
                excl_view(exclude),
                files_listing(self.fimports(), fixture_name@),
            ) {
                Some(i) => r is Some && r->0@ == named(self.defs(), fixture_name@)[i],
                None => r is None,
            },
    {
        let defs = self.definitions_named(fixture_name);
        let imp = self.importing_files(fixture_name);
        match find_closest_index(&defs, file_path, exclude, &imp) {
            Some(i) => {
                assert(def_views(defs@)[i as int] == defs@[i as int]@);
                Some(defs[i].duplicate())
            },
            None => None,
        }
    }

    /// The definition of `fixture_name` that a usage in `file_path` resolves to.
    pub fn find_closest_definition(&self, file_path: &str, fixture_name: &str) -> (r: Option<
        FixtureDefinition,
    >)
        ensures
            match closest(
                named(self.defs(), fixture_name@),
                file_path@,
                None,
                files_listing(self.fimports(), fixture_name@),
            ) {
                Some(i) => r is Some && r->0@ == named(self.defs(), fixture_name@)[i],
                None => r is None,
            },
    {
        self.find_closest_definition_excluding(file_path, fixture_name, None)
    }

    /// The first definition (of any name) recorded at line `line` of `file_path`.
    pub fn get_fixture_definition_at_line(&self, file_path: &str, line: usize) -> (r: Option<
        FixtureDefinition,
    >)
        ensures
            match first_at_line(self.defs(), file_path@, line) {
                Some(i) => r is Some && r->0@ == self.defs()[i],
                None => r is None,
            },
    {
        let f = chars_of(file_path);
        let ghost ds = self.defs();
        let mut i: usize = 0;
        while i < self.definitions.len()
            invariant
                i <= ds.len(),
                ds == self.defs(),
                f@ == file_path@,
                first_at_line(ds, f@, line) == first_at_line_from(ds, f@, line, i as int),
            decreases ds.len() - i,
        {
            let d = &self.definitions[i];
            assert(ds[i as int] == d@);
            let fp = chars_of(d.file_path.as_str());
            if chars_eq(&fp, &f) && d.line == line {
                return Some(d.duplicate());
            }
            i = i + 1;
        }
        None
    }

    /// The definition of `fixture_name` recorded at line `line` of `file_path`.
    pub fn get_definition_at_line(&self, file_path: &str, line: usize, fixture_name: &str) -> (r:
        Option<FixtureDefinition>)
        ensures
            match first_at_line(named(self.defs(), fixture_name@), file_path@, line) {
                Some(i) => r is Some && r->0@ == named(self.defs(), fixture_name@)[i],
                None => r is None,
            },
    {
        let defs = self.definitions_named(fixture_name);
        let f = chars_of(file_path);
        let ghost ds = def_views(defs@);
        let mut i: usize = 0;
        while i < defs.len()
            invariant
                i <= ds.len(),
                ds == def_views(defs@),
                ds == named(self.defs(), fixture_name@),
                f@ == file_path@,
                first_at_line(ds, f@, line) == first_at_line_from(ds, f@, line, i as int),
            decreases ds.len() - i,
        {
            let d = &defs[i];
            assert(ds[i as int] == d@);
            let fp = chars_of(d.file_path.as_str());
            if chars_eq(&fp, &f) && d.line == line {
                return Some(d.duplicate());
            }
            i = i + 1;
        }
        None
    }

    /// Every usage of fixture `fixture_name`, in the order recorded.
    pub fn find_fixture_references(&self, fixture_name: &str) -> (r: Vec<FixtureUsage>)
        ensures
            usage_views(r@) == usages_named(self.uses(), fixture_name@),
    {
        let nm = chars_of(fixture_name);
        let ghost us = self.uses();
        let mut r: Vec<FixtureUsage> = Vec::new();
        let mut i: usize = 0;
        while i < self.usages.len()
            invariant
                i <= us.len(),
                us == self.uses(),
                usage_views(r@) == usages_named(us.take(i as int), nm@),
            decreases us.len() - i,
        {
            let u = &self.usages[i];
            assert(us.take(i + 1).drop_last() =~= us.take(i as int));
            assert(us.take(i + 1).last() == u@);
            let un = chars_of(u.name.as_str());
            if chars_eq(&un, &nm) {
                let ghost before = r@;
                r.push(u.duplicate());
                assert(usage_views(r@) =~= usage_views(before).push(u@));
            }
            i = i + 1;
        }
        assert(us.take(us.len() as int) =~= us);
        r
    }

    /// The definition that usage `u` resolves to.
    pub fn resolve_usage(&self, u: &FixtureUsage) -> (r: Option<FixtureDefinition>)
        ensures
            match resolve_usage(self.defs(), u@, self.fimports()) {
                Some(d) => r is Some && r->0@ == d,
                None => r is None,
            },
    {
        let at_line = self.get_fixture_definition_at_line(u.file_path.as_str(), u.line);
        match at_line {
            Some(cur) => {
                let cn = chars_of(cur.name.as_str());
                let un = chars_of(u.name.as_str());
                if chars_eq(&cn, &un) {
                    self.find_closest_definition_excluding(
                        u.file_path.as_str(),
                        u.name.as_str(),
                        Some(&cur),
                    )
                } else {
                    self.find_closest_definition(u.file_path.as_str(), u.name.as_str())
                }
            },
            None => self.find_closest_definition(u.file_path.as_str(), u.name.as_str()),
        }
    }

    /// Every usage that resolves to `definition`, in the order recorded.
    pub fn find_references_for_definition(&self, definition: &FixtureDefinition) -> (r: Vec<
        FixtureUsage,
    >)
        ensures
            usage_views(r@) == resolving_to(
                usages_named(self.uses(), definition@.name),
                self.defs(),
                self.fimports(),
                definition@,
            ),
            forall|k: int|
                0 <= k < r@.len() ==> resolve_usage(self.defs(), #[trigger] r@[k]@, self.fimports())
                    == Some(definition@),
            forall|k: int|
                0 <= k < r@.len() ==> usages_named(self.uses(), definition@.name).contains(
                    #[trigger] r@[k]@,
                ),
            forall|u: UsageView|
                #![trigger usages_named(self.uses(), definition@.name).contains(u)]
                usages_named(self.uses(), definition@.name).contains(u) && resolve_usage(
                    self.defs(),
                    u,
                    self.fimports(),
                ) == Some(definition@) ==> usage_views(r@).contains(u),
    {
        let candidates = self.find_fixture_references(definition.name.as_str());
        let ghost cs = usage_views(candidates@);
        let mut r: Vec<FixtureUsage> = Vec::new();
        let mut i: usize = 0;
        while i < candidates.len()
            invariant
                i <= cs.len(),
                cs == usage_views(candidates@),
                cs == usages_named(self.uses(), definition@.name),
                usage_views(r@) == resolving_to(cs.take(i as int), self.defs(), self.fimports(), definition@),
                forall|k: int|
                    0 <= k < r@.len() ==> resolve_usage(self.defs(), #[trigger] r@[k]@, self.fimports())
                        == Some(definition@),
                forall|k: int| 0 <= k < r@.len() ==> cs.contains(#[trigger] r@[k]@),
                forall|j: int|
                    0 <= j < i && resolve_usage(self.defs(), #[trigger] cs[j], self.fimports())
                        == Some(definition@) ==> usage_views(r@).contains(cs[j]),
            decreases cs.len() - i,
        {
            let u = &candidates[i];
            assert(cs[i as int] == u@);
            assert(cs.take(i + 1).drop_last() =~= cs.take(i as int));
            assert(cs.take(i + 1).last() == u@);
            let resolved = self.resolve_usage(u);
            let hit = match &resolved {
                Some(d) => d.same_as(definition),
                None => false,
            };
            if hit {
                let ghost before = r@;
                r.push(u.duplicate());
                proof {
                    assert(usage_views(r@) =~= usage_views(before).push(u@));
                    assert(r@[r@.len() - 1]@ == cs[i as int]);
                    assert forall|j: int|
                        0 <= j < i + 1 && resolve_usage(self.defs(), #[trigger] cs[j], self.fimports())
                            == Some(definition@) implies usage_views(r@).contains(cs[j]) by {
                        if j < i {
                            let k = choose|k: int|
                                0 <= k < usage_views(before).len() && usage_views(before)[k] == cs[j];
                            assert(usage_views(r@)[k] == cs[j]);
                        } else {
                            assert(usage_views(r@)[r@.len() - 1] == cs[j]);
                        }
                    }
                }
            } else {
                proof {
                    assert forall|j: int|
                        0 <= j < i + 1 && resolve_usage(self.defs(), #[trigger] cs[j], self.fimports())
                            == Some(definition@) implies usage_views(r@).contains(cs[j]) by {
                        if j == i {
                            assert(resolve_usage(self.defs(), cs[j], self.fimports()) != Some(
                                definition@,
                            ));
                        }
                    }
                }
            }
            i = i + 1;
        }
        assert(cs.take(cs.len() as int) =~= cs);
        r
    }

    /// The fixtures a test in `file_path` can use, one per name, sorted by name:
    /// for each name, the definition in the same file, else the one in the
    /// closest `conftest.py` (defined or imported there), else a plugin
    /// fixture, else a third-party one.
    pub fn get_available_fixtures(&self, file_path: &str) -> (r: Vec<FixtureDefinition>)
        ensures
            strictly_sorted(def_names(r@)),
            forall|k: int|
                0 <= k < r@.len() ==> available_for(
                    self.defs(),
                    self.fimports(),
                    file_path@,
                    (#[trigger] r@[k]).name@,
                ) == Some(r@[k]@),
            forall|n: Seq<char>|
                (#[trigger] available_for(self.defs(), self.fimports(), file_path@, n)) is Some
                    ==> def_names(r@).contains(n),
    {
        let f = chars_of(file_path);
        let ghost ds = self.defs();
        let ghost fi = self.fimports();
        let mut seen: Vec<String> = Vec::new();
        let mut r: Vec<FixtureDefinition> = Vec::new();
        let mut i: usize = 0;
        while i < self.definitions.len()
            invariant
                i <= ds.len(),
                ds == self.defs(),
                fi == self.fimports(),
                f@ == file_path@,
                strictly_sorted(def_names(r@)),
                forall|k: int|
                    0 <= k < r@.len() ==> available_for(ds, fi, f@, (#[trigger] r@[k]).name@) == Some(
                        r@[k]@,
                    ),
                forall|k: int| 0 <= k < r@.len() ==> string_views(seen@).contains((#[trigger] r@[k]).name@),
                forall|n: Seq<char>|
                    string_views(seen@).contains(n) && (#[trigger] available_for(ds, fi, f@, n)) is Some
                        ==> def_names(r@).contains(n),
                forall|j: int| 0 <= j < i ==> string_views(seen@).contains((#[trigger] ds[j]).name),
            decreases ds.len() - i,
        {
            let name = &self.definitions[i].name;
            assert(ds[i as int].name == name@);
            let nm = chars_of(name.as_str());
            if !contains_path(&seen, &nm) {
                let ghost seen_before = string_views(seen@);
                seen.push(name.clone());
                assert(string_views(seen@) =~= seen_before.push(name@));
                proof {
                    lemma_push_contains(seen_before, name@);
                }
                let defs = self.definitions_named(name.as_str());
                let imp = self.importing_files(name.as_str());
                match available_index(&defs, &f, &imp) {
                    Some(j) => {
                        let d = defs[j].duplicate();
                        proof {
                            assert(def_views(defs@)[j as int] == defs@[j as int]@);
                            lemma_named_names(ds, name@);
                            assert(named(ds, name@)[j as int].name == name@);
                            assert(d.name@ == name@);
                            assert(available_for(ds, fi, f@, name@) == Some(d@));
                            if def_names(r@).contains(name@) {
                                let k = choose|k: int| 0 <= k < def_names(r@).len() && def_names(r@)[k] == name@;
                                assert(def_names(r@)[k] == r@[k].name@);
                                assert(seen_before.contains(r@[k].name@));
                                assert(false);
                            }
                        }
                        let ghost before = r@;
                        let p = insert_by_name(&mut r, d);
                        proof {
                            assert forall|k: int| 0 <= k < r@.len() implies available_for(
                                ds,
                                fi,
                                f@,
                                (#[trigger] r@[k]).name@,
                            ) == Some(r@[k]@) && string_views(seen@).contains(r@[k].name@) by {
                                if k < p {
                                    assert(r@[k] == before[k]);
                                } else if k > p {
                                    assert(r@[k] == before[k - 1]);
                                }
                            }
                            assert forall|n: Seq<char>|
                                string_views(seen@).contains(n) && (#[trigger] available_for(
                                    ds,
                                    fi,
                                    f@,
                                    n,
                                )) is Some implies def_names(r@).contains(n) by {
                                if n == name@ {
                                    assert(def_names(r@)[p as int] == n);
                                } else {
                                    assert(seen_before.contains(n));
                                    let k = choose|k: int|
                                        0 <= k < def_names(before).len() && def_names(before)[k] == n;
                                    if k < p {
                                        assert(def_names(r@)[k] == n);
                                    } else {
                                        assert(def_names(r@)[k + 1] == n);
                                    }
                                }
                            }
                        }
                    },
                    None => {
                        assert(available_for(ds, fi, f@, name@) is None);
                        proof {
                            assert forall|k: int| 0 <= k < r@.len() implies string_views(seen@).contains(
                                (#[trigger] r@[k]).name@,
                            ) by {
                                assert(seen_before.contains(r@[k].name@));
                            }
                        }
                    },
                }
                proof {
                    assert forall|j: int| 0 <= j < i + 1 implies string_views(seen@).contains(
                        (#[trigger] ds[j]).name,
                    ) by {
                        if j < i {
                            assert(seen_before.contains(ds[j].name));
                        } else {
                            assert(string_views(seen@)[seen_before.len() as int] == name@);
                        }
                    }
                }
            }
            i = i + 1;
        }
        proof {
            assert forall|n: Seq<char>|
                (#[trigger] available_for(ds, fi, f@, n)) is Some implies def_names(r@).contains(n) by {
                lemma_available_needs_definition(ds, fi, f@, n);
                let j = choose|j: int| 0 <= j < ds.len() && (#[trigger] ds[j]).name == n;
                assert(string_views(seen@).contains(ds[j].name));
            }
        }
        r
    }

    /// Undeclared fixture usages recorded for `file_path`, in the order recorded.
    pub fn get_undeclared_fixtures(&self, file_path: &str) -> (r: Vec<UndeclaredFixture>)
        ensures
            undeclared_views(r@) == undeclared_in(undeclared_views(self.undeclared_fixtures@), file_path@),
    {
        let f = chars_of(file_path);
        let ghost all = undeclared_views(self.undeclared_fixtures@);
        let mut r: Vec<UndeclaredFixture> = Vec::new();
        let mut i: usize = 0;
        while i < self.undeclared_fixtures.len()
            invariant
                i <= all.len(),
                all == undeclared_views(self.undeclared_fixtures@),
                f@ == file_path@,
                undeclared_views(r@) == undeclared_in(all.take(i as int), f@),
            decreases all.len() - i,
        {
            let u = &self.undeclared_fixtures[i];
            assert(all.take(i + 1).drop_last() =~= all.take(i as int));
            assert(all.take(i + 1).last() == u@);
            let fp = chars_of(u.file_path.as_str());
            if chars_eq(&fp, &f) {
                let ghost before = undeclared_views(r@);
                r.push(u.duplicate());
                assert(undeclared_views(r@) =~= before.push(u@));
            }
            i = i + 1;
        }
        assert(all.take(all.len() as int) =~= all);
        r
    }

    /// The usages recorded for `file_path`, in the order recorded.
    pub fn usages_for_file(&self, file_path: &str) -> (r: Vec<FixtureUsage>)
        ensures
            usage_views(r@) == usages_in(self.uses(), file_path@),
    {
        let f = chars_of(file_path);
        let ghost us = self.uses();
        let mut r: Vec<FixtureUsage> = Vec::new();
        let mut i: usize = 0;
        while i < self.usages.len()
            invariant
                i <= us.len(),
                us == self.uses(),
                f@ == file_path@,
                usage_views(r@) == usages_in(us.take(i as int), f@),
            decreases us.len() - i,
        {
            let u = &self.usages[i];
            assert(us.take(i + 1).drop_last() =~= us.take(i as int));
            assert(us.take(i + 1).last() == u@);
            let fp = chars_of(u.file_path.as_str());
            if chars_eq(&fp, &f) {
                let ghost before = usage_views(r@);
                r.push(u.duplicate());
                assert(usage_views(r@) =~= before.push(u@));
            }
            i = i + 1;
        }
        assert(us.take(us.len() as int) =~= us);
        r
    }

    /// The module-level names recorded for `file_path` (imports, assignments,
    /// classes and functions other than fixtures).
    pub fn imports_for_file(&self, file_path: &str) -> (r: Vec<String>)
        ensures
            string_views(r@) == names_for(self.module_names(), file_path@, 0),
    {
        let f = chars_of(file_path);
        let ghost fs = self.module_names();
        let mut i: usize = 0;
        while i < self.imports.len()
            invariant
                i <= fs.len(),
                fs == self.module_names(),
                f@ == file_path@,
                names_for(fs, f@, 0) == names_for(fs, f@, i as int),
            decreases fs.len() - i,
        {
            let e = &self.imports[i];
            assert(fs[i as int] == (e.file_path@, string_views(e.names@)));
            let fp = chars_of(e.file_path.as_str());
            if chars_eq(&fp, &f) {
                return crate::types::duplicate_strings(e.names.as_slice());
            }
            i = i + 1;
        }
        let r: Vec<String> = Vec::new();
        assert(string_views(r@) =~= Seq::<Seq<char>>::empty());
        r
    }
}

} // verus!
