//! Which definition of a fixture a file sees: pytest's shadowing rules.
//!
//! 1. a definition in the same file (the one on the greatest line wins);
//! 2. the closest `conftest.py` in the directories above the file, either
//!    defining the fixture or importing it;
//! 3. a plugin fixture (pytest11 entry point) that is not third-party;
//! 4. a third-party fixture (site-packages).
use vstd::prelude::*;

use crate::paths::{conftest_name, join, join_name, parent, parent_of, lemma_parent_shorter};
use crate::text::{chars_eq, chars_of};
use crate::types::{def_views, string_views, DefinitionView, FixtureDefinition};

verus! {

/// Whether `d` passes the exclusion filter.
pub open spec fn passes(d: DefinitionView, excl: Option<DefinitionView>) -> bool {
    match excl {
        Some(e) => d != e,
        None => true,
    }
}

/// The tests by which a definition is picked at each priority level.
pub enum Pick {
    /// Defined in the given file and not excluded.
    InFile(Seq<char>),
    /// Not excluded.
    Any,
    /// A plugin fixture that is not third-party, and not excluded.
    Plugin,
    /// A third-party fixture, not excluded.
    ThirdParty,
}

pub open spec fn picks(k: Pick, d: DefinitionView, excl: Option<DefinitionView>) -> bool {
    passes(d, excl) && match k {
        Pick::InFile(f) => d.file_path == f,
        Pick::Any => true,
        Pick::Plugin => d.is_plugin && !d.is_third_party,
        Pick::ThirdParty => d.is_third_party,
    }
}

/// The first index of `ds` that `k` picks.
pub open spec fn first_index(ds: Seq<DefinitionView>, k: Pick, excl: Option<DefinitionView>) -> Option<
    int,
>
    decreases ds.len(),
{
    if ds.len() == 0 {
        None
    } else if picks(k, ds[0], excl) {
        Some(0)
    } else {
        match first_index(ds.drop_first(), k, excl) {
            Some(i) => Some(i + 1),
            None => None,
        }
    }
}

pub proof fn lemma_first_index(ds: Seq<DefinitionView>, k: Pick, excl: Option<DefinitionView>, i: int)
    requires
        0 <= i < ds.len(),
        picks(k, ds[i], excl),
        forall|j: int| 0 <= j < i ==> !picks(k, #[trigger] ds[j], excl),
    ensures
        first_index(ds, k, excl) == Some(i),
    decreases i,
{
    if i > 0 {
        let t = ds.drop_first();
        assert(!picks(k, ds[0], excl));
        assert forall|j: int| 0 <= j < i - 1 implies !picks(k, #[trigger] t[j], excl) by {
            assert(t[j] == ds[j + 1]);
        }
        lemma_first_index(t, k, excl, i - 1);
    }
}

pub proof fn lemma_first_index_none(ds: Seq<DefinitionView>, k: Pick, excl: Option<DefinitionView>)
    requires
        forall|j: int| 0 <= j < ds.len() ==> !picks(k, #[trigger] ds[j], excl),
    ensures
        first_index(ds, k, excl) is None,
    decreases ds.len(),
{
    if ds.len() > 0 {
        let t = ds.drop_first();
        assert forall|j: int| 0 <= j < t.len() implies !picks(k, #[trigger] t[j], excl) by {
            assert(t[j] == ds[j + 1]);
        }
        lemma_first_index_none(t, k, excl);
    }
}

/// Among the first `n` definitions, the last one in file `f` that passes the
/// filter and has the greatest line (`Iterator::max_by_key` keeps the last maximum).
pub open spec fn best_in_file(
    ds: Seq<DefinitionView>,
    f: Seq<char>,
    excl: Option<DefinitionView>,
    n: int,
) -> Option<int>
    decreases n,
{
    if n <= 0 {
        None
    } else {
        let prev = best_in_file(ds, f, excl, n - 1);
        let i = n - 1;
        if ds[i].file_path == f && passes(ds[i], excl) {
            match prev {
                Some(p) => if ds[i].line >= ds[p].line {
                    Some(i)
                } else {
                    Some(p)
                },
                None => Some(i),
            }
        } else {
            prev
        }
    }
}

/// The conftest search from directory `dir` upward: a definition in `dir/conftest.py`,
/// or, when that conftest imports the fixture, the first definition that passes.
pub open spec fn conftest_pick(
    ds: Seq<DefinitionView>,
    dir: Seq<char>,
    excl: Option<DefinitionView>,
    importing: Seq<Seq<char>>,
) -> Option<int>
    decreases dir.len(),
{
    let c = join(dir, conftest_name());
    match first_index(ds, Pick::InFile(c), excl) {
        Some(i) => Some(i),
        None => {
            let imported = if importing.contains(c) {
                first_index(ds, Pick::Any, excl)
            } else {
                None
            };
            match imported {
                Some(i) => Some(i),
                None => match parent(dir) {
                    Some(p) => {
                        proof {
                            lemma_parent_shorter(dir);
                        }
                        conftest_pick(ds, p, excl, importing)
                    },
                    None => None,
                },
            }
        },
    }
}

/// The definition (as an index into `ds`) that a usage in file `f` resolves to.
pub open spec fn closest(
    ds: Seq<DefinitionView>,
    f: Seq<char>,
    excl: Option<DefinitionView>,
    importing: Seq<Seq<char>>,
) -> Option<int> {
    match best_in_file(ds, f, excl, ds.len() as int) {
        Some(i) => Some(i),
        None => match parent(f) {
            None => None,
            Some(dir) => match conftest_pick(ds, dir, excl, importing) {
                Some(i) => Some(i),
                None => match first_index(ds, Pick::Plugin, excl) {
                    Some(i) => Some(i),
                    None => first_index(ds, Pick::ThirdParty, excl),
                },
            },
        },
    }
}

pub open spec fn excl_view(e: Option<&FixtureDefinition>) -> Option<DefinitionView> {
    match e {
        Some(d) => Some(d@),
        None => None,
    }
}

fn passes_exec(d: &FixtureDefinition, excl: Option<&FixtureDefinition>) -> (b: bool)
    ensures
        b == passes(d@, excl_view(excl)),
{
    match excl {
        Some(e) => !d.same_as(e),
        None => true,
    }
}

/// Whether `paths` holds the path `p`.
pub fn contains_path(paths: &[String], p: &[char]) -> (b: bool)
    ensures
        b == string_views(paths@).contains(p@),
{
    let mut i: usize = 0;
    while i < paths.len()
        invariant
            i <= paths@.len(),
            forall|k: int| 0 <= k < i ==> paths@[k]@ != p@,
        decreases paths@.len() - i,
    {
        let c = chars_of(paths[i].as_str());
        if chars_eq(&c, p) {
            assert(string_views(paths@)[i as int] == p@);
            return true;
        }
        i = i + 1;
    }
    proof {
        if string_views(paths@).contains(p@) {
            let k = choose|k: int| 0 <= k < string_views(paths@).len() && string_views(paths@)[k] == p@;
            assert(paths@[k]@ == p@);
        }
    }
    false
}

pub(crate) fn find_in_file_last_max(defs: &[FixtureDefinition], f: &[char], excl: Option<&FixtureDefinition>) -> (r:
    Option<usize>)
    ensures
        match r {
            Some(i) => best_in_file(def_views(defs@), f@, excl_view(excl), defs@.len() as int) == Some(
                i as int,
            ) && i < defs@.len(),
            None => best_in_file(def_views(defs@), f@, excl_view(excl), defs@.len() as int) is None,
        },
{
    let ghost ds = def_views(defs@);
    let mut best: Option<usize> = None;
    let mut i: usize = 0;
    while i < defs.len()
        invariant
            i <= defs@.len(),
            ds == def_views(defs@),
            match best {
                Some(b) => best_in_file(ds, f@, excl_view(excl), i as int) == Some(b as int) && b < i,
                None => best_in_file(ds, f@, excl_view(excl), i as int) is None,
            },
        decreases defs@.len() - i,
    {
        let d = &defs[i];
        let fp = chars_of(d.file_path.as_str());
        assert(ds[i as int] == d@);
        if chars_eq(&fp, f) && passes_exec(d, excl) {
            match best {
                Some(b) => {
                    assert(ds[b as int] == defs@[b as int]@);
                    if d.line >= defs[b].line {
                        best = Some(i);
                    }
                },
                None => {
                    best = Some(i);
                },
            }
        }
        i = i + 1;
    }
    best
}

fn picks_exec(k: &PickExec, d: &FixtureDefinition, excl: Option<&FixtureDefinition>) -> (b: bool)
    ensures
        b == picks(k.spec_pick(), d@, excl_view(excl)),
{
    let hit = match k {
        PickExec::InFile(f) => {
            let fp = chars_of(d.file_path.as_str());
            chars_eq(&fp, f)
        },
        PickExec::Any => true,
        PickExec::Plugin => d.is_plugin && !d.is_third_party,
        PickExec::ThirdParty => d.is_third_party,
    };
    hit && passes_exec(d, excl)
}

/// The executable counterpart of [`Pick`].
pub enum PickExec {
    InFile(Vec<char>),
    Any,
    Plugin,
    ThirdParty,
}

impl PickExec {
    pub open spec fn spec_pick(&self) -> Pick {
        match self {
            PickExec::InFile(f) => Pick::InFile(f@),
            PickExec::Any => Pick::Any,
            PickExec::Plugin => Pick::Plugin,
            PickExec::ThirdParty => Pick::ThirdParty,
        }
    }
}

pub fn first_picked(defs: &[FixtureDefinition], k: &PickExec, excl: Option<&FixtureDefinition>) -> (r:
    Option<usize>)
    ensures
        match r {
            Some(i) => first_index(def_views(defs@), k.spec_pick(), excl_view(excl)) == Some(i as int)
                && i < defs@.len(),
            None => first_index(def_views(defs@), k.spec_pick(), excl_view(excl)) is None,
        },
{
    let ghost ds = def_views(defs@);
    let mut i: usize = 0;
    while i < defs.len()
        invariant
            i <= defs@.len(),
            ds == def_views(defs@),
            forall|j: int| 0 <= j < i ==> !picks(k.spec_pick(), #[trigger] ds[j], excl_view(excl)),
        decreases defs@.len() - i,
    {
        let d = &defs[i];
        assert(ds[i as int] == d@);
        if picks_exec(k, d, excl) {
            proof {
                lemma_first_index(ds, k.spec_pick(), excl_view(excl), i as int);
            }
            return Some(i);
        }
        i = i + 1;
    }
    proof {
        lemma_first_index_none(ds, k.spec_pick(), excl_view(excl));
    }
    None
}

/// The index, among `defs` (the definitions of one fixture name), that the
/// `conftest.py` search from directory `start` upward picks.
pub fn find_conftest_index(
    defs: &[FixtureDefinition],
    start: Vec<char>,
    exclude: Option<&FixtureDefinition>,
    importing_conftests: &[String],
) -> (r: Option<usize>)
    ensures
        match r {
            Some(i) => conftest_pick(
                def_views(defs@),
                start@,
                excl_view(exclude),
                string_views(importing_conftests@),
            ) == Some(i as int) && i < defs@.len(),
            None => conftest_pick(
                def_views(defs@),
                start@,
                excl_view(exclude),
                string_views(importing_conftests@),
            ) is None,
        },
{
    let ghost ds = def_views(defs@);
    let ghost imp = string_views(importing_conftests@);
    let ghost ex = excl_view(exclude);
    let ghost start_dir = start@;
    let mut dir = start;
    proof {
        reveal_strlit("conftest.py");
    }
    let conftest = chars_of("conftest.py");
    loop
        invariant
            ds == def_views(defs@),
            imp == string_views(importing_conftests@),
            ex == excl_view(exclude),
            conftest@ == conftest_name(),
            conftest_pick(ds, start_dir, ex, imp) == conftest_pick(ds, dir@, ex, imp),
            start_dir == start@,
        ensures
            conftest_pick(ds, start_dir, ex, imp) is None,
        decreases dir@.len(),
    {
        let c = join_name(&dir, &conftest);
        let in_conftest = PickExec::InFile(c);
        if let Some(i) = first_picked(defs, &in_conftest, exclude) {
            assert(first_index(ds, Pick::InFile(join(dir@, conftest_name())), ex) == Some(i as int));
            assert(conftest_pick(ds, dir@, ex, imp) == Some(i as int));
            return Some(i);
        }
        let c = match in_conftest {
            PickExec::InFile(c) => c,
            _ => Vec::new(),
        };
        assert(c@ == join(dir@, conftest_name()));
        if contains_path(importing_conftests, &c) {
            if let Some(i) = first_picked(defs, &PickExec::Any, exclude) {
                assert(conftest_pick(ds, dir@, ex, imp) == Some(i as int));
                return Some(i);
            }
        }
        proof {
            lemma_parent_shorter(dir@);
        }
        match parent_of(&dir) {
            Some(p) => {
                dir = p;
            },
            None => {
                break ;
            },
        }
    }
    None
}

/// The index, among `defs` (the definitions of one fixture name), of the
/// definition that a usage in `file_path` resolves to, leaving out `exclude`.
/// `importing_conftests` lists the `conftest.py` files that import the fixture.
pub fn find_closest_index(
    defs: &[FixtureDefinition],
    file_path: &str,
    exclude: Option<&FixtureDefinition>,
    importing_conftests: &[String],
) -> (r: Option<usize>)
    ensures
        match r {
            Some(i) => closest(
                def_views(defs@),
                file_path@,
                excl_view(exclude),
                string_views(importing_conftests@),
            ) == Some(i as int) && i < defs@.len(),
            None => closest(
                def_views(defs@),
                file_path@,
                excl_view(exclude),
                string_views(importing_conftests@),
            ) is None,
        },
{
    let ghost ds = def_views(defs@);
    let ghost imp = string_views(importing_conftests@);
    let ghost ex = excl_view(exclude);
    let f = chars_of(file_path);
    if let Some(i) = find_in_file_last_max(defs, &f, exclude) {
        return Some(i);
    }
    let dir = match parent_of(&f) {
        Some(d) => d,
        None => {
            return None;
        },
    };
    if let Some(i) = find_conftest_index(defs, dir, exclude, importing_conftests) {
        return Some(i);
    }
    if let Some(i) = first_picked(defs, &PickExec::Plugin, exclude) {
        return Some(i);
    }
    first_picked(defs, &PickExec::ThirdParty, exclude)
}

/// The definition, among `defs` (all definitions of one fixture name), that a
/// usage in `file_path` resolves to under pytest's priority rules, leaving out
/// `exclude` (used for a fixture that overrides a fixture of the same name).
pub fn find_closest_definition(
    defs: &[FixtureDefinition],
    file_path: &str,
    exclude: Option<&FixtureDefinition>,
    importing_conftests: &[String],
) -> (r: Option<FixtureDefinition>)
    ensures
        match closest(
            def_views(defs@),
            file_path@,
            excl_view(exclude),
            string_views(importing_conftests@),
        ) {
            Some(i) => r is Some && r->0@ == defs@[i]@,
            None => r is None,
        },
{
    match find_closest_index(defs, file_path, exclude, importing_conftests) {
        Some(i) => {
            assert(def_views(defs@)[i as int] == defs@[i as int]@);
            Some(defs[i].duplicate())
        },
        None => None,
    }
}

} // verus!
