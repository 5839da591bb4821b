//! Fixtures used in a function body without being declared as parameters.
//! The body is walked outside; each name it reads comes here.
use vstd::prelude::*;

use crate::db::FixtureDatabase;
use crate::paths::{conftest_name, has_file_name, parent, parent_of, path_starts_with, path_starts_with_exec};
use crate::text::{chars_eq, chars_of, contains, seq_contains_seq, string_from_chars};
use crate::types::{string_views, undeclared_views, DefinitionView, UndeclaredFixture, UndeclaredView};

verus! {

/// Definition `d` can serve file `f`: it is in `f`, in a `conftest.py`
/// whose directory contains `f`, or in an installed package.
pub open spec fn serves_file(d: DefinitionView, f: Seq<char>) -> bool {
    ||| d.file_path == f
    ||| has_file_name(d.file_path, conftest_name()) && path_starts_with(
        f,
        match parent(d.file_path) {
            Some(p) => p,
            None => Seq::empty(),
        },
    )
    ||| seq_contains_seq(d.file_path, "site-packages"@)
}

/// Some definition of fixture `n` among `ds` can serve file `f`.
pub open spec fn fixture_available(ds: Seq<DefinitionView>, f: Seq<char>, n: Seq<char>) -> bool {
    exists|i: int| 0 <= i < ds.len() && (#[trigger] ds[i]).name == n && serves_file(ds[i], f)
}

/// The line at which `vars` (name, line; later entries win) binds `n`.
pub open spec fn bound_at(vars: Seq<(Seq<char>, usize)>, n: Seq<char>) -> Option<usize>
    decreases vars.len(),
{
    if vars.len() == 0 {
        None
    } else if vars.last().0 == n {
        Some(vars.last().1)
    } else {
        bound_at(vars.drop_last(), n)
    }
}

pub open spec fn var_views(v: Seq<(String, usize)>) -> Seq<(Seq<char>, usize)> {
    v.map_values(|p: (String, usize)| (p.0@, p.1))
}

/// A name read on `line` of a function body is an undeclared fixture: not
/// a declared parameter, not a local variable bound on an earlier line, and
/// a fixture available in file `f`.
pub open spec fn is_undeclared_use(
    ds: Seq<DefinitionView>,
    f: Seq<char>,
    n: Seq<char>,
    line: usize,
    declared: Seq<Seq<char>>,
    vars: Seq<(Seq<char>, usize)>,
) -> bool {
    &&& !declared.contains(n)
    &&& !(match bound_at(vars, n) {
        Some(l) => l < line,
        None => false,
    })
    &&& fixture_available(ds, f, n)
}

fn serves_file_exec(d: &crate::types::FixtureDefinition, f: &[char]) -> (b: bool)
    ensures
        b == serves_file(d@, f@),
{
    proof {
        reveal_strlit("site-packages");
    }
    let dp = chars_of(d.file_path.as_str());
    if chars_eq(&dp, f) {
        return true;
    }
    if crate::paths::is_conftest_path(&dp) {
        let dir = match parent_of(&dp) {
            Some(p) => p,
            None => Vec::new(),
        };
        if path_starts_with_exec(f, &dir) {
            return true;
        }
    }
    contains(&dp, &chars_of("site-packages"))
}

fn last_binding(local_vars: &[(String, usize)], n: &Vec<char>) -> (r: Option<usize>)
    ensures
        r == bound_at(var_views(local_vars@), n@),
{
    let ghost vv = var_views(local_vars@);
    let mut v = local_vars.len();
    assert(vv.take(v as int) =~= vv);
    while v > 0
        invariant
            v <= vv.len(),
            vv == var_views(local_vars@),
            bound_at(vv, n@) == bound_at(vv.take(v as int), n@),
        decreases v,
    {
        let (vn, vl) = (&local_vars[v - 1].0, local_vars[v - 1].1);
        assert(vv[v - 1] == (vn@, vl));
        assert(vv.take(v as int).drop_last() =~= vv.take(v - 1));
        assert(vv.take(v as int).last() == vv[v - 1]);
        if chars_eq(&chars_of(vn.as_str()), n) {
            return Some(vl);
        }
        v = v - 1;
    }
    None
}

impl FixtureDatabase {
    /// Whether fixture `fixture_name` can be used in `file_path` without an
    /// import: defined there, in a `conftest.py` above it, or installed.
    pub fn is_available_fixture(&self, file_path: &str, fixture_name: &str) -> (b: bool)
        ensures
            b == fixture_available(self.defs(), file_path@, fixture_name@),
    {
        let f = chars_of(file_path);
        let n = chars_of(fixture_name);
        let ghost ds = self.defs();
        let mut i: usize = 0;
        while i < self.definitions.len()
            invariant
                i <= ds.len(),
                ds == self.defs(),
                f@ == file_path@,
                n@ == fixture_name@,
                forall|k: int| 0 <= k < i ==> !((#[trigger] ds[k]).name == n@ && serves_file(ds[k], f@)),
            decreases ds.len() - i,
        {
            let d = &self.definitions[i];
            assert(ds[i as int] == d@);
            if chars_eq(&chars_of(d.name.as_str()), &n) && serves_file_exec(d, &f) {
                return true;
            }
            i = i + 1;
        }
        false
    }

    /// Records `name`, read at `line`, `start_char`..`end_char` of the body of
    /// `function_name` (defined on `function_line`) in `file_path`, as an
    /// undeclared fixture when it is one. `declared` holds the function's
    /// declared names, `local_vars` the body's local bindings with their lines
    /// (imports at line 0), later entries overriding earlier ones.
    pub fn record_name_reference(
        &mut self,
        file_path: &str,
        name: &str,
        line: usize,
        start_char: usize,
        end_char: usize,
        declared: &[String],
        local_vars: &[(String, usize)],
        function_name: &str,
        function_line: usize,
    ) -> (recorded: bool)
        ensures
            recorded == is_undeclared_use(
                old(self).defs(),
                file_path@,
                name@,
                line,
                string_views(declared@),
                var_views(local_vars@),
            ),
            undeclared_views(final(self).undeclared_fixtures@) == (if recorded {
                undeclared_views(old(self).undeclared_fixtures@).push(
                    UndeclaredView {
                        name: name@,
                        file_path: file_path@,
                        line: line,
                        start_char: start_char,
                        end_char: end_char,
                        function_name: function_name@,
                        function_line: function_line,
                    },
                )
            } else {
                undeclared_views(old(self).undeclared_fixtures@)
            }),
            final(self).definitions == old(self).definitions,
            final(self).usages == old(self).usages,
            final(self).imports == old(self).imports,
            final(self).fixture_imports == old(self).fixture_imports,
            final(self).editable_install_roots == old(self).editable_install_roots,
            final(self).workspace_root == old(self).workspace_root,
            final(self).defs() == old(self).defs(),
            final(self).uses() == old(self).uses(),
            final(self).fimports() == old(self).fimports(),
    {
        let n = chars_of(name);
        // declared parameters
        let mut k: usize = 0;
        while k < declared.len()
            invariant
                k <= declared@.len(),
                n@ == name@,
                forall|j: int| 0 <= j < k ==> declared@[j]@ != name@,
            decreases declared@.len() - k,
        {
            if chars_eq(&chars_of(declared[k].as_str()), &n) {
                assert(string_views(declared@)[k as int] == name@);
                return false;
            }
            k = k + 1;
        }
        proof {
            if string_views(declared@).contains(name@) {
                let j = choose|j: int| 0 <= j < string_views(declared@).len() && string_views(declared@)[j] == name@;
                assert(declared@[j]@ == name@);
            }
        }
        let bound = last_binding(local_vars, &n);
        if let Some(l) = bound {
            if l < line {
                return false;
            }
        }
        if !self.is_available_fixture(file_path, name) {
            return false;
        }
        let u = UndeclaredFixture {
            name: string_from_chars(&n),
            file_path: string_from_chars(&chars_of(file_path)),
            line: line,
            start_char: start_char,
            end_char: end_char,
            function_name: string_from_chars(&chars_of(function_name)),
            function_line: function_line,
        };
        let ghost before = undeclared_views(self.undeclared_fixtures@);
        self.undeclared_fixtures.push(u);
        assert(undeclared_views(self.undeclared_fixtures@) =~= before.push(u@));
        true
    }
}

} // verus!
