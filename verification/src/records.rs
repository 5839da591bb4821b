//! Replacing what an earlier analysis of a file recorded.
use vstd::prelude::*;

use crate::db::{file_names_views, usages_without_file, without_file, FileNames, FixtureDatabase};
use crate::text::{chars_eq, chars_of, string_from_chars};
use crate::types::{string_views, undeclared_views, UndeclaredFixture, UndeclaredView};

verus! {

/// The per-file name lists of `fs` for files other than `f`, in order.
pub open spec fn names_without_file(fs: Seq<(Seq<char>, Seq<Seq<char>>)>, f: Seq<char>) -> Seq<
    (Seq<char>, Seq<Seq<char>>),
>
    decreases fs.len(),
{
    if fs.len() == 0 {
        Seq::empty()
    } else {
        let r = names_without_file(fs.drop_last(), f);
        if fs.last().0 != f {
            r.push(fs.last())
        } else {
            r
        }
    }
}

/// The undeclared-fixture records of `us` outside file `f`, in order.
pub open spec fn undeclared_without_file(us: Seq<UndeclaredView>, f: Seq<char>) -> Seq<UndeclaredView>
    decreases us.len(),
{
    if us.len() == 0 {
        Seq::empty()
    } else {
        let r = undeclared_without_file(us.drop_last(), f);
        if us.last().file_path != f {
            r.push(us.last())
        } else {
            r
        }
    }
}

/// `v` without its entries for file `file_path`, then with `names` for it.
fn replace_file_names(v: &mut Vec<FileNames>, file_path: &str, names: Vec<String>)
    ensures
        file_names_views(final(v)@) == names_without_file(file_names_views(old(v)@), file_path@).push(
            (file_path@, string_views(names@)),
        ),
{
    let f = chars_of(file_path);
    let mut old_v: Vec<FileNames> = Vec::new();
    std::mem::swap(&mut old_v, v);
    let ghost fs = file_names_views(old_v@);
    let mut kept: Vec<FileNames> = Vec::new();
    let n = old_v.len();
    let mut i: usize = 0;
    while i < n
        invariant
            n == old_v@.len(),
            i <= n,
            fs == file_names_views(old_v@),
            f@ == file_path@,
            file_names_views(kept@) == names_without_file(fs.take(i as int), f@),
        decreases n - i,
    {
        let e = &old_v[i];
        assert(fs[i as int] == (e.file_path@, string_views(e.names@)));
        assert(fs.take(i + 1).drop_last() =~= fs.take(i as int));
        assert(fs.take(i + 1).last() == fs[i as int]);
        if !chars_eq(&chars_of(e.file_path.as_str()), &f) {
            let copy = FileNames {
                file_path: e.file_path.clone(),
                names: crate::types::duplicate_strings(e.names.as_slice()),
            };
            let ghost before = file_names_views(kept@);
            kept.push(copy);
            assert(file_names_views(kept@) =~= before.push(fs[i as int]));
        }
        i = i + 1;
    }
    assert(fs.take(n as int) =~= fs);
    let ghost before = file_names_views(kept@);
    let entry = FileNames { file_path: string_from_chars(&f), names: names };
    kept.push(entry);
    assert(file_names_views(kept@) =~= before.push((file_path@, string_views(names@))));
    *v = kept;
}

impl FixtureDatabase {
    /// Records `names` as the module-level names of `file_path`, replacing
    /// those recorded before.
    pub fn set_module_names(&mut self, file_path: &str, names: Vec<String>)
        ensures
            final(self).module_names() == names_without_file(old(self).module_names(), file_path@).push(
                (file_path@, string_views(names@)),
            ),
            final(self).defs() == old(self).defs(),
            final(self).uses() == old(self).uses(),
            final(self).fimports() == old(self).fimports(),
            final(self).undeclared_fixtures@ == old(self).undeclared_fixtures@,
    {
        replace_file_names(&mut self.imports, file_path, names);
    }

    /// Records `names` as the fixtures `file_path` imports from other
    /// modules, replacing those recorded before.
    pub fn set_fixture_imports(&mut self, file_path: &str, names: Vec<String>)
        ensures
            final(self).fimports() == names_without_file(old(self).fimports(), file_path@).push(
                (file_path@, string_views(names@)),
            ),
            final(self).defs() == old(self).defs(),
            final(self).uses() == old(self).uses(),
            final(self).module_names() == old(self).module_names(),
            final(self).undeclared_fixtures@ == old(self).undeclared_fixtures@,
    {
        replace_file_names(&mut self.fixture_imports, file_path, names);
    }

    /// Forgets the undeclared-fixture records of `file_path`.
    pub fn cleanup_undeclared_for_file(&mut self, file_path: &str)
        ensures
            undeclared_views(final(self).undeclared_fixtures@) == undeclared_without_file(
                undeclared_views(old(self).undeclared_fixtures@),
                file_path@,
            ),
            final(self).defs() == old(self).defs(),
            final(self).uses() == old(self).uses(),
            final(self).fimports() == old(self).fimports(),
            final(self).module_names() == old(self).module_names(),
    {
        let f = chars_of(file_path);
        let mut old_v: Vec<UndeclaredFixture> = Vec::new();
        std::mem::swap(&mut old_v, &mut self.undeclared_fixtures);
        let ghost us = undeclared_views(old_v@);
        let mut kept: Vec<UndeclaredFixture> = Vec::new();
        let n = old_v.len();
        let mut i: usize = 0;
        while i < n
            invariant
                n == old_v@.len(),
                i <= n,
                us == undeclared_views(old_v@),
                f@ == file_path@,
                undeclared_views(kept@) == undeclared_without_file(us.take(i as int), f@),
            decreases n - i,
        {
            let u = &old_v[i];
            assert(us[i as int] == u@);
            assert(us.take(i + 1).drop_last() =~= us.take(i as int));
            assert(us.take(i + 1).last() == u@);
            if !chars_eq(&chars_of(u.file_path.as_str()), &f) {
                let copy = UndeclaredFixture {
                    name: u.name.clone(),
                    file_path: u.file_path.clone(),
                    line: u.line,
                    start_char: u.start_char,
                    end_char: u.end_char,
                    function_name: u.function_name.clone(),
                    function_line: u.function_line,
                };
                let ghost before = undeclared_views(kept@);
                kept.push(copy);
                assert(undeclared_views(kept@) =~= before.push(u@));
            }
            i = i + 1;
        }
        assert(us.take(n as int) =~= us);
        self.undeclared_fixtures = kept;
    }

    /// Forgets what the last analysis of `file_path` recorded, before it is
    /// analyzed again: its usages and undeclared fixtures, and its
    /// definitions when `cleanup_definitions` (a first scan skips that).
    pub fn begin_analysis(&mut self, file_path: &str, cleanup_definitions: bool)
        ensures
            final(self).uses() == usages_without_file(old(self).uses(), file_path@),
            undeclared_views(final(self).undeclared_fixtures@) == undeclared_without_file(
                undeclared_views(old(self).undeclared_fixtures@),
                file_path@,
            ),
            final(self).defs() == (if cleanup_definitions {
                without_file(old(self).defs(), file_path@)
            } else {
                old(self).defs()
            }),
            final(self).fimports() == old(self).fimports(),
            final(self).module_names() == old(self).module_names(),
    {
        self.cleanup_usages_for_file(file_path);
        self.cleanup_undeclared_for_file(file_path);
        if cleanup_definitions {
            self.cleanup_definitions_for_file(file_path);
        }
    }
}

} // verus!
