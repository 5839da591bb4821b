//! Which files a workspace scan analyzes: test modules and `conftest.py`
//! files outside skipped directories and user exclusions.
use vstd::prelude::*;

use crate::db::FixtureDatabase;
use crate::hover::relative_path;
use crate::paths::{cur_part, parent_part, path_key, path_key_of, root_part};
use crate::plugins::skips_directory;
use crate::text::{
    chars_eq, chars_of, ends_with, seq_ends_with, seq_starts_with, slice_range, starts_with,
    string_from_chars, views,
};
use crate::tree::{file_name, file_name_of};

verus! {

/// Whether glob `pattern` (compiled by `glob::Pattern::new`) matches `text`
/// with the default options; false where `pattern` does not compile.
pub uninterp spec fn glob_match(pattern: Seq<char>, text: Seq<char>) -> bool;

/// `glob::Pattern::new(pattern)` and then `Pattern::matches(text)`: whether
/// the shell-style pattern matches the text (a pattern that does not compile
/// matches nothing). The result is claimed to depend on the two strings alone.
#[verifier::external_body]
fn pattern_matches(pattern: &str, text: &str) -> (b: bool)
    ensures
        b == glob_match(pattern@, text@),
{
    match glob::Pattern::new(pattern) {
        Ok(p) => p.matches(text),
        Err(_) => false,
    }
}

/// The text of an encoded path component, as `Component::as_os_str` gives it.
pub open spec fn component_text(part: Seq<char>) -> Seq<char> {
    if part == root_part() {
        "/"@
    } else if part == cur_part() {
        "."@
    } else if part == parent_part() {
        ".."@
    } else if part.len() == 0 {
        Seq::empty()
    } else {
        part.drop_first()
    }
}

/// Some component of `p` names a directory that scans skip.
pub open spec fn in_skipped_directory(p: Seq<char>) -> bool {
    exists|i: int| 0 <= i < path_key(p).len() && skips_directory(component_text(#[trigger] path_key(p)[i]))
}

/// `conftest.py`, `test_*.py` or `*_test.py`.
pub open spec fn is_test_file_name(n: Seq<char>) -> bool {
    ||| n == "conftest.py"@
    ||| seq_starts_with(n, "test_"@) && seq_ends_with(n, ".py"@)
    ||| seq_ends_with(n, "_test.py"@)
}

/// Some pattern of `pats` matches the path of `p` relative to `root`.
pub open spec fn excluded(p: Seq<char>, root: Seq<char>, pats: Seq<Seq<char>>) -> bool {
    pats.len() > 0 && match relative_path(p, root) {
        Some(r) => exists|k: int| 0 <= k < pats.len() && glob_match(#[trigger] pats[k], r),
        None => false,
    }
}

/// A scan of workspace `root` analyzes file `p`.
pub open spec fn scans_file(p: Seq<char>, root: Seq<char>, pats: Seq<Seq<char>>) -> bool {
    &&& !in_skipped_directory(p)
    &&& !excluded(p, root, pats)
    &&& match file_name(p) {
        Some(n) => is_test_file_name(n),
        None => false,
    }
}

fn component_text_of(part: &Vec<char>) -> (r: String)
    ensures
        r@ == component_text(part@),
{
    let n = part.len();
    let body: Vec<char> = if n == 1 && part[0] == '\0' {
        assert(part@ =~= root_part());
        vec!['/']
    } else if n == 2 && part[0] == '\0' && part[1] == '\0' {
        assert(part@ =~= cur_part());
        vec!['.']
    } else if n == 3 && part[0] == '\0' && part[1] == '\0' && part[2] == '\0' {
        assert(part@ =~= parent_part());
        vec!['.', '.']
    } else if n == 0 {
        Vec::new()
    } else {
        let b = slice_range(part, 1, n);
        assert(b@ =~= part@.drop_first());
        b
    };
    proof {
        reveal_strlit("/");
        reveal_strlit(".");
        reveal_strlit("..");
        if n == 1 && part@[0] == '\0' {
            assert(body@ =~= "/"@);
        } else if n == 2 && part@[0] == '\0' && part@[1] == '\0' {
            assert(body@ =~= "."@);
        } else if n == 3 && part@[0] == '\0' && part@[1] == '\0' && part@[2] == '\0' {
            assert(body@ =~= ".."@);
        } else {
            assert(part@ != root_part());
            assert(part@ != cur_part());
            assert(part@ != parent_part());
        }
    }
    string_from_chars(&body)
}

fn in_skipped_directory_exec(p: &[char]) -> (b: bool)
    ensures
        b == in_skipped_directory(p@),
{
    let key = path_key_of(p);
    let ghost kv = views(key@);
    let mut i: usize = 0;
    while i < key.len()
        invariant
            i <= kv.len(),
            kv == views(key@),
            kv == path_key(p@),
            forall|j: int| 0 <= j < i ==> !skips_directory(component_text(#[trigger] kv[j])),
        decreases kv.len() - i,
    {
        assert(kv[i as int] == key@[i as int]@);
        let t = component_text_of(&key[i]);
        if FixtureDatabase::should_skip_directory(t.as_str()) {
            return true;
        }
        i = i + 1;
    }
    false
}

pub(crate) fn is_test_file_name_exec(n: &[char]) -> (b: bool)
    ensures
        b == is_test_file_name(n@),
{
    proof {
        reveal_strlit("conftest.py");
        reveal_strlit("test_");
        reveal_strlit(".py");
        reveal_strlit("_test.py");
    }
    chars_eq(n, &chars_of("conftest.py")) || (starts_with(n, &chars_of("test_")) && ends_with(
        n,
        &chars_of(".py"),
    )) || ends_with(n, &chars_of("_test.py"))
}

fn relative_path_exec(p: &[char], root: &[char]) -> (r: Option<Vec<char>>)
    ensures
        match r {
            Some(x) => relative_path(p@, root@) == Some(x@),
            None => relative_path(p@, root@) is None,
        },
{
    if !crate::paths::path_starts_with_exec(p, root) {
        None
    } else if chars_eq(p, root) {
        Some(Vec::new())
    } else if root.len() == 0 || root[root.len() - 1] == '/' {
        let x = slice_range(p, root.len(), p.len());
        assert(x@ =~= p@.skip(root@.len() as int));
        Some(x)
    } else {
        let pn = p.len();
        assert(root@.len() < pn);
        let x = slice_range(p, root.len() + 1, pn);
        assert(x@ =~= p@.skip(root@.len() as int + 1));
        Some(x)
    }
}

fn excluded_exec(p: &[char], root: &[char], pats: &[String]) -> (b: bool)
    ensures
        b == excluded(p@, root@, crate::types::string_views(pats@)),
{
    let ghost pv = crate::types::string_views(pats@);
    if pats.len() == 0 {
        return false;
    }
    let rel = match relative_path_exec(p, root) {
        Some(r) => string_from_chars(&r),
        None => return false,
    };
    let mut k: usize = 0;
    while k < pats.len()
        invariant
            k <= pats@.len(),
            pv == crate::types::string_views(pats@),
            relative_path(p@, root@) == Some(rel@),
            forall|j: int| 0 <= j < k ==> !glob_match(#[trigger] pv[j], rel@),
        decreases pats@.len() - k,
    {
        assert(pv[k as int] == pats@[k as int]@);
        if pattern_matches(pats[k].as_str(), rel.as_str()) {
            return true;
        }
        k = k + 1;
    }
    false
}

/// Whether a scan of workspace `root` analyzes the file at `path`: it lies
/// in no skipped directory, matches none of `exclude_patterns` (relative to
/// `root`), and is called `conftest.py`, `test_*.py` or `*_test.py`.
pub fn is_workspace_test_file(path: &str, root: &str, exclude_patterns: &[String]) -> (b: bool)
    ensures
        b == scans_file(path@, root@, crate::types::string_views(exclude_patterns@)),
{
    let p = chars_of(path);
    if in_skipped_directory_exec(&p) {
        return false;
    }
    let r = chars_of(root);
    if excluded_exec(&p, &r, exclude_patterns) {
        return false;
    }
    match file_name_of(&p) {
        Some(n) => is_test_file_name_exec(&n),
        None => false,
    }
}

/// The paths among `paths`, in order, that a scan of `root` analyzes.
pub open spec fn scanned_files(paths: Seq<Seq<char>>, root: Seq<char>, pats: Seq<Seq<char>>) -> Seq<Seq<char>>
    decreases paths.len(),
{
    if paths.len() == 0 {
        Seq::empty()
    } else {
        let r = scanned_files(paths.drop_last(), root, pats);
        if scans_file(paths.last(), root, pats) {
            r.push(paths.last())
        } else {
            r
        }
    }
}

/// The files, among those a walk of workspace `root` found, that the scan
/// analyzes.
pub fn select_workspace_files(paths: &[String], root: &str, exclude_patterns: &[String]) -> (r: Vec<String>)
    ensures
        crate::types::string_views(r@) == scanned_files(
            crate::types::string_views(paths@),
            root@,
            crate::types::string_views(exclude_patterns@),
        ),
{
    let ghost pv = crate::types::string_views(paths@);
    let ghost xv = crate::types::string_views(exclude_patterns@);
    let mut r: Vec<String> = Vec::new();
    let mut i: usize = 0;
    while i < paths.len()
        invariant
            i <= pv.len(),
            pv == crate::types::string_views(paths@),
            xv == crate::types::string_views(exclude_patterns@),
            crate::types::string_views(r@) == scanned_files(pv.take(i as int), root@, xv),
        decreases pv.len() - i,
    {
        assert(pv[i as int] == paths@[i as int]@);
        assert(pv.take(i + 1).drop_last() =~= pv.take(i as int));
        assert(pv.take(i + 1).last() == paths@[i as int]@);
        if is_workspace_test_file(paths[i].as_str(), root, exclude_patterns) {
            let ghost before = crate::types::string_views(r@);
            r.push(paths[i].clone());
            assert(crate::types::string_views(r@) =~= before.push(paths@[i as int]@));
        }
        i = i + 1;
    }
    assert(pv.take(pv.len() as int) =~= pv);
    r
}

} // verus!
