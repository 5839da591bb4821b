//! The decisions of the scan for modules that fixtures are imported from:
//! where it starts, which files it examines, and which modules it adds.
//! Reading, parsing and resolving module names to files happen outside.
use vstd::prelude::*;

use crate::paths::{path_starts_with, path_starts_with_exec};
use crate::scan::is_test_file_name;
use crate::text::chars_of;
use crate::tree::{file_name, file_name_of};
use crate::types::string_views;

verus! {

/// File `f` starts the import scan: a test module or `conftest.py`, or a
/// file under one of the site-packages directories `sp` or editable-install
/// source roots `er`.
pub open spec fn seeds_scan(f: Seq<char>, sp: Seq<Seq<char>>, er: Seq<Seq<char>>) -> bool {
    ||| match file_name(f) {
        Some(n) => is_test_file_name(n),
        None => false,
    }
    ||| exists|k: int| 0 <= k < sp.len() && path_starts_with(f, #[trigger] sp[k])
    ||| exists|k: int| 0 <= k < er.len() && path_starts_with(f, #[trigger] er[k])
}

/// The files among `fs`, in order, that start the import scan.
pub open spec fn scan_seeds(fs: Seq<Seq<char>>, sp: Seq<Seq<char>>, er: Seq<Seq<char>>) -> Seq<Seq<char>>
    decreases fs.len(),
{
    if fs.len() == 0 {
        Seq::empty()
    } else {
        let r = scan_seeds(fs.drop_last(), sp, er);
        if seeds_scan(fs.last(), sp, er) {
            r.push(fs.last())
        } else {
            r
        }
    }
}

fn under_any(f: &[char], dirs: &[String]) -> (b: bool)
    ensures
        b == exists|k: int| 0 <= k < dirs@.len() && path_starts_with(f@, #[trigger] string_views(dirs@)[k]),
{
    let ghost dv = string_views(dirs@);
    let mut k: usize = 0;
    while k < dirs.len()
        invariant
            k <= dirs@.len(),
            dv == string_views(dirs@),
            forall|j: int| 0 <= j < k ==> !path_starts_with(f@, #[trigger] dv[j]),
        decreases dirs@.len() - k,
    {
        assert(dv[k as int] == dirs@[k as int]@);
        if path_starts_with_exec(f, &chars_of(dirs[k].as_str())) {
            return true;
        }
        k = k + 1;
    }
    false
}

/// The analyzed files, among `cached_files`, that the import scan starts from.
pub fn import_scan_seeds(cached_files: &[String], site_packages: &[String], editable_roots: &[String]) -> (r:
    Vec<String>)
    ensures
        string_views(r@) == scan_seeds(
            string_views(cached_files@),
            string_views(site_packages@),
            string_views(editable_roots@),
        ),
{
    let ghost fv = string_views(cached_files@);
    let ghost sv = string_views(site_packages@);
    let ghost ev = string_views(editable_roots@);
    let mut r: Vec<String> = Vec::new();
    let mut i: usize = 0;
    while i < cached_files.len()
        invariant
            i <= fv.len(),
            fv == string_views(cached_files@),
            sv == string_views(site_packages@),
            ev == string_views(editable_roots@),
            string_views(r@) == scan_seeds(fv.take(i as int), sv, ev),
        decreases fv.len() - i,
    {
        let f = &cached_files[i];
        assert(fv[i as int] == f@);
        assert(fv.take(i + 1).drop_last() =~= fv.take(i as int));
        assert(fv.take(i + 1).last() == f@);
        let fc = chars_of(f.as_str());
        let named = match file_name_of(&fc) {
            Some(n) => crate::scan::is_test_file_name_exec(&n),
            None => false,
        };
        if named || under_any(&fc, site_packages) || under_any(&fc, editable_roots) {
            let ghost before = string_views(r@);
            r.push(f.clone());
            assert(string_views(r@) =~= before.push(f@));
        }
        i = i + 1;
    }
    assert(fv.take(fv.len() as int) =~= fv);
    r
}

fn contains_string(v: &[String], s: &str) -> (b: bool)
    ensures
        b == string_views(v@).contains(s@),
{
    let mut i: usize = 0;
    while i < v.len()
        invariant
            i <= v@.len(),
            forall|k: int| 0 <= k < i ==> v@[k]@ != s@,
        decreases v@.len() - i,
    {
        if crate::text::chars_eq(&chars_of(v[i].as_str()), &chars_of(s)) {
            assert(string_views(v@)[i as int] == s@);
            return true;
        }
        i = i + 1;
    }
    proof {
        if string_views(v@).contains(s@) {
            let k = choose|k: int| 0 <= k < string_views(v@).len() && string_views(v@)[k] == s@;
            assert(v@[k]@ == s@);
        }
    }
    false
}

/// The files the import scan has examined, in the order it examined them.
pub struct ImportScan {
    processed: Vec<String>,
}

impl View for ImportScan {
    type V = Seq<Seq<char>>;

    closed spec fn view(&self) -> Seq<Seq<char>> {
        string_views(self.processed@)
    }
}

impl ImportScan {
    /// A scan that has examined nothing yet.
    pub fn new() -> (r: ImportScan)
        ensures
            r@ == Seq::<Seq<char>>::empty(),
    {
        let r = ImportScan { processed: Vec::new() };
        assert(r@ =~= Seq::<Seq<char>>::empty());
        r
    }

    /// Whether `file` is yet to be examined; if so it counts as examined
    /// from now on.
    pub fn begin_file(&mut self, file: &str) -> (r: bool)
        ensures
            r == !old(self)@.contains(file@),
            final(self)@ == (if r {
                old(self)@.push(file@)
            } else {
                old(self)@
            }),
    {
        if contains_string(&self.processed, file) {
            false
        } else {
            let ghost before = self@;
            self.processed.push(crate::text::string_from_chars(&chars_of(file)));
            assert(self@ =~= before.push(file@));
            true
        }
    }

    /// Adds the module file `module`, which an examined file imports, to
    /// `new_modules` unless it was examined, is already analyzed (among
    /// `cached_files`) or is already there.
    pub fn note_module(&self, module: &str, cached_files: &[String], new_modules: &mut Vec<String>)
        ensures
            string_views(final(new_modules)@) == (if !self@.contains(module@) && !string_views(
                cached_files@,
            ).contains(module@) && !string_views(old(new_modules)@).contains(module@) {
                string_views(old(new_modules)@).push(module@)
            } else {
                string_views(old(new_modules)@)
            }),
    {
        if !contains_string(&self.processed, module) && !contains_string(cached_files, module)
            && !contains_string(new_modules, module) {
            let ghost before = string_views(new_modules@);
            new_modules.push(crate::text::string_from_chars(&chars_of(module)));
            assert(string_views(new_modules@) =~= before.push(module@));
        }
    }
}

} // verus!
