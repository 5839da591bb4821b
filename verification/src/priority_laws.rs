//! Pytest's fixture priority, stated over the definitions themselves: a
//! definition in the file, then one in a `conftest.py` above it, then a
//! plugin's, and a third-party definition only when none of those exists.
use vstd::prelude::*;

use crate::db::available_pick;
use crate::laws::lemma_first_index_picks;
use crate::paths::{conftest_name, join, lemma_parent_shorter, parent};
use crate::resolver::{closest, conftest_pick, first_index, passes, picks, Pick};
use crate::types::DefinitionView;

verus! {

/// `d` is a directory above path `p`: its parent, or a directory above that.
pub open spec fn dir_above(p: Seq<char>, d: Seq<char>) -> bool
    decreases p.len(),
{
    match parent(p) {
        None => false,
        Some(q) => {
            proof {
                lemma_parent_shorter(p);
            }
            q == d || dir_above(q, d)
        },
    }
}

/// `g` is the `conftest.py` of a directory above path `p`.
pub open spec fn conftest_above(p: Seq<char>, g: Seq<char>) -> bool {
    exists|d: Seq<char>| #[trigger] dir_above(p, d) && g == join(d, conftest_name())
}

/// Some `conftest.py` above path `p` is listed in `imp` as importing the fixture.
pub open spec fn imported_above(p: Seq<char>, imp: Seq<Seq<char>>) -> bool {
    exists|g: Seq<char>| #[trigger] conftest_above(p, g) && imp.contains(g)
}

/// A definition that outranks a third-party one for a usage in file `f`:
/// one in `f`, one in a `conftest.py` above `f`, or a plugin's that is not
/// third-party.
pub open spec fn outranks_third_party(d: DefinitionView, f: Seq<char>) -> bool {
    ||| d.file_path == f
    ||| conftest_above(f, d.file_path)
    ||| (d.is_plugin && !d.is_third_party)
}

pub proof fn lemma_first_index_found(ds: Seq<DefinitionView>, k: Pick, excl: Option<DefinitionView>, j: int)
    requires
        0 <= j < ds.len(),
        picks(k, ds[j], excl),
    ensures
        first_index(ds, k, excl) is Some,
    decreases ds.len(),
{
    if !picks(k, ds[0], excl) {
        assert(ds.drop_first()[j - 1] == ds[j]);
        lemma_first_index_found(ds.drop_first(), k, excl, j - 1);
    }
}

/// The conftest search from `dir` upward finds something whenever the
/// `conftest.py` of `dir`, or of a directory above it, holds a definition
/// that passes the filter.
proof fn lemma_conftest_found(
    ds: Seq<DefinitionView>,
    dir: Seq<char>,
    excl: Option<DefinitionView>,
    imp: Seq<Seq<char>>,
    j: int,
    d: Seq<char>,
)
    requires
        0 <= j < ds.len(),
        passes(ds[j], excl),
        d == dir || dir_above(dir, d),
        ds[j].file_path == join(d, conftest_name()),
    ensures
        conftest_pick(ds, dir, excl, imp) is Some,
    decreases dir.len(),
{
    let c = join(dir, conftest_name());
    if d == dir {
        assert(picks(Pick::InFile(c), ds[j], excl));
        lemma_first_index_found(ds, Pick::InFile(c), excl, j);
    } else {
        lemma_parent_shorter(dir);
        let p = parent(dir)->0;
        assert(p == d || dir_above(p, d));
        lemma_conftest_found(ds, p, excl, imp, j, d);
    }
}

/// A directory above `p` is shorter than `p`.
proof fn lemma_dir_above_shorter(p: Seq<char>, d: Seq<char>)
    requires
        dir_above(p, d),
    ensures
        d.len() < p.len(),
    decreases p.len(),
{
    lemma_parent_shorter(p);
    let q = parent(p)->0;
    if q != d {
        lemma_dir_above_shorter(q, d);
    }
}

/// The conftest of directory `d` neither defines the fixture (among the
/// definitions that pass the filter) nor is listed as importing it.
pub open spec fn conftest_silent(ds: Seq<DefinitionView>, d: Seq<char>, excl: Option<DefinitionView>, imp: Seq<Seq<char>>) -> bool {
    &&& forall|k: int| 0 <= k < ds.len() && passes(#[trigger] ds[k], excl) ==> ds[k].file_path != join(d, conftest_name())
    &&& !imp.contains(join(d, conftest_name()))
}

/// What the conftest search from `dir` upward finds: a definition that
/// passes the filter and lies in the conftest of `dir` or of a directory
/// above it (the directory given back), or any definition that passes when
/// that conftest imports the fixture; and the conftest of every directory
/// on the way there is silent about the fixture.
proof fn lemma_conftest_sound(ds: Seq<DefinitionView>, dir: Seq<char>, excl: Option<DefinitionView>, imp: Seq<Seq<char>>) -> (d: Seq<char>)
    requires
        conftest_pick(ds, dir, excl, imp) is Some,
    ensures
        ({
            let i = conftest_pick(ds, dir, excl, imp)->0;
            &&& 0 <= i < ds.len()
            &&& passes(ds[i], excl)
            &&& d == dir || dir_above(dir, d)
            &&& ds[i].file_path == join(d, conftest_name()) || imp.contains(join(d, conftest_name()))
        }),
        forall|d2: Seq<char>|
            (d2 == dir || dir_above(dir, d2)) && #[trigger] dir_above(d2, d) ==> conftest_silent(ds, d2, excl, imp),
    decreases dir.len(),
{
    let c = join(dir, conftest_name());
    lemma_first_index_picks(ds, Pick::InFile(c), excl);
    lemma_first_index_picks(ds, Pick::Any, excl);
    if first_index(ds, Pick::InFile(c), excl) is Some || (imp.contains(c) && first_index(ds, Pick::Any, excl) is Some) {
        assert forall|d2: Seq<char>| (d2 == dir || dir_above(dir, d2)) && #[trigger] dir_above(d2, dir) implies conftest_silent(
            ds,
            d2,
            excl,
            imp,
        ) by {
            lemma_dir_above_shorter(d2, dir);
            if d2 != dir {
                lemma_dir_above_shorter(dir, d2);
            }
        }
        dir
    } else {
        lemma_parent_shorter(dir);
        let p = parent(dir)->0;
        let d = lemma_conftest_sound(ds, p, excl, imp);
        let i = conftest_pick(ds, dir, excl, imp)->0;
        assert(dir_above(dir, d));
        lemma_first_index_found(ds, Pick::Any, excl, i);
        assert forall|d2: Seq<char>| (d2 == dir || dir_above(dir, d2)) && #[trigger] dir_above(d2, d) implies conftest_silent(
            ds,
            d2,
            excl,
            imp,
        ) by {
            if d2 == dir {
                assert forall|k: int| 0 <= k < ds.len() && passes(#[trigger] ds[k], excl) implies ds[k].file_path != join(
                    d2,
                    conftest_name(),
                ) by {
                    if ds[k].file_path == c {
                        lemma_first_index_found(ds, Pick::InFile(c), excl, k);
                    }
                }
            } else {
                assert(p == d2 || dir_above(p, d2));
            }
        }
        d
    }
}

/// The conftest search from the directory of `f`, seen from `f`.
proof fn lemma_conftest_from_file(
    ds: Seq<DefinitionView>,
    f: Seq<char>,
    dir: Seq<char>,
    excl: Option<DefinitionView>,
    imp: Seq<Seq<char>>,
)
    requires
        parent(f) == Some(dir),
    ensures
        conftest_pick(ds, dir, excl, imp) matches Some(i) ==> 0 <= i < ds.len() && passes(ds[i], excl) && (
        conftest_above(f, ds[i].file_path) || imported_above(f, imp)),
{
    if conftest_pick(ds, dir, excl, imp) is Some {
        let i = conftest_pick(ds, dir, excl, imp)->0;
        let d = lemma_conftest_sound(ds, dir, excl, imp);
        assert(dir_above(f, d));
        if ds[i].file_path == join(d, conftest_name()) {
            assert(conftest_above(f, ds[i].file_path));
        } else {
            assert(conftest_above(f, join(d, conftest_name())));
            assert(imported_above(f, imp));
        }
    }
}

/// A conftest above `f` that defines the fixture is found by the search
/// from the directory of `f`.
proof fn lemma_conftest_found_from_file(
    ds: Seq<DefinitionView>,
    f: Seq<char>,
    dir: Seq<char>,
    excl: Option<DefinitionView>,
    imp: Seq<Seq<char>>,
    j: int,
)
    requires
        parent(f) == Some(dir),
        0 <= j < ds.len(),
        passes(ds[j], excl),
        conftest_above(f, ds[j].file_path),
    ensures
        conftest_pick(ds, dir, excl, imp) is Some,
{
    let d = choose|d: Seq<char>| #[trigger] dir_above(f, d) && ds[j].file_path == join(d, conftest_name());
    assert(d == dir || dir_above(dir, d));
    lemma_conftest_found(ds, dir, excl, imp, j, d);
}

/// Go to definition: when a `conftest.py` above the file defines the fixture
/// (and the file itself does not), a usage resolves to a definition in a
/// `conftest.py` above the file, or, where such a conftest imports the
/// fixture, to the definition it imports; never straight to a plugin's or a
/// third-party one.
pub proof fn law_conftest_outranks_plugins_and_third_party(
    ds: Seq<DefinitionView>,
    f: Seq<char>,
    excl: Option<DefinitionView>,
    imp: Seq<Seq<char>>,
)
    requires
        forall|k: int| 0 <= k < ds.len() ==> !((#[trigger] ds[k]).file_path == f && passes(ds[k], excl)),
        exists|j: int| 0 <= j < ds.len() && passes(#[trigger] ds[j], excl) && conftest_above(f, ds[j].file_path),
    ensures
        closest(ds, f, excl, imp) matches Some(i) && 0 <= i < ds.len() && passes(ds[i], excl) && (conftest_above(
            f,
            ds[i].file_path,
        ) || imported_above(f, imp)),
{
    crate::laws::lemma_best_in_file(ds, f, excl, ds.len() as int);
    let j = choose|j: int| 0 <= j < ds.len() && passes(#[trigger] ds[j], excl) && conftest_above(f, ds[j].file_path);
    let d = choose|d: Seq<char>| #[trigger] dir_above(f, d) && ds[j].file_path == join(d, conftest_name());
    assert(parent(f) is Some);
    let dir = parent(f)->0;
    lemma_conftest_from_file(ds, f, dir, excl, imp);
    lemma_conftest_found_from_file(ds, f, dir, excl, imp, j);
}

/// Go to definition: a third-party definition is chosen only when nothing
/// outranks it. Whenever the file, a `conftest.py` above it, or a plugin
/// that is not third-party defines the fixture, a usage resolves to such a
/// definition (or to one a conftest above imports).
pub proof fn law_third_party_last(ds: Seq<DefinitionView>, f: Seq<char>, excl: Option<DefinitionView>, imp: Seq<Seq<char>>)
    requires
        parent(f) is Some,
        exists|j: int| 0 <= j < ds.len() && passes(#[trigger] ds[j], excl) && outranks_third_party(ds[j], f),
    ensures
        closest(ds, f, excl, imp) matches Some(i) && 0 <= i < ds.len() && passes(ds[i], excl) && (
        outranks_third_party(ds[i], f) || imported_above(f, imp)),
{
    crate::laws::lemma_best_in_file(ds, f, excl, ds.len() as int);
    let dir = parent(f)->0;
    lemma_conftest_from_file(ds, f, dir, excl, imp);
    lemma_first_index_picks(ds, Pick::Plugin, excl);
    let j = choose|j: int| 0 <= j < ds.len() && passes(#[trigger] ds[j], excl) && outranks_third_party(ds[j], f);
    if ds[j].is_plugin && !ds[j].is_third_party {
        lemma_first_index_found(ds, Pick::Plugin, excl, j);
    } else if ds[j].file_path != f {
        lemma_conftest_found_from_file(ds, f, dir, excl, imp, j);
    }
}

/// Completion: when no definition is in the file and a `conftest.py` above
/// it defines the fixture, the definition offered is one in a `conftest.py`
/// above the file (or one a conftest above imports), never a plugin's or a
/// third-party one.
pub proof fn law_completion_conftest_outranks(ds: Seq<DefinitionView>, f: Seq<char>, imp: Seq<Seq<char>>)
    requires
        forall|k: int| 0 <= k < ds.len() ==> (#[trigger] ds[k]).file_path != f,
        exists|j: int| 0 <= j < ds.len() && conftest_above(f, (#[trigger] ds[j]).file_path),
    ensures
        available_pick(ds, f, imp) matches Some(i) && 0 <= i < ds.len() && (conftest_above(f, ds[i].file_path)
            || imported_above(f, imp)),
{
    lemma_first_index_picks(ds, Pick::InFile(f), None);
    let j = choose|j: int| 0 <= j < ds.len() && conftest_above(f, (#[trigger] ds[j]).file_path);
    assert(passes(ds[j], None));
    let d = choose|d: Seq<char>| #[trigger] dir_above(f, d) && ds[j].file_path == join(d, conftest_name());
    assert(parent(f) is Some);
    let dir = parent(f)->0;
    lemma_conftest_from_file(ds, f, dir, None, imp);
    lemma_conftest_found_from_file(ds, f, dir, None, imp, j);
}

/// Completion: a third-party definition is offered only when nothing
/// outranks it: whenever the file, a `conftest.py` above it, or a plugin
/// that is not third-party defines the fixture, the definition offered is
/// such a one (or one a conftest above imports).
pub proof fn law_completion_third_party_last(ds: Seq<DefinitionView>, f: Seq<char>, imp: Seq<Seq<char>>)
    requires
        exists|j: int| 0 <= j < ds.len() && outranks_third_party(#[trigger] ds[j], f),
    ensures
        available_pick(ds, f, imp) matches Some(i) && 0 <= i < ds.len() && (outranks_third_party(ds[i], f)
            || imported_above(f, imp)),
{
    lemma_first_index_picks(ds, Pick::InFile(f), None);
    lemma_first_index_picks(ds, Pick::Plugin, None);
    let j = choose|j: int| 0 <= j < ds.len() && outranks_third_party(#[trigger] ds[j], f);
    assert(passes(ds[j], None));
    if ds[j].file_path == f {
        lemma_first_index_found(ds, Pick::InFile(f), None, j);
    } else if conftest_above(f, ds[j].file_path) {
        let d = choose|d: Seq<char>| #[trigger] dir_above(f, d) && ds[j].file_path == join(d, conftest_name());
        assert(parent(f) is Some);
        let dir = parent(f)->0;
        lemma_conftest_from_file(ds, f, dir, None, imp);
        lemma_conftest_found_from_file(ds, f, dir, None, imp, j);
    } else {
        lemma_first_index_found(ds, Pick::Plugin, None, j);
        if let Some(dir) = parent(f) {
            lemma_conftest_from_file(ds, f, dir, None, imp);
        }
    }
}

/// Go to definition: when the file itself does not define the fixture and
/// a `conftest.py` above it does, the nearest such conftest decides. The
/// usage resolves through the conftest of a directory `d` above the file
/// (given back), to a definition in it or, where it imports the fixture, to
/// the definition imported; and the conftest of every directory between the
/// file and `d` is silent about the fixture.
pub proof fn law_nearest_conftest_decides(
    ds: Seq<DefinitionView>,
    f: Seq<char>,
    excl: Option<DefinitionView>,
    imp: Seq<Seq<char>>,
) -> (d: Seq<char>)
    requires
        forall|k: int| 0 <= k < ds.len() ==> !((#[trigger] ds[k]).file_path == f && passes(ds[k], excl)),
        exists|j: int| 0 <= j < ds.len() && passes(#[trigger] ds[j], excl) && conftest_above(f, ds[j].file_path),
    ensures
        closest(ds, f, excl, imp) matches Some(i) && 0 <= i < ds.len() && passes(ds[i], excl) && dir_above(f, d) && (
        ds[i].file_path == join(d, conftest_name()) || imp.contains(join(d, conftest_name()))),
        forall|d2: Seq<char>| dir_above(f, d2) && #[trigger] dir_above(d2, d) ==> conftest_silent(ds, d2, excl, imp),
{
    crate::laws::lemma_best_in_file(ds, f, excl, ds.len() as int);
    let j = choose|j: int| 0 <= j < ds.len() && passes(#[trigger] ds[j], excl) && conftest_above(f, ds[j].file_path);
    let d0 = choose|d: Seq<char>| #[trigger] dir_above(f, d) && ds[j].file_path == join(d, conftest_name());
    assert(parent(f) is Some);
    let dir = parent(f)->0;
    lemma_conftest_found_from_file(ds, f, dir, excl, imp, j);
    let d = lemma_conftest_sound(ds, dir, excl, imp);
    assert(dir_above(f, d));
    assert forall|d2: Seq<char>| dir_above(f, d2) && #[trigger] dir_above(d2, d) implies conftest_silent(ds, d2, excl, imp) by {
        assert(d2 == dir || dir_above(dir, d2));
    }
    d
}

/// Completion: when the file itself does not define the fixture and a
/// `conftest.py` above it does, the definition offered comes through the
/// nearest conftest that defines or imports it (the directory `d` given
/// back); the conftest of every directory between the file and `d` is
/// silent about the fixture.
pub proof fn law_completion_nearest_conftest(ds: Seq<DefinitionView>, f: Seq<char>, imp: Seq<Seq<char>>) -> (d: Seq<
    char,
>)
    requires
        forall|k: int| 0 <= k < ds.len() ==> (#[trigger] ds[k]).file_path != f,
        exists|j: int| 0 <= j < ds.len() && conftest_above(f, (#[trigger] ds[j]).file_path),
    ensures
        available_pick(ds, f, imp) matches Some(i) && 0 <= i < ds.len() && dir_above(f, d) && (ds[i].file_path
            == join(d, conftest_name()) || imp.contains(join(d, conftest_name()))),
        forall|d2: Seq<char>| dir_above(f, d2) && #[trigger] dir_above(d2, d) ==> conftest_silent(ds, d2, None, imp),
{
    lemma_first_index_picks(ds, Pick::InFile(f), None);
    let j = choose|j: int| 0 <= j < ds.len() && conftest_above(f, (#[trigger] ds[j]).file_path);
    assert(passes(ds[j], None));
    let d0 = choose|d: Seq<char>| #[trigger] dir_above(f, d) && ds[j].file_path == join(d, conftest_name());
    assert(parent(f) is Some);
    let dir = parent(f)->0;
    lemma_conftest_found_from_file(ds, f, dir, None, imp, j);
    let d = lemma_conftest_sound(ds, dir, None, imp);
    assert(dir_above(f, d));
    assert forall|d2: Seq<char>| dir_above(f, d2) && #[trigger] dir_above(d2, d) implies conftest_silent(ds, d2, None, imp) by {
        assert(d2 == dir || dir_above(dir, d2));
    }
    d
}

} // verus!
