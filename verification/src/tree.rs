//! The fixtures of a workspace as a tree of directories and files, with how
//! often each fixture is used.
use vstd::prelude::*;

use crate::order::{
    is_strict_order, key_lt, keys_lt, lemma_is_sorted_set, lemma_key_irreflexive, lemma_key_transitive,
    lemma_key_trichotomy, lemma_str_order, lemma_transitive, lemma_trichotomy, seq_lt, sorted_by, sorted_set,
    str_order, chars_lt,
};
use crate::paths::{join, lemma_parent_shorter, parent, parent_of, path_key, path_key_of, path_starts_with};
use crate::text::{chars_eq, chars_of, split_on, views};
use crate::types::{def_views, string_views, DefinitionView, EditableInstall, FixtureDefinition};

verus! {

// ---------------------------------------------------------------------------
// The order of paths

/// The sort key of a path: its components, then (to tell apart spellings of
/// one path) the path itself.
pub open spec fn pkey(p: Seq<char>) -> Seq<Seq<char>> {
    path_key(p).push(Seq::empty()).push(p)
}

/// Paths in the order of `Path::cmp`.
pub open spec fn path_order() -> spec_fn(Seq<char>, Seq<char>) -> bool {
    |a: Seq<char>, b: Seq<char>| key_lt(pkey(a), pkey(b))
}

pub proof fn lemma_path_order()
    ensures
        is_strict_order(path_order()),
{
    assert forall|x: Seq<char>| !#[trigger] path_order()(x, x) by {
        lemma_key_irreflexive(pkey(x));
    }
    assert forall|x: Seq<char>, y: Seq<char>, z: Seq<char>|
        #[trigger] path_order()(x, y) && #[trigger] path_order()(y, z) implies path_order()(x, z) by {
        lemma_key_transitive(pkey(x), pkey(y), pkey(z));
    }
    assert forall|x: Seq<char>, y: Seq<char>| x != y implies #[trigger] path_order()(x, y) || path_order()(y, x) by {
        lemma_key_trichotomy(pkey(x), pkey(y));
        if pkey(x) == pkey(y) {
            assert(pkey(x).last() == x);
            assert(pkey(y).last() == y);
        }
    }
}

/// The sort key of `p`.
fn pkey_of(p: &[char]) -> (r: Vec<Vec<char>>)
    ensures
        views(r@) == pkey(p@),
{
    let mut r = path_key_of(p);
    r.push(Vec::new());
    let mut v: Vec<char> = Vec::new();
    let mut k: usize = 0;
    while k < p.len()
        invariant
            k <= p@.len(),
            v@ == p@.take(k as int),
        decreases p@.len() - k,
    {
        v.push(p[k]);
        assert(p@.take(k + 1) =~= p@.take(k as int).push(p@[k as int]));
        k = k + 1;
    }
    assert(p@.take(p@.len() as int) =~= p@);
    let ghost before = views(r@);
    r.push(v);
    assert(views(r@) =~= before.push(p@));
    assert(pkey(p@) =~= path_key(p@).push(Seq::empty()).push(p@));
    r
}

/// Whether path `a` sorts before path `b`.
pub fn path_lt(a: &[char], b: &[char]) -> (r: bool)
    ensures
        r == path_order()(a@, b@),
{
    let ka = pkey_of(a);
    let kb = pkey_of(b);
    keys_lt(&ka, &kb)
}

// ---------------------------------------------------------------------------
// The fixtures of each file

/// The files that define fixtures, with the names they define.
pub open spec fn file_fixtures(ds: Seq<DefinitionView>) -> Map<Seq<char>, Set<Seq<char>>> {
    Map::new(
        |f: Seq<char>| exists|i: int| 0 <= i < ds.len() && (#[trigger] ds[i]).file_path == f,
        |f: Seq<char>| Set::new(|n: Seq<char>| exists|i: int| 0 <= i < ds.len() && (#[trigger] ds[i]).file_path == f && ds[i].name == n),
    )
}

pub open spec fn ff_view(v: Seq<(String, Vec<String>)>) -> Seq<(Seq<char>, Seq<Seq<char>>)> {
    v.map_values(|e: (String, Vec<String>)| (e.0@, string_views(e.1@)))
}

/// `v` lists the files of `m` in path order, each with its names in string
/// order.
pub open spec fn lists_files(v: Seq<(Seq<char>, Seq<Seq<char>>)>, m: Map<Seq<char>, Set<Seq<char>>>) -> bool {
    &&& sorted_by(v.map_values(|e: (Seq<char>, Seq<Seq<char>>)| e.0), path_order())
    &&& forall|k: Seq<char>| m.contains_key(k) <==> exists|i: int| 0 <= i < v.len() && (#[trigger] v[i]).0 == k
    &&& forall|i: int|
        0 <= i < v.len() ==> sorted_by((#[trigger] v[i]).1, str_order()) && v[i].1.to_set() == m[v[i].0]
}

pub open spec fn keys_of(v: Seq<(Seq<char>, Seq<Seq<char>>)>) -> Seq<Seq<char>> {
    v.map_values(|e: (Seq<char>, Seq<Seq<char>>)| e.0)
}

/// Inserts name `n` into the names `v`, kept in string order.
fn insert_name(v: &mut Vec<String>, n: String)
    requires
        sorted_by(string_views(old(v)@), str_order()),
    ensures
        sorted_by(string_views(final(v)@), str_order()),
        string_views(final(v)@).to_set() == string_views(old(v)@).to_set().insert(n@),
{
    proof {
        lemma_str_order();
    }
    let ghost sv = string_views(v@);
    let nc = chars_of(n.as_str());
    let mut p: usize = 0;
    while p < v.len()
        invariant
            p <= v@.len(),
            sv == string_views(v@),
            nc@ == n@,
            sorted_by(sv, str_order()),
            forall|q: int| 0 <= q < p ==> seq_lt(#[trigger] sv[q], n@),
        ensures
            p < v@.len() ==> !seq_lt(sv[p as int], n@),
        decreases v@.len() - p,
    {
        let vc = chars_of(v[p].as_str());
        assert(sv[p as int] == vc@);
        if !chars_lt(vc.as_slice(), nc.as_slice()) {
            break;
        }
        p = p + 1;
    }
    if p < v.len() {
        let vc = chars_of(v[p].as_str());
        assert(sv[p as int] == vc@);
        if chars_eq(vc.as_slice(), nc.as_slice()) {
            assert(sv.to_set() =~= sv.to_set().insert(n@)) by {
                assert(sv.to_set().contains(sv[p as int]));
            }
            return;
        }
    }
    v.insert(p, n);
    proof {
        let nv = string_views(v@);
        assert(nv =~= sv.insert(p as int, n@));
        if p < sv.len() {
            lemma_trichotomy(sv[p as int], n@);
        }
        assert forall|a: int, b: int| 0 <= a < b < nv.len() implies str_order()(#[trigger] nv[a], #[trigger] nv[b]) by {
            if b < p {
                assert(nv[a] == sv[a] && nv[b] == sv[b]);
            } else if b == p {
                assert(nv[a] == sv[a]);
            } else if a < p {
                assert(nv[a] == sv[a] && nv[b] == sv[b - 1]);
                assert(str_order()(sv[a], n@));
                if b - 1 > p {
                    assert(str_order()(sv[p as int], sv[b - 1]));
                    lemma_transitive(n@, sv[p as int], sv[b - 1]);
                }
                lemma_transitive(sv[a], n@, sv[b - 1]);
            } else if a == p {
                assert(nv[b] == sv[b - 1]);
                if b - 1 > p {
                    assert(str_order()(sv[p as int], sv[b - 1]));
                    lemma_transitive(n@, sv[p as int], sv[b - 1]);
                }
            } else {
                assert(nv[a] == sv[a - 1] && nv[b] == sv[b - 1]);
            }
        }
        assert forall|x: Seq<char>| nv.to_set().contains(x) == sv.to_set().insert(n@).contains(x) by {
            if nv.contains(x) {
                let i = choose|i: int| 0 <= i < nv.len() && nv[i] == x;
                if i < p {
                    assert(sv[i] == x);
                } else if i > p {
                    assert(sv[i - 1] == x);
                }
            }
            if sv.contains(x) {
                let i = choose|i: int| 0 <= i < sv.len() && sv[i] == x;
                if i < p {
                    assert(nv[i] == x);
                } else {
                    assert(nv[i + 1] == x);
                }
            }
            if x == n@ {
                assert(nv[p as int] == x);
            }
        }
        assert(nv.to_set() =~= sv.to_set().insert(n@));
    }
}

/// Where file `f` is listed in `v`, if it is.
fn file_position(v: &Vec<(String, Vec<String>)>, f: &[char]) -> (r: Option<usize>)
    ensures
        match r {
            Some(k) => k < v@.len() && v@[k as int].0@ == f@,
            None => forall|k: int| 0 <= k < v@.len() ==> (#[trigger] v@[k]).0@ != f@,
        },
{
    let mut k: usize = 0;
    while k < v.len()
        invariant
            k <= v@.len(),
            forall|q: int| 0 <= q < k ==> (#[trigger] v@[q]).0@ != f@,
        decreases v@.len() - k,
    {
        let c = chars_of(v[k].0.as_str());
        if chars_eq(c.as_slice(), f) {
            return Some(k);
        }
        k = k + 1;
    }
    None
}

/// Inserts file `f`, which is not listed, with `names`, keeping path order.
fn insert_file(v: &mut Vec<(String, Vec<String>)>, f: String, names: Vec<String>) -> (p: usize)
    requires
        sorted_by(keys_of(ff_view(old(v)@)), path_order()),
        forall|k: int| 0 <= k < old(v)@.len() ==> (#[trigger] old(v)@[k]).0@ != f@,
    ensures
        p <= old(v)@.len(),
        final(v)@ == old(v)@.insert(p as int, (f, names)),
        sorted_by(keys_of(ff_view(final(v)@)), path_order()),
{
    proof {
        lemma_path_order();
    }
    let ghost ks = keys_of(ff_view(v@));
    let fc = chars_of(f.as_str());
    let mut p: usize = 0;
    while p < v.len()
        invariant
            p <= v@.len(),
            ks == keys_of(ff_view(v@)),
            fc@ == f@,
            forall|q: int| 0 <= q < p ==> path_order()(#[trigger] ks[q], f@),
        ensures
            p < v@.len() ==> !path_order()(ks[p as int], f@),
        decreases v@.len() - p,
    {
        let vc = chars_of(v[p].0.as_str());
        assert(ks[p as int] == vc@);
        if !path_lt(vc.as_slice(), fc.as_slice()) {
            break;
        }
        p = p + 1;
    }
    let ghost old_v = v@;
    v.insert(p, (f, names));
    proof {
        let nk = keys_of(ff_view(v@));
        assert(nk =~= ks.insert(p as int, f@));
        if p < ks.len() {
            assert(ks[p as int] == old_v[p as int].0@);
            assert(ks[p as int] != f@);
            assert(path_order()(f@, ks[p as int]));
        }
        assert forall|a: int, b: int| 0 <= a < b < nk.len() implies path_order()(#[trigger] nk[a], #[trigger] nk[b]) by {
            if b < p {
                assert(nk[a] == ks[a] && nk[b] == ks[b]);
            } else if b == p {
                assert(nk[a] == ks[a]);
            } else if a < p {
                assert(nk[a] == ks[a] && nk[b] == ks[b - 1]);
                if b - 1 > p {
                    assert(path_order()(ks[p as int], ks[b - 1]));
                }
            } else if a == p {
                assert(nk[b] == ks[b - 1]);
                if b - 1 > p {
                    assert(path_order()(ks[p as int], ks[b - 1]));
                }
            } else {
                assert(nk[a] == ks[a - 1] && nk[b] == ks[b - 1]);
            }
        }
    }
    p
}

proof fn lemma_file_fixtures_step(ds: Seq<DefinitionView>, i: int)
    requires
        0 <= i < ds.len(),
    ensures
        ({
            let m = file_fixtures(ds.take(i));
            let f = ds[i].file_path;
            let n = ds[i].name;
            file_fixtures(ds.take(i + 1)) == if m.contains_key(f) {
                m.insert(f, m[f].insert(n))
            } else {
                m.insert(f, set![n])
            }
        }),
{
    let a = ds.take(i);
    let b = ds.take(i + 1);
    let m = file_fixtures(a);
    let f = ds[i].file_path;
    let n = ds[i].name;
    let mb = file_fixtures(b);
    let expect = if m.contains_key(f) {
        m.insert(f, m[f].insert(n))
    } else {
        m.insert(f, set![n])
    };
    assert(b[i] == ds[i]);
    assert forall|k: Seq<char>| mb.contains_key(k) <==> expect.contains_key(k) by {
        if mb.contains_key(k) {
            let j = choose|j: int| 0 <= j < b.len() && (#[trigger] b[j]).file_path == k;
            if j < i {
                assert(a[j] == b[j]);
            }
        }
        if m.contains_key(k) {
            let j = choose|j: int| 0 <= j < a.len() && (#[trigger] a[j]).file_path == k;
            assert(b[j] == a[j]);
        }
    }
    assert forall|k: Seq<char>| #[trigger] mb.contains_key(k) implies mb[k] == expect[k] by {
        assert forall|x: Seq<char>| mb[k].contains(x) == expect[k].contains(x) by {
            if mb[k].contains(x) {
                let j = choose|j: int| 0 <= j < b.len() && (#[trigger] b[j]).file_path == k && b[j].name == x;
                if j < i {
                    assert(a[j] == b[j]);
                    assert(m.contains_key(k));
                }
            }
            if m.contains_key(k) && m[k].contains(x) {
                let j = choose|j: int| 0 <= j < a.len() && (#[trigger] a[j]).file_path == k && a[j].name == x;
                assert(b[j] == a[j]);
            }
        }
        assert(mb[k] =~= expect[k]);
    }
    assert(mb =~= expect);
}

/// The files that define fixtures, in path order, each with its fixture
/// names in string order.
fn build_file_fixtures(defs: &Vec<FixtureDefinition>) -> (r: Vec<(String, Vec<String>)>)
    ensures
        lists_files(ff_view(r@), file_fixtures(def_views(defs@))),
{
    let ghost ds = def_views(defs@);
    let mut v: Vec<(String, Vec<String>)> = Vec::new();
    assert(file_fixtures(ds.take(0)) =~= Map::<Seq<char>, Set<Seq<char>>>::empty());
    assert(keys_of(ff_view(v@)) =~= Seq::<Seq<char>>::empty());
    let mut i: usize = 0;
    while i < defs.len()
        invariant
            i <= ds.len(),
            ds == def_views(defs@),
            lists_files(ff_view(v@), file_fixtures(ds.take(i as int))),
        decreases ds.len() - i,
    {
        let d = &defs[i];
        assert(ds[i as int] == d@);
        proof {
            lemma_file_fixtures_step(ds, i as int);
        }
        let ghost m = file_fixtures(ds.take(i as int));
        let ghost m2 = file_fixtures(ds.take(i + 1));
        let ghost fv = ff_view(v@);
        let fc = chars_of(d.file_path.as_str());
        match file_position(&v, fc.as_slice()) {
            Some(k) => {
                assert(fv[k as int].0 == d.file_path@);
                let mut e = v.remove(k);
                let ghost before_names = string_views(e.1@);
                insert_name(&mut e.1, d.name.clone());
                v.insert(k, e);
                proof {
                    let nv = ff_view(v@);
                    assert(nv =~= fv.update(k as int, (d.file_path@, string_views(e.1@))));
                    assert(m.contains_key(d.file_path@));
                    assert(keys_of(nv) =~= keys_of(fv));
                    assert forall|q: Seq<char>| m2.contains_key(q) <==> exists|j: int| 0 <= j < nv.len() && (#[trigger] nv[j]).0 == q by {
                        if m2.contains_key(q) && q != d.file_path@ {
                            let j = choose|j: int| 0 <= j < fv.len() && (#[trigger] fv[j]).0 == q;
                            assert(nv[j].0 == q);
                        }
                        if q == d.file_path@ {
                            assert(nv[k as int].0 == q);
                        }
                        if exists|j: int| 0 <= j < nv.len() && (#[trigger] nv[j]).0 == q {
                            let j = choose|j: int| 0 <= j < nv.len() && (#[trigger] nv[j]).0 == q;
                            assert(fv[j].0 == q);
                        }
                    }
                    assert forall|j: int| 0 <= j < nv.len() implies sorted_by((#[trigger] nv[j]).1, str_order())
                        && nv[j].1.to_set() == m2[nv[j].0] by {
                        if j != k {
                            assert(nv[j] == fv[j]);
                            lemma_path_order();
                            assert(fv[j].0 != fv[k as int].0) by {
                                if j < k {
                                    assert(sorted_by(keys_of(fv), path_order()));
                                    assert(path_order()(keys_of(fv)[j], keys_of(fv)[k as int]));
                                } else {
                                    assert(path_order()(keys_of(fv)[k as int], keys_of(fv)[j]));
                                }
                            }
                        }
                    }
                }
            },
            None => {
                let mut names: Vec<String> = Vec::new();
                names.push(d.name.clone());
                let ghost ns = string_views(names@);
                proof {
                    assert(ns =~= seq![d.name@]);
                    assert(ns.to_set() =~= set![d.name@]) by {
                        assert(ns.contains(d.name@)) by {
                            assert(ns[0] == d.name@);
                        }
                    }
                    assert(!m.contains_key(d.file_path@)) by {
                        if m.contains_key(d.file_path@) {
                            let j = choose|j: int| 0 <= j < fv.len() && (#[trigger] fv[j]).0 == d.file_path@;
                            assert(v@[j].0@ == fc@);
                        }
                    }
                    assert forall|k: int| 0 <= k < v@.len() implies (#[trigger] v@[k]).0@ != d.file_path@ by {}
                }
                let p = insert_file(&mut v, d.file_path.clone(), names);
                proof {
                    let nv = ff_view(v@);
                    assert(nv =~= fv.insert(p as int, (d.file_path@, ns)));
                    assert forall|q: Seq<char>| m2.contains_key(q) <==> exists|j: int| 0 <= j < nv.len() && (#[trigger] nv[j]).0 == q by {
                        if m2.contains_key(q) {
                            if q == d.file_path@ {
                                assert(nv[p as int].0 == q);
                            } else {
                                let j = choose|j: int| 0 <= j < fv.len() && (#[trigger] fv[j]).0 == q;
                                if j < p {
                                    assert(nv[j].0 == q);
                                } else {
                                    assert(nv[j + 1].0 == q);
                                }
                            }
                        }
                        if exists|j: int| 0 <= j < nv.len() && (#[trigger] nv[j]).0 == q {
                            let j = choose|j: int| 0 <= j < nv.len() && (#[trigger] nv[j]).0 == q;
                            if j < p {
                                assert(fv[j].0 == q);
                            } else if j > p {
                                assert(fv[j - 1].0 == q);
                            }
                        }
                    }
                    assert forall|j: int| 0 <= j < nv.len() implies sorted_by((#[trigger] nv[j]).1, str_order())
                        && nv[j].1.to_set() == m2[nv[j].0] by {
                        if j < p {
                            assert(nv[j] == fv[j]);
                        } else if j > p {
                            assert(nv[j] == fv[j - 1]);
                        } else {
                            assert(sorted_by(ns, str_order()));
                        }
                    }
                }
            },
        }
        i = i + 1;
    }
    assert(ds.take(ds.len() as int) =~= ds);
    v
}

// ---------------------------------------------------------------------------
// The directories shown

/// The ancestors of `f` below `root`: its parent, grandparent and so on,
/// stopping before `root` or an empty path.
pub open spec fn ancestors_below(f: Seq<char>, root: Seq<char>) -> Seq<Seq<char>>
    decreases f.len(),
{
    match parent(f) {
        None => Seq::empty(),
        Some(q) => if q == root || q.len() == 0 {
            Seq::empty()
        } else {
            proof {
                lemma_parent_shorter(f);
            }
            seq![q] + ancestors_below(q, root)
        },
    }
}

/// The paths of the tree: the files with fixtures and their ancestors below
/// `root`.
pub open spec fn tree_paths(m: Map<Seq<char>, Set<Seq<char>>>, root: Seq<char>) -> Set<Seq<char>> {
    Set::new(
        |p: Seq<char>|
            m.contains_key(p) || exists|f: Seq<char>| #[trigger] m.contains_key(f) && ancestors_below(f, root).contains(p),
    )
}

/// The paths among `all` whose parent is `q`, in order.
pub open spec fn with_parent(all: Seq<Seq<char>>, q: Seq<char>) -> Seq<Seq<char>>
    decreases all.len(),
{
    if all.len() == 0 {
        Seq::empty()
    } else if parent(all.last()) == Some(q) {
        with_parent(all.drop_last(), q).push(all.last())
    } else {
        with_parent(all.drop_last(), q)
    }
}

/// The children of directory `q` in the tree (none for `root` or `""`).
pub open spec fn children_of(all: Seq<Seq<char>>, root: Seq<char>, q: Seq<char>) -> Seq<Seq<char>> {
    if q == root || q.len() == 0 {
        Seq::empty()
    } else {
        with_parent(all, q)
    }
}

/// The last component of `p`, as `Path::file_name` gives it.
pub open spec fn file_name(p: Seq<char>) -> Option<Seq<char>> {
    let k = path_key(p);
    if k.len() > 0 && k.last().len() > 0 && k.last()[0] == '\u{1}' {
        Some(k.last().drop_first())
    } else {
        None
    }
}

pub open spec fn display_name(p: Seq<char>) -> Seq<char> {
    match file_name(p) {
        Some(n) => n,
        None => "?"@,
    }
}

// ---------------------------------------------------------------------------
// The lines of the tree

/// One line of the tree: a directory, a file with how many fixtures it shows,
/// or a fixture with how often it is used. `prefix` holds the indentation and
/// the branch drawn before the name.
#[derive(Debug)]
pub enum TreeLine {
    Directory { prefix: String, name: String, editable: bool },
    File { prefix: String, name: String, fixture_count: usize },
    Fixture { prefix: String, name: String, usage_count: usize, autouse: bool },
}

pub enum LineView {
    Directory(Seq<char>, Seq<char>, bool),
    File(Seq<char>, Seq<char>, nat),
    Fixture(Seq<char>, Seq<char>, nat, bool),
}

pub open spec fn line_view(l: TreeLine) -> LineView {
    match l {
        TreeLine::Directory { prefix, name, editable } => LineView::Directory(prefix@, name@, editable),
        TreeLine::File { prefix, name, fixture_count } => LineView::File(prefix@, name@, fixture_count as nat),
        TreeLine::Fixture { prefix, name, usage_count, autouse } => LineView::Fixture(
            prefix@,
            name@,
            usage_count as nat,
            autouse,
        ),
    }
}

pub open spec fn line_views(v: Seq<TreeLine>) -> Seq<LineView> {
    v.map_values(|l: TreeLine| line_view(l))
}

/// What the tree shows besides its shape: the usage count of each
/// (file, fixture), the autouse ones, the directories of editable installs,
/// and which fixtures to show.
pub struct TreeFacts {
    pub counts: Seq<((Seq<char>, Seq<char>), nat)>,
    pub autouse: Set<(Seq<char>, Seq<char>)>,
    pub editable: Set<Seq<char>>,
    pub skip_unused: bool,
    pub only_unused: bool,
}

/// The count recorded for key `k`, or 0.
pub open spec fn count_for(cs: Seq<((Seq<char>, Seq<char>), nat)>, k: (Seq<char>, Seq<char>)) -> nat
    decreases cs.len(),
{
    if cs.len() == 0 {
        0
    } else if cs[0].0 == k {
        cs[0].1
    } else {
        count_for(cs.drop_first(), k)
    }
}

/// Whether the tree shows fixture `n` of file `p`: `only_unused` shows the
/// unused ones that are not autouse, `skip_unused` the used or autouse ones.
pub open spec fn shown(t: TreeFacts, p: Seq<char>, n: Seq<char>) -> bool {
    let c = count_for(t.counts, (p, n));
    let a = t.autouse.contains((p, n));
    if t.only_unused {
        c == 0 && !a
    } else if t.skip_unused {
        c > 0 || a
    } else {
        true
    }
}

/// The names among `ns` that the tree shows for file `p`, in order.
pub open spec fn shown_names(t: TreeFacts, p: Seq<char>, ns: Seq<Seq<char>>) -> Seq<Seq<char>>
    decreases ns.len(),
{
    if ns.len() == 0 {
        Seq::empty()
    } else if shown(t, p, ns.last()) {
        shown_names(t, p, ns.drop_last()).push(ns.last())
    } else {
        shown_names(t, p, ns.drop_last())
    }
}

/// The fixtures shown for file `p`, in string order.
pub open spec fn shown_fixtures(m: Map<Seq<char>, Set<Seq<char>>>, t: TreeFacts, p: Seq<char>) -> Seq<Seq<char>> {
    shown_names(t, p, sorted_set(m[p], str_order()))
}

/// Whether `p` shows anything: a file with a shown fixture, or a directory
/// with such a descendant.
pub open spec fn has_visible(
    m: Map<Seq<char>, Set<Seq<char>>>,
    t: TreeFacts,
    all: Seq<Seq<char>>,
    root: Seq<char>,
    p: Seq<char>,
    fuel: nat,
) -> bool
    decreases fuel, 0nat, 0int,
{
    if fuel == 0 {
        false
    } else if m.contains_key(p) {
        shown_fixtures(m, t, p).len() > 0
    } else {
        any_visible(m, t, all, root, children_of(all, root, p), children_of(all, root, p).len() as int, (fuel - 1) as nat)
    }
}

/// Whether one of the first `k` paths of `ch` shows anything.
pub open spec fn any_visible(
    m: Map<Seq<char>, Set<Seq<char>>>,
    t: TreeFacts,
    all: Seq<Seq<char>>,
    root: Seq<char>,
    ch: Seq<Seq<char>>,
    k: int,
    fuel: nat,
) -> bool
    decreases fuel, 1nat, k,
{
    if k <= 0 || k > ch.len() {
        false
    } else {
        any_visible(m, t, all, root, ch, k - 1, fuel) || has_visible(m, t, all, root, ch[k - 1], fuel)
    }
}

pub open spec fn branch(is_last: bool) -> Seq<char> {
    if is_last {
        "└── "@
    } else {
        "├── "@
    }
}

pub open spec fn indent(is_last: bool) -> Seq<char> {
    if is_last {
        "    "@
    } else {
        "│   "@
    }
}

/// The lines for path `p`: a file with its shown fixtures, or a directory
/// (when something below it is shown) followed by its children.
pub open spec fn render(
    m: Map<Seq<char>, Set<Seq<char>>>,
    t: TreeFacts,
    all: Seq<Seq<char>>,
    root: Seq<char>,
    p: Seq<char>,
    prefix: Seq<char>,
    is_last: bool,
    top: bool,
    fuel: nat,
) -> Seq<LineView>
    decreases fuel, 0nat, 0int,
{
    let conn = if top {
        Seq::<char>::empty()
    } else {
        branch(is_last)
    };
    let inner = if top {
        Seq::<char>::empty()
    } else {
        prefix + indent(is_last)
    };
    if fuel == 0 {
        Seq::empty()
    } else if m.contains_key(p) {
        let fx = shown_fixtures(m, t, p);
        if fx.len() == 0 {
            Seq::empty()
        } else {
            seq![LineView::File(prefix + conn, display_name(p), fx.len())] + Seq::new(
                fx.len(),
                |j: int|
                    LineView::Fixture(
                        inner + branch(j == fx.len() - 1),
                        fx[j],
                        count_for(t.counts, (p, fx[j])),
                        t.autouse.contains((p, fx[j])),
                    ),
            )
        }
    } else {
        let ch = children_of(all, root, p);
        if ch.len() == 0 || !any_visible(m, t, all, root, ch, ch.len() as int, (fuel - 1) as nat) {
            Seq::empty()
        } else {
            seq![LineView::Directory(prefix + conn, display_name(p), t.editable.contains(p))] + render_list(
                m,
                t,
                all,
                root,
                ch,
                inner,
                ch.len() as int,
                false,
                (fuel - 1) as nat,
            )
        }
    }
}

/// The lines for the first `k` paths of `ps`, each drawn after `prefix`.
pub open spec fn render_list(
    m: Map<Seq<char>, Set<Seq<char>>>,
    t: TreeFacts,
    all: Seq<Seq<char>>,
    root: Seq<char>,
    ps: Seq<Seq<char>>,
    prefix: Seq<char>,
    k: int,
    top: bool,
    fuel: nat,
) -> Seq<LineView>
    decreases fuel, 1nat, k,
{
    if k <= 0 || k > ps.len() {
        Seq::empty()
    } else {
        render_list(m, t, all, root, ps, prefix, k - 1, top, fuel) + render(
            m,
            t,
            all,
            root,
            ps[k - 1],
            prefix,
            k - 1 == ps.len() - 1,
            top,
            fuel,
        )
    }
}


/// The name shown for path `p`.
/// The last component of path `p`, when it is a name.
pub fn file_name_of(p: &[char]) -> (r: Option<Vec<char>>)
    ensures
        match r {
            Some(n) => file_name(p@) == Some(n@),
            None => file_name(p@) is None,
        },
{
    let k = path_key_of(p);
    assert(views(k@) == path_key(p@));
    if k.len() > 0 && k[k.len() - 1].len() > 0 && k[k.len() - 1][0] == '\u{1}' {
        let last = &k[k.len() - 1];
        assert(views(k@).last() == last@);
        let mut r: Vec<char> = Vec::new();
        let mut i: usize = 1;
        while i < last.len()
            invariant
                1 <= i <= last@.len(),
                r@ == last@.subrange(1, i as int),
            decreases last@.len() - i,
        {
            r.push(last[i]);
            assert(last@.subrange(1, i + 1) =~= last@.subrange(1, i as int).push(last@[i as int]));
            i = i + 1;
        }
        assert(last@.drop_first() =~= last@.subrange(1, last@.len() as int));
        Some(r)
    } else {
        None
    }
}

fn display_name_of(p: &[char]) -> (r: Vec<char>)
    ensures
        r@ == display_name(p@),
{
    match file_name_of(p) {
        Some(n) => n,
        None => chars_of("?"),
    }
}

/// The count recorded for (`p`, `n`) in `cs`, or 0.
fn count_lookup(cs: &Vec<crate::usage::UsageCount>, p: &[char], n: &[char]) -> (c: usize)
    ensures
        c == count_for(crate::usage::count_views(cs@), (p@, n@)),
{
    let ghost cv = crate::usage::count_views(cs@);
    assert(cv.skip(0) =~= cv);
    let mut k: usize = 0;
    while k < cs.len()
        invariant
            k <= cs@.len(),
            cv == crate::usage::count_views(cs@),
            count_for(cv, (p@, n@)) == count_for(cv.skip(k as int), (p@, n@)),
        decreases cs@.len() - k,
    {
        let e = &cs[k];
        let ghost rest = cv.skip(k as int);
        assert(rest[0] == ((e.file_path@, e.name@), e.count as nat));
        assert(rest.drop_first() =~= cv.skip(k + 1));
        let fc = chars_of(e.file_path.as_str());
        let nc = chars_of(e.name.as_str());
        if chars_eq(fc.as_slice(), p) && chars_eq(nc.as_slice(), n) {
            return e.count;
        }
        k = k + 1;
    }
    assert(cv.skip(k as int).len() == 0);
    0
}

/// Whether (`p`, `n`) is among `v`.
fn pair_listed(v: &Vec<(String, String)>, p: &[char], n: &[char]) -> (b: bool)
    ensures
        b == crate::usage::pair_views(v@).contains((p@, n@)),
{
    let ghost pv = crate::usage::pair_views(v@);
    let mut k: usize = 0;
    while k < v.len()
        invariant
            k <= v@.len(),
            pv == crate::usage::pair_views(v@),
            forall|q: int| 0 <= q < k ==> #[trigger] pv[q] != (p@, n@),
        decreases v@.len() - k,
    {
        let fc = chars_of(v[k].0.as_str());
        let nc = chars_of(v[k].1.as_str());
        assert(pv[k as int] == (v@[k as int].0@, v@[k as int].1@));
        if chars_eq(fc.as_slice(), p) && chars_eq(nc.as_slice(), n) {
            return true;
        }
        k = k + 1;
    }
    false
}

/// Whether `p` is among `v`.
fn path_listed(v: &Vec<String>, p: &[char]) -> (b: bool)
    ensures
        b == string_views(v@).contains(p@),
{
    crate::resolver::contains_path(v.as_slice(), p)
}

/// The fixtures shown for file `ff[k]`, in order.
fn shown_fixtures_exec(
    ff: &Vec<(String, Vec<String>)>,
    k: usize,
    counts: &Vec<crate::usage::UsageCount>,
    autouse: &Vec<(String, String)>,
    skip_unused: bool,
    only_unused: bool,
    Ghost(m): Ghost<Map<Seq<char>, Set<Seq<char>>>>,
    Ghost(t): Ghost<TreeFacts>,
) -> (r: Vec<String>)
    requires
        k < ff@.len(),
        lists_files(ff_view(ff@), m),
        t.counts == crate::usage::count_views(counts@),
        t.autouse == crate::usage::pair_views(autouse@).to_set(),
        t.skip_unused == skip_unused,
        t.only_unused == only_unused,
    ensures
        string_views(r@) == shown_fixtures(m, t, ff@[k as int].0@),
{
    let p = chars_of(ff[k].0.as_str());
    let names = &ff[k].1;
    let ghost nv = string_views(names@);
    proof {
        let fv = ff_view(ff@);
        assert(fv[k as int] == (p@, nv));
        lemma_str_order();
        lemma_is_sorted_set(nv, str_order());
        assert(nv.to_set() == m[p@]);
    }
    let mut r: Vec<String> = Vec::new();
    let mut i: usize = 0;
    while i < names.len()
        invariant
            i <= names@.len(),
            nv == string_views(names@),
            t.counts == crate::usage::count_views(counts@),
            t.autouse == crate::usage::pair_views(autouse@).to_set(),
            t.skip_unused == skip_unused,
            t.only_unused == only_unused,
            string_views(r@) == shown_names(t, p@, nv.take(i as int)),
        decreases names@.len() - i,
    {
        let n = chars_of(names[i].as_str());
        assert(nv.take(i + 1).drop_last() =~= nv.take(i as int));
        assert(nv.take(i + 1).last() == n@);
        let c = count_lookup(counts, p.as_slice(), n.as_slice());
        let a = pair_listed(autouse, p.as_slice(), n.as_slice());
        let show = if only_unused {
            c == 0 && !a
        } else if skip_unused {
            c > 0 || a
        } else {
            true
        };
        if show {
            let ghost before = string_views(r@);
            r.push(names[i].clone());
            assert(string_views(r@) =~= before.push(n@));
        }
        i = i + 1;
    }
    assert(nv.take(nv.len() as int) =~= nv);
    r
}

/// The paths among `all` whose parent is `q`, in order.
fn with_parent_exec(all: &Vec<String>, q: &[char]) -> (r: Vec<String>)
    ensures
        string_views(r@) == with_parent(string_views(all@), q@),
{
    let mut r: Vec<String> = Vec::new();
    let ghost av = string_views(all@);
    let mut i: usize = 0;
    while i < all.len()
        invariant
            i <= all@.len(),
            av == string_views(all@),
            string_views(r@) == with_parent(av.take(i as int), q@),
        decreases all@.len() - i,
    {
        let pc = chars_of(all[i].as_str());
        assert(av.take(i + 1).drop_last() =~= av.take(i as int));
        assert(av.take(i + 1).last() == pc@);
        match parent_of(pc.as_slice()) {
            Some(par) => {
                if chars_eq(par.as_slice(), q) {
                    let ghost before = string_views(r@);
                    r.push(all[i].clone());
                    assert(string_views(r@) =~= before.push(pc@));
                }
            },
            None => {},
        }
        i = i + 1;
    }
    assert(av.take(av.len() as int) =~= av);
    r
}

/// The paths among `all` whose parent is `q` (none for `root` or `""`).
fn children_exec(all: &Vec<String>, root: &[char], q: &[char]) -> (r: Vec<String>)
    ensures
        string_views(r@) == children_of(string_views(all@), root@, q@),
{
    if chars_eq(q, root) || q.len() == 0 {
        let r: Vec<String> = Vec::new();
        assert(string_views(r@) =~= Seq::<Seq<char>>::empty());
        return r;
    }
    with_parent_exec(all, q)
}

/// Whether one of the first `k` of `ch` shows anything, computed by
/// [`has_visible_exec`] on each until one does.
fn any_visible_exec(
    ff: &Vec<(String, Vec<String>)>,
    counts: &Vec<crate::usage::UsageCount>,
    autouse: &Vec<(String, String)>,
    all: &Vec<String>,
    root: &[char],
    skip_unused: bool,
    only_unused: bool,
    ch: &Vec<String>,
    fuel: usize,
    Ghost(m): Ghost<Map<Seq<char>, Set<Seq<char>>>>,
    Ghost(t): Ghost<TreeFacts>,
) -> (r: bool)
    requires
        lists_files(ff_view(ff@), m),
        t.counts == crate::usage::count_views(counts@),
        t.autouse == crate::usage::pair_views(autouse@).to_set(),
        t.skip_unused == skip_unused,
        t.only_unused == only_unused,
    ensures
        r == any_visible(m, t, string_views(all@), root@, string_views(ch@), ch@.len() as int, fuel as nat),
    decreases fuel, 1nat,
{
    let ghost cv = string_views(ch@);
    let mut any = false;
    let mut j: usize = 0;
    while j < ch.len()
        invariant
            j <= ch@.len(),
            cv == string_views(ch@),
            lists_files(ff_view(ff@), m),
            t.counts == crate::usage::count_views(counts@),
            t.autouse == crate::usage::pair_views(autouse@).to_set(),
            t.skip_unused == skip_unused,
            t.only_unused == only_unused,
            any == any_visible(m, t, string_views(all@), root@, cv, j as int, fuel as nat),
        decreases ch@.len() - j,
    {
        if !any {
            let c = chars_of(ch[j].as_str());
            assert(cv[j as int] == c@);
            any = has_visible_exec(ff, counts, autouse, all, root, skip_unused, only_unused, c.as_slice(), fuel, Ghost(m), Ghost(t));
        }
        j = j + 1;
    }
    any
}

/// Whether `p` shows anything.
fn has_visible_exec(
    ff: &Vec<(String, Vec<String>)>,
    counts: &Vec<crate::usage::UsageCount>,
    autouse: &Vec<(String, String)>,
    all: &Vec<String>,
    root: &[char],
    skip_unused: bool,
    only_unused: bool,
    p: &[char],
    fuel: usize,
    Ghost(m): Ghost<Map<Seq<char>, Set<Seq<char>>>>,
    Ghost(t): Ghost<TreeFacts>,
) -> (r: bool)
    requires
        lists_files(ff_view(ff@), m),
        t.counts == crate::usage::count_views(counts@),
        t.autouse == crate::usage::pair_views(autouse@).to_set(),
        t.skip_unused == skip_unused,
        t.only_unused == only_unused,
    ensures
        r == has_visible(m, t, string_views(all@), root@, p@, fuel as nat),
    decreases fuel, 0nat,
{
    if fuel == 0 {
        return false;
    }
    match file_position(ff, p) {
        Some(k) => {
            assert(ff_view(ff@)[k as int].0 == p@);
            let fx = shown_fixtures_exec(ff, k, counts, autouse, skip_unused, only_unused, Ghost(m), Ghost(t));
            fx.len() > 0
        },
        None => {
            proof {
                if m.contains_key(p@) {
                    let j = choose|j: int| 0 <= j < ff_view(ff@).len() && (#[trigger] ff_view(ff@)[j]).0 == p@;
                    assert(ff@[j].0@ == p@);
                }
            }
            let ch = children_exec(all, root, p);
            any_visible_exec(ff, counts, autouse, all, root, skip_unused, only_unused, &ch, fuel - 1, Ghost(m), Ghost(t))
        },
    }
}

fn branch_chars(is_last: bool) -> (r: Vec<char>)
    ensures
        r@ == branch(is_last),
{
    if is_last {
        chars_of("└── ")
    } else {
        chars_of("├── ")
    }
}

fn indent_chars(is_last: bool) -> (r: Vec<char>)
    ensures
        r@ == indent(is_last),
{
    if is_last {
        chars_of("    ")
    } else {
        chars_of("│   ")
    }
}

/// Appends the lines for the first `k` paths of `ps` to `out`.
fn render_list_exec(
    ff: &Vec<(String, Vec<String>)>,
    counts: &Vec<crate::usage::UsageCount>,
    autouse: &Vec<(String, String)>,
    editable: &Vec<String>,
    all: &Vec<String>,
    root: &[char],
    skip_unused: bool,
    only_unused: bool,
    ps: &Vec<String>,
    prefix: &Vec<char>,
    top: bool,
    fuel: usize,
    out: &mut Vec<TreeLine>,
    Ghost(m): Ghost<Map<Seq<char>, Set<Seq<char>>>>,
    Ghost(t): Ghost<TreeFacts>,
)
    requires
        lists_files(ff_view(ff@), m),
        t.counts == crate::usage::count_views(counts@),
        t.autouse == crate::usage::pair_views(autouse@).to_set(),
        t.editable == string_views(editable@).to_set(),
        t.skip_unused == skip_unused,
        t.only_unused == only_unused,
    ensures
        line_views(final(out)@) == line_views(old(out)@) + render_list(
            m,
            t,
            string_views(all@),
            root@,
            string_views(ps@),
            prefix@,
            ps@.len() as int,
            top,
            fuel as nat,
        ),
    decreases fuel, 1nat,
{
    let ghost start = line_views(out@);
    let ghost pv = string_views(ps@);
    let mut j: usize = 0;
    while j < ps.len()
        invariant
            j <= ps@.len(),
            pv == string_views(ps@),
            lists_files(ff_view(ff@), m),
            t.counts == crate::usage::count_views(counts@),
            t.autouse == crate::usage::pair_views(autouse@).to_set(),
            t.editable == string_views(editable@).to_set(),
            t.skip_unused == skip_unused,
            t.only_unused == only_unused,
            line_views(out@) == start + render_list(m, t, string_views(all@), root@, pv, prefix@, j as int, top, fuel as nat),
        decreases ps@.len() - j,
    {
        let c = chars_of(ps[j].as_str());
        assert(pv[j as int] == c@);
        let ghost before = line_views(out@);
        render_exec(
            ff,
            counts,
            autouse,
            editable,
            all,
            root,
            skip_unused,
            only_unused,
            c.as_slice(),
            prefix,
            j == ps.len() - 1,
            top,
            fuel,
            out,
            Ghost(m),
            Ghost(t),
        );
        assert(line_views(out@) =~= start + render_list(m, t, string_views(all@), root@, pv, prefix@, j + 1, top, fuel as nat));
        j = j + 1;
    }
}

/// Appends the lines for path `p` to `out`.
fn render_exec(
    ff: &Vec<(String, Vec<String>)>,
    counts: &Vec<crate::usage::UsageCount>,
    autouse: &Vec<(String, String)>,
    editable: &Vec<String>,
    all: &Vec<String>,
    root: &[char],
    skip_unused: bool,
    only_unused: bool,
    p: &[char],
    prefix: &Vec<char>,
    is_last: bool,
    top: bool,
    fuel: usize,
    out: &mut Vec<TreeLine>,
    Ghost(m): Ghost<Map<Seq<char>, Set<Seq<char>>>>,
    Ghost(t): Ghost<TreeFacts>,
)
    requires
        lists_files(ff_view(ff@), m),
        t.counts == crate::usage::count_views(counts@),
        t.autouse == crate::usage::pair_views(autouse@).to_set(),
        t.editable == string_views(editable@).to_set(),
        t.skip_unused == skip_unused,
        t.only_unused == only_unused,
    ensures
        line_views(final(out)@) == line_views(old(out)@) + render(
            m,
            t,
            string_views(all@),
            root@,
            p@,
            prefix@,
            is_last,
            top,
            fuel as nat,
        ),
    decreases fuel, 0nat,
{
    let ghost start = line_views(out@);
    let ghost av = string_views(all@);
    if fuel == 0 {
        assert(line_views(out@) =~= start + Seq::<LineView>::empty());
        return;
    }
    let conn: Vec<char> = if top {
        Vec::new()
    } else {
        branch_chars(is_last)
    };
    let inner: Vec<char> = if top {
        Vec::new()
    } else {
        crate::text::concat(prefix.as_slice(), indent_chars(is_last).as_slice())
    };
    assert(conn@ == (if top { Seq::<char>::empty() } else { branch(is_last) }));
    assert(inner@ == (if top { Seq::<char>::empty() } else { prefix@ + indent(is_last) }));
    let name = crate::text::string_from_chars(display_name_of(p).as_slice());
    let head = crate::text::string_from_chars(crate::text::concat(prefix.as_slice(), conn.as_slice()).as_slice());
    match file_position(ff, p) {
        Some(k) => {
            assert(ff_view(ff@)[k as int].0 == p@);
            assert(m.contains_key(p@));
            let fx = shown_fixtures_exec(ff, k, counts, autouse, skip_unused, only_unused, Ghost(m), Ghost(t));
            let ghost fv = string_views(fx@);
            if fx.len() == 0 {
                assert(line_views(out@) =~= start + Seq::<LineView>::empty());
                return;
            }
            out.push(TreeLine::File { prefix: head, name, fixture_count: fx.len() });
            let ghost first = line_views(out@);
            assert(first =~= start + seq![LineView::File(prefix@ + conn@, display_name(p@), fv.len())]);
            let mut j: usize = 0;
            while j < fx.len()
                invariant
                    j <= fx@.len(),
                    fv == string_views(fx@),
                    fv == shown_fixtures(m, t, p@),
                    t.counts == crate::usage::count_views(counts@),
                    t.autouse == crate::usage::pair_views(autouse@).to_set(),
                    line_views(out@) == first + Seq::new(
                        j as nat,
                        |q: int|
                            LineView::Fixture(
                                inner@ + branch(q == fv.len() - 1),
                                fv[q],
                                count_for(t.counts, (p@, fv[q])),
                                t.autouse.contains((p@, fv[q])),
                            ),
                    ),
                decreases fx@.len() - j,
            {
                let n = chars_of(fx[j].as_str());
                assert(fv[j as int] == n@);
                let c = count_lookup(counts, p, n.as_slice());
                let a = pair_listed(autouse, p, n.as_slice());
                let pre = crate::text::concat(inner.as_slice(), branch_chars(j == fx.len() - 1).as_slice());
                let ghost before = line_views(out@);
                out.push(
                    TreeLine::Fixture {
                        prefix: crate::text::string_from_chars(pre.as_slice()),
                        name: fx[j].clone(),
                        usage_count: c,
                        autouse: a,
                    },
                );
                assert(line_views(out@) =~= before.push(
                    LineView::Fixture(inner@ + branch(j == fv.len() - 1), fv[j as int], c as nat, a),
                ));
                assert(line_views(out@) =~= first + Seq::new(
                    (j + 1) as nat,
                    |q: int|
                        LineView::Fixture(
                            inner@ + branch(q == fv.len() - 1),
                            fv[q],
                            count_for(t.counts, (p@, fv[q])),
                            t.autouse.contains((p@, fv[q])),
                        ),
                ));
                j = j + 1;
            }
            assert(line_views(out@) =~= start + render(m, t, av, root@, p@, prefix@, is_last, top, fuel as nat));
        },
        None => {
            proof {
                if m.contains_key(p@) {
                    let j = choose|j: int| 0 <= j < ff_view(ff@).len() && (#[trigger] ff_view(ff@)[j]).0 == p@;
                    assert(ff@[j].0@ == p@);
                }
            }
            let ch = children_exec(all, root, p);
            if ch.len() == 0 {
                assert(line_views(out@) =~= start + Seq::<LineView>::empty());
                return;
            }
            let any = any_visible_exec(ff, counts, autouse, all, root, skip_unused, only_unused, &ch, fuel - 1, Ghost(m), Ghost(t));
            if !any {
                assert(line_views(out@) =~= start + Seq::<LineView>::empty());
                return;
            }
            let ed = path_listed(editable, p);
            out.push(TreeLine::Directory { prefix: head, name, editable: ed });
            let ghost first = line_views(out@);
            render_list_exec(
                ff,
                counts,
                autouse,
                editable,
                all,
                root,
                skip_unused,
                only_unused,
                &ch,
                &inner,
                false,
                fuel - 1,
                out,
                Ghost(m),
                Ghost(t),
            );
            assert(line_views(out@) =~= start + render(m, t, av, root@, p@, prefix@, is_last, top, fuel as nat));
        },
    }
}

// ---------------------------------------------------------------------------
// Lists of files kept in path order

proof fn lemma_lists_remove(v: Seq<(Seq<char>, Seq<Seq<char>>)>, m: Map<Seq<char>, Set<Seq<char>>>, k: int)
    requires
        lists_files(v, m),
        0 <= k < v.len(),
    ensures
        lists_files(v.remove(k), m.remove(v[k].0)),
{
    lemma_path_order();
    let w = v.remove(k);
    let m2 = m.remove(v[k].0);
    let kv = keys_of(v);
    let kw = keys_of(w);
    assert(kw =~= kv.remove(k));
    assert forall|a: int, b: int| 0 <= a < b < kw.len() implies path_order()(#[trigger] kw[a], #[trigger] kw[b]) by {
        if b < k {
            assert(kw[a] == kv[a] && kw[b] == kv[b]);
        } else if a < k {
            assert(kw[a] == kv[a] && kw[b] == kv[b + 1]);
        } else {
            assert(kw[a] == kv[a + 1] && kw[b] == kv[b + 1]);
        }
    }
    assert forall|q: Seq<char>| m2.contains_key(q) <==> exists|i: int| 0 <= i < w.len() && (#[trigger] w[i]).0 == q by {
        if m2.contains_key(q) {
            let i = choose|i: int| 0 <= i < v.len() && (#[trigger] v[i]).0 == q;
            if i < k {
                assert(w[i].0 == q);
            } else {
                assert(i != k);
                assert(w[i - 1].0 == q);
            }
        }
        if exists|i: int| 0 <= i < w.len() && (#[trigger] w[i]).0 == q {
            let i = choose|i: int| 0 <= i < w.len() && (#[trigger] w[i]).0 == q;
            let j = if i < k { i } else { i + 1 };
            assert(v[j].0 == q);
            assert(kv[j] == q && kv[k] == v[k].0);
            if j < k {
                assert(path_order()(kv[j], kv[k]));
            } else {
                assert(path_order()(kv[k], kv[j]));
            }
        }
    }
    assert forall|i: int| 0 <= i < w.len() implies sorted_by((#[trigger] w[i]).1, str_order()) && w[i].1.to_set() == m2[w[i].0] by {
        let j = if i < k { i } else { i + 1 };
        assert(w[i] == v[j]);
        assert(kv[j] == v[j].0 && kv[k] == v[k].0);
        if j < k {
            assert(path_order()(kv[j], kv[k]));
        } else {
            assert(path_order()(kv[k], kv[j]));
        }
    }
}

proof fn lemma_lists_update(
    v: Seq<(Seq<char>, Seq<Seq<char>>)>,
    m: Map<Seq<char>, Set<Seq<char>>>,
    q: int,
    ns: Seq<Seq<char>>,
)
    requires
        lists_files(v, m),
        0 <= q < v.len(),
        sorted_by(ns, str_order()),
    ensures
        lists_files(v.update(q, (v[q].0, ns)), m.insert(v[q].0, ns.to_set())),
{
    lemma_path_order();
    let w = v.update(q, (v[q].0, ns));
    let m2 = m.insert(v[q].0, ns.to_set());
    assert(keys_of(w) =~= keys_of(v));
    assert forall|x: Seq<char>| m2.contains_key(x) <==> exists|i: int| 0 <= i < w.len() && (#[trigger] w[i]).0 == x by {
        if m2.contains_key(x) {
            if x == v[q].0 {
                assert(w[q].0 == x);
            } else {
                let i = choose|i: int| 0 <= i < v.len() && (#[trigger] v[i]).0 == x;
                assert(w[i].0 == x);
            }
        }
        if exists|i: int| 0 <= i < w.len() && (#[trigger] w[i]).0 == x {
            let i = choose|i: int| 0 <= i < w.len() && (#[trigger] w[i]).0 == x;
            assert(v[i].0 == x);
        }
    }
    assert forall|i: int| 0 <= i < w.len() implies sorted_by((#[trigger] w[i]).1, str_order()) && w[i].1.to_set() == m2[w[i].0] by {
        if i != q {
            assert(w[i] == v[i]);
            assert(keys_of(v)[i] == v[i].0 && keys_of(v)[q] == v[q].0);
            if i < q {
                assert(path_order()(keys_of(v)[i], keys_of(v)[q]));
            } else {
                assert(path_order()(keys_of(v)[q], keys_of(v)[i]));
            }
        }
    }
}

proof fn lemma_lists_insert(
    v: Seq<(Seq<char>, Seq<Seq<char>>)>,
    m: Map<Seq<char>, Set<Seq<char>>>,
    p: int,
    key: Seq<char>,
    ns: Seq<Seq<char>>,
)
    requires
        lists_files(v, m),
        0 <= p <= v.len(),
        !m.contains_key(key),
        sorted_by(keys_of(v.insert(p, (key, ns))), path_order()),
        sorted_by(ns, str_order()),
    ensures
        lists_files(v.insert(p, (key, ns)), m.insert(key, ns.to_set())),
{
    let w = v.insert(p, (key, ns));
    let m2 = m.insert(key, ns.to_set());
    assert forall|x: Seq<char>| m2.contains_key(x) <==> exists|i: int| 0 <= i < w.len() && (#[trigger] w[i]).0 == x by {
        if m2.contains_key(x) {
            if x == key {
                assert(w[p].0 == x);
            } else {
                let i = choose|i: int| 0 <= i < v.len() && (#[trigger] v[i]).0 == x;
                if i < p {
                    assert(w[i].0 == x);
                } else {
                    assert(w[i + 1].0 == x);
                }
            }
        }
        if exists|i: int| 0 <= i < w.len() && (#[trigger] w[i]).0 == x {
            let i = choose|i: int| 0 <= i < w.len() && (#[trigger] w[i]).0 == x;
            if i < p {
                assert(v[i].0 == x);
            } else if i > p {
                assert(v[i - 1].0 == x);
            }
        }
    }
    assert forall|i: int| 0 <= i < w.len() implies sorted_by((#[trigger] w[i]).1, str_order()) && w[i].1.to_set() == m2[w[i].0] by {
        if i < p {
            assert(w[i] == v[i]);
            assert(v[i].0 != key);
        } else if i > p {
            assert(w[i] == v[i - 1]);
            assert(v[i - 1].0 != key);
        }
    }
}

// ---------------------------------------------------------------------------
// Editable installs shown where they are installed

/// A path under `src` that an editable install is built from overlaps the
/// workspace when one holds the other.
pub open spec fn overlaps_workspace(src: Seq<char>, ws: Option<Seq<char>>) -> bool {
    match ws {
        Some(w) => path_starts_with(src, w) || path_starts_with(w, src),
        None => false,
    }
}

/// `p` relative to `base`, as `Path::strip_prefix` gives it (for `p` under
/// `base`).
pub open spec fn strip_base(p: Seq<char>, base: Seq<char>) -> Seq<char> {
    if p == base {
        Seq::empty()
    } else if base.len() == 0 {
        p
    } else if base.last() == '/' {
        p.skip(base.len() as int)
    } else {
        p.skip(base.len() as int + 1)
    }
}

/// `PathBuf::push`: an absolute `rel` replaces `dir`.
pub open spec fn push_path(dir: Seq<char>, rel: Seq<char>) -> Seq<char> {
    if rel.len() > 0 && rel[0] == '/' {
        rel
    } else {
        join(dir, rel)
    }
}

pub open spec fn dashes_to_underscores(s: Seq<char>) -> Seq<char> {
    s.map_values(|c: char| if c == '-' { '_' } else { c })
}

/// `dir` with each of `parts` pushed onto it, `-` read as `_`.
pub open spec fn push_parts(dir: Seq<char>, parts: Seq<Seq<char>>) -> Seq<char>
    decreases parts.len(),
{
    if parts.len() == 0 {
        dir
    } else {
        push_path(push_parts(dir, parts.drop_last()), dashes_to_underscores(parts.last()))
    }
}

/// Where an editable install's package shows in site-packages: each
/// dot-separated part of its raw name is a directory.
pub open spec fn package_dir(site: Seq<char>, raw: Seq<char>) -> Seq<char> {
    push_parts(site, split_on(raw, '.'))
}

/// For each of `keys` under `src`, the key and where it shows under `site`.
pub open spec fn pairs_for(keys: Seq<Seq<char>>, src: Seq<char>, site: Seq<char>) -> Seq<(Seq<char>, Seq<char>)>
    decreases keys.len(),
{
    if keys.len() == 0 {
        Seq::empty()
    } else {
        pairs_for(keys.drop_last(), src, site) + if path_starts_with(keys.last(), src) {
            seq![(keys.last(), push_path(site, strip_base(keys.last(), src)))]
        } else {
            Seq::empty()
        }
    }
}

/// The files to show elsewhere: for each install outside the workspace, in
/// order, each file under its sources (in path order) and where it shows.
pub open spec fn remap_pairs(insts: Seq<EditableInstall>, ws: Option<Seq<char>>, keys: Seq<Seq<char>>) -> Seq<
    (Seq<char>, Seq<char>),
>
    decreases insts.len(),
{
    if insts.len() == 0 {
        Seq::empty()
    } else {
        let i = insts.last();
        remap_pairs(insts.drop_last(), ws, keys) + if overlaps_workspace(i.source_root@, ws) {
            Seq::empty()
        } else {
            pairs_for(keys, i.source_root@, i.site_packages@)
        }
    }
}

/// The directories labelled as editable installs: those of installs outside
/// the workspace with a file among `keys`.
pub open spec fn editable_dirs(insts: Seq<EditableInstall>, ws: Option<Seq<char>>, keys: Seq<Seq<char>>) -> Set<Seq<char>> {
    Set::new(
        |d: Seq<char>|
            exists|i: int|
                0 <= i < insts.len() && !overlaps_workspace((#[trigger] insts[i]).source_root@, ws) && (exists|j: int|
                    0 <= j < keys.len() && path_starts_with(#[trigger] keys[j], insts[i].source_root@)) && d
                    == package_dir(insts[i].site_packages@, insts[i].raw_package_name@),
    )
}

/// Moves each file of `pairs` (when still there) to where it shows.
pub open spec fn apply_file_moves(m: Map<Seq<char>, Set<Seq<char>>>, pairs: Seq<(Seq<char>, Seq<char>)>) -> Map<
    Seq<char>,
    Set<Seq<char>>,
>
    decreases pairs.len(),
{
    if pairs.len() == 0 {
        m
    } else {
        let m1 = apply_file_moves(m, pairs.drop_last());
        let (o, v) = pairs.last();
        if m1.contains_key(o) {
            m1.remove(o).insert(v, m1[o])
        } else {
            m1
        }
    }
}

/// For each key of `keys` in file `o`, the key and its name under file `v`.
pub open spec fn moves_one(keys: Seq<(Seq<char>, Seq<char>)>, o: Seq<char>, v: Seq<char>) -> Seq<
    ((Seq<char>, Seq<char>), (Seq<char>, Seq<char>)),
>
    decreases keys.len(),
{
    if keys.len() == 0 {
        Seq::empty()
    } else {
        moves_one(keys.drop_last(), o, v) + if keys.last().0 == o {
            seq![(keys.last(), (v, keys.last().1))]
        } else {
            Seq::empty()
        }
    }
}

/// The key moves that the file moves `pairs` cause among `keys`.
pub open spec fn key_moves(pairs: Seq<(Seq<char>, Seq<char>)>, keys: Seq<(Seq<char>, Seq<char>)>) -> Seq<
    ((Seq<char>, Seq<char>), (Seq<char>, Seq<char>)),
>
    decreases pairs.len(),
{
    if pairs.len() == 0 {
        Seq::empty()
    } else {
        key_moves(pairs.drop_last(), keys) + moves_one(keys, pairs.last().0, pairs.last().1)
    }
}

/// The index of the first entry of `cs` with key `k`.
pub open spec fn count_index(cs: Seq<((Seq<char>, Seq<char>), nat)>, k: (Seq<char>, Seq<char>)) -> Option<int>
    decreases cs.len(),
{
    if cs.len() == 0 {
        None
    } else if cs[0].0 == k {
        Some(0)
    } else {
        match count_index(cs.drop_first(), k) {
            Some(i) => Some(i + 1),
            None => None,
        }
    }
}

/// Moves each count of `mv` (when still there) to its new key, replacing a
/// count already there.
pub open spec fn apply_count_moves(
    cs: Seq<((Seq<char>, Seq<char>), nat)>,
    mv: Seq<((Seq<char>, Seq<char>), (Seq<char>, Seq<char>))>,
) -> Seq<((Seq<char>, Seq<char>), nat)>
    decreases mv.len(),
{
    if mv.len() == 0 {
        cs
    } else {
        let c1 = apply_count_moves(cs, mv.drop_last());
        let (o, n) = mv.last();
        match count_index(c1, o) {
            Some(i) => {
                let c2 = c1.remove(i);
                match count_index(c2, n) {
                    Some(j) => c2.update(j, (n, c1[i].1)),
                    None => c2.push((n, c1[i].1)),
                }
            },
            None => c1,
        }
    }
}

/// The keys of the autouse definitions, each once, in the order recorded.
pub open spec fn autouse_keys(ds: Seq<DefinitionView>) -> Seq<(Seq<char>, Seq<char>)>
    decreases ds.len(),
{
    if ds.len() == 0 {
        Seq::empty()
    } else {
        let r = autouse_keys(ds.drop_last());
        let k = (ds.last().file_path, ds.last().name);
        if ds.last().autouse && !r.contains(k) {
            r.push(k)
        } else {
            r
        }
    }
}

/// Moves each autouse key of `mv` to its new key.
pub open spec fn apply_autouse_moves(
    s: Set<(Seq<char>, Seq<char>)>,
    mv: Seq<((Seq<char>, Seq<char>), (Seq<char>, Seq<char>))>,
) -> Set<(Seq<char>, Seq<char>)>
    decreases mv.len(),
{
    if mv.len() == 0 {
        s
    } else {
        apply_autouse_moves(s, mv.drop_last()).remove(mv.last().0).insert(mv.last().1)
    }
}

pub open spec fn opt_path(ws: Option<String>) -> Option<Seq<char>> {
    match ws {
        Some(w) => Some(w@),
        None => None,
    }
}

fn strip_base_exec(p: &[char], base: &[char]) -> (r: Vec<char>)
    requires
        path_starts_with(p@, base@),
    ensures
        r@ == strip_base(p@, base@),
{
    if chars_eq(p, base) {
        return Vec::new();
    }
    let pl = p.len();
    assert(base@.len() < pl);
    let start: usize = if base.len() == 0 {
        0
    } else if base[base.len() - 1] == '/' {
        base.len()
    } else {
        base.len() + 1
    };
    crate::text::slice_range(p, start, p.len())
}

pub proof fn lemma_push_to_set<A>(s: Seq<A>, x: A)
    ensures
        s.push(x).to_set() == s.to_set().insert(x),
{
    assert forall|y: A| s.push(x).to_set().contains(y) == s.to_set().insert(x).contains(y) by {
        if s.push(x).contains(y) {
            let i = choose|i: int| 0 <= i < s.push(x).len() && s.push(x)[i] == y;
            if i < s.len() {
                assert(s[i] == y);
            }
        }
        if s.contains(y) {
            let i = choose|i: int| 0 <= i < s.len() && s[i] == y;
            assert(s.push(x)[i] == y);
        }
        if y == x {
            assert(s.push(x)[s.len() as int] == y);
        }
    }
    assert(s.push(x).to_set() =~= s.to_set().insert(x));
}

fn push_path_exec(dir: &[char], rel: &[char]) -> (r: Vec<char>)
    ensures
        r@ == push_path(dir@, rel@),
{
    if rel.len() > 0 && rel[0] == '/' {
        crate::text::slice_range(rel, 0, rel.len())
    } else {
        crate::paths::join_name(dir, rel)
    }
}

fn package_dir_exec(site: &[char], raw: &[char]) -> (r: Vec<char>)
    ensures
        r@ == package_dir(site@, raw@),
{
    let parts = crate::text::split_chars(raw, '.');
    let ghost pv = views(parts@);
    let mut acc = crate::text::slice_range(site, 0, site.len());
    let mut i: usize = 0;
    while i < parts.len()
        invariant
            i <= parts@.len(),
            pv == views(parts@),
            pv == split_on(raw@, '.'),
            acc@ == push_parts(site@, pv.take(i as int)),
        decreases parts@.len() - i,
    {
        let part = &parts[i];
        let mut d: Vec<char> = Vec::new();
        let mut k: usize = 0;
        while k < part.len()
            invariant
                k <= part@.len(),
                d@ == dashes_to_underscores(part@.take(k as int)),
            decreases part@.len() - k,
        {
            let c = part[k];
            d.push(if c == '-' { '_' } else { c });
            assert(dashes_to_underscores(part@.take(k + 1)) =~= dashes_to_underscores(part@.take(k as int)).push(
                if c == '-' { '_' } else { c },
            ));
            k = k + 1;
        }
        assert(part@.take(part@.len() as int) =~= part@);
        assert(pv[i as int] == part@);
        assert(pv.take(i + 1).drop_last() =~= pv.take(i as int));
        acc = push_path_exec(acc.as_slice(), d.as_slice());
        i = i + 1;
    }
    assert(pv.take(pv.len() as int) =~= pv);
    acc
}

/// For each install outside the workspace, each listed file under its
/// sources and where it shows; and the directories to label as editable.
fn editable_moves(
    keys: &Vec<String>,
    installs: &Vec<EditableInstall>,
    ws: &Option<String>,
) -> (r: (Vec<(String, String)>, Vec<String>))
    ensures
        crate::usage::pair_views(r.0@) == remap_pairs(installs@, opt_path(*ws), string_views(keys@)),
        string_views(r.1@).to_set() == editable_dirs(installs@, opt_path(*ws), string_views(keys@)),
{
    let ghost kv = string_views(keys@);
    let ghost wsv = opt_path(*ws);
    let wsc: Option<Vec<char>> = match ws {
        Some(w) => Some(chars_of(w.as_str())),
        None => None,
    };
    let mut pairs: Vec<(String, String)> = Vec::new();
    let mut labels: Vec<String> = Vec::new();
    let mut i: usize = 0;
    while i < installs.len()
        invariant
            i <= installs@.len(),
            kv == string_views(keys@),
            wsv == opt_path(*ws),
            match wsc {
                Some(w) => wsv == Some(w@),
                None => wsv is None,
            },
            crate::usage::pair_views(pairs@) == remap_pairs(installs@.take(i as int), wsv, kv),
            string_views(labels@).to_set() == editable_dirs(installs@.take(i as int), wsv, kv),
        decreases installs@.len() - i,
    {
        let inst = &installs[i];
        let ghost it = installs@.take(i + 1);
        assert(it.drop_last() =~= installs@.take(i as int));
        assert(it.last() == *inst);
        let src = chars_of(inst.source_root.as_str());
        let site = chars_of(inst.site_packages.as_str());
        let overlap = match &wsc {
            Some(w) => crate::paths::path_starts_with_exec(src.as_slice(), w.as_slice())
                || crate::paths::path_starts_with_exec(w.as_slice(), src.as_slice()),
            None => false,
        };
        let ghost p0 = crate::usage::pair_views(pairs@);
        let ghost l0 = string_views(labels@).to_set();
        if overlap {
            proof {
                assert(remap_pairs(it, wsv, kv) =~= p0);
                assert forall|d: Seq<char>| editable_dirs(it, wsv, kv).contains(d) == l0.contains(d) by {
                    if editable_dirs(it, wsv, kv).contains(d) {
                        let q = choose|q: int|
                            0 <= q < it.len() && !overlaps_workspace((#[trigger] it[q]).source_root@, wsv) && (exists|j: int|
                                0 <= j < kv.len() && path_starts_with(#[trigger] kv[j], it[q].source_root@)) && d
                                == package_dir(it[q].site_packages@, it[q].raw_package_name@);
                        assert(q != i);
                        assert(installs@.take(i as int)[q] == it[q]);
                    }
                    if l0.contains(d) {
                        let q = choose|q: int|
                            0 <= q < installs@.take(i as int).len() && !overlaps_workspace((#[trigger] installs@.take(i as int)[q]).source_root@, wsv) && (exists|j: int|
                                0 <= j < kv.len() && path_starts_with(#[trigger] kv[j], installs@.take(i as int)[q].source_root@)) && d
                                == package_dir(installs@.take(i as int)[q].site_packages@, installs@.take(i as int)[q].raw_package_name@);
                        assert(it[q] == installs@.take(i as int)[q]);
                    }
                }
                assert(editable_dirs(it, wsv, kv) =~= l0);
            }
        } else {
            let label = package_dir_exec(site.as_slice(), chars_of(inst.raw_package_name.as_str()).as_slice());
            let mut any = false;
            let mut k: usize = 0;
            while k < keys.len()
                invariant
                    k <= keys@.len(),
                    kv == string_views(keys@),
                    crate::usage::pair_views(pairs@) == p0 + pairs_for(kv.take(k as int), src@, site@),
                    any == exists|j: int| 0 <= j < k && path_starts_with(#[trigger] kv[j], src@),
                decreases keys@.len() - k,
            {
                let kc = chars_of(keys[k].as_str());
                assert(kv[k as int] == kc@);
                assert(kv.take(k + 1).drop_last() =~= kv.take(k as int));
                assert(kv.take(k + 1).last() == kc@);
                if crate::paths::path_starts_with_exec(kc.as_slice(), src.as_slice()) {
                    let rel = strip_base_exec(kc.as_slice(), src.as_slice());
                    let v = push_path_exec(site.as_slice(), rel.as_slice());
                    let ghost before = crate::usage::pair_views(pairs@);
                    pairs.push((keys[k].clone(), crate::text::string_from_chars(v.as_slice())));
                    assert(crate::usage::pair_views(pairs@) =~= before.push((kc@, v@)));
                    any = true;
                }
                k = k + 1;
            }
            assert(kv.take(kv.len() as int) =~= kv);
            assert(remap_pairs(it, wsv, kv) == p0 + pairs_for(kv, src@, site@));
            let ghost l1 = if any { l0.insert(label@) } else { l0 };
            if any {
                let ghost lb = string_views(labels@);
                labels.push(crate::text::string_from_chars(label.as_slice()));
                assert(string_views(labels@) =~= lb.push(label@));
                proof {
                    lemma_push_to_set(lb, label@);
                }
            }
            proof {
                assert forall|d: Seq<char>| editable_dirs(it, wsv, kv).contains(d) == l1.contains(d) by {
                    if editable_dirs(it, wsv, kv).contains(d) {
                        let q = choose|q: int|
                            0 <= q < it.len() && !overlaps_workspace((#[trigger] it[q]).source_root@, wsv) && (exists|j: int|
                                0 <= j < kv.len() && path_starts_with(#[trigger] kv[j], it[q].source_root@)) && d
                                == package_dir(it[q].site_packages@, it[q].raw_package_name@);
                        if q < i {
                            assert(installs@.take(i as int)[q] == it[q]);
                        }
                    }
                    if l0.contains(d) {
                        let q = choose|q: int|
                            0 <= q < installs@.take(i as int).len() && !overlaps_workspace((#[trigger] installs@.take(i as int)[q]).source_root@, wsv) && (exists|j: int|
                                0 <= j < kv.len() && path_starts_with(#[trigger] kv[j], installs@.take(i as int)[q].source_root@)) && d
                                == package_dir(installs@.take(i as int)[q].site_packages@, installs@.take(i as int)[q].raw_package_name@);
                        assert(it[q] == installs@.take(i as int)[q]);
                    }
                    if any && d == label@ {
                        let j = choose|j: int| 0 <= j < kv.len() && path_starts_with(#[trigger] kv[j], src@);
                        assert(it[i as int] == *inst);
                    }
                }
                assert(editable_dirs(it, wsv, kv) =~= l1);
            }
        }
        i = i + 1;
    }
    assert(installs@.take(installs@.len() as int) =~= installs@);
    (pairs, labels)
}

/// Moves each file of `pairs` that is still listed to where it shows.
fn apply_file_moves_exec(
    ff: &mut Vec<(String, Vec<String>)>,
    pairs: &Vec<(String, String)>,
    Ghost(m): Ghost<Map<Seq<char>, Set<Seq<char>>>>,
)
    requires
        lists_files(ff_view(old(ff)@), m),
    ensures
        lists_files(ff_view(final(ff)@), apply_file_moves(m, crate::usage::pair_views(pairs@))),
{
    let ghost pv = crate::usage::pair_views(pairs@);
    let mut i: usize = 0;
    while i < pairs.len()
        invariant
            i <= pairs@.len(),
            pv == crate::usage::pair_views(pairs@),
            lists_files(ff_view(ff@), apply_file_moves(m, pv.take(i as int))),
        decreases pairs@.len() - i,
    {
        let ghost m1 = apply_file_moves(m, pv.take(i as int));
        assert(pv.take(i + 1).drop_last() =~= pv.take(i as int));
        assert(pv.take(i + 1).last() == pv[i as int]);
        let o = chars_of(pairs[i].0.as_str());
        let v = chars_of(pairs[i].1.as_str());
        assert(pv[i as int] == (o@, v@));
        match file_position(ff, o.as_slice()) {
            Some(k) => {
                let ghost fv = ff_view(ff@);
                assert(fv[k as int].0 == o@);
                assert(m1.contains_key(o@));
                proof {
                    lemma_lists_remove(fv, m1, k as int);
                }
                let e = ff.remove(k);
                assert(ff_view(ff@) =~= fv.remove(k as int));
                let names = e.1;
                let ghost ns = string_views(names@);
                assert(fv[k as int] == (e.0@, ns));
                assert(ns.to_set() == m1[o@] && sorted_by(ns, str_order()));
                let ghost m2 = m1.remove(o@);
                match file_position(ff, v.as_slice()) {
                    Some(q) => {
                        let ghost fv2 = ff_view(ff@);
                        assert(fv2[q as int].0 == v@);
                        let mut e2 = ff.remove(q);
                        e2.1 = names;
                        ff.insert(q, e2);
                        proof {
                            assert(ff_view(ff@) =~= fv2.update(q as int, (fv2[q as int].0, ns)));
                            lemma_lists_update(fv2, m2, q as int, ns);
                            assert(m2.insert(v@, ns.to_set()) =~= m1.remove(o@).insert(v@, m1[o@]));
                        }
                    },
                    None => {
                        let ghost fv2 = ff_view(ff@);
                        proof {
                            if m2.contains_key(v@) {
                                let j = choose|j: int| 0 <= j < fv2.len() && (#[trigger] fv2[j]).0 == v@;
                                assert(ff@[j].0@ == v@);
                            }
                            assert forall|k2: int| 0 <= k2 < ff@.len() implies (#[trigger] ff@[k2]).0@ != v@ by {}
                        }
                        let vs = crate::text::string_from_chars(v.as_slice());
                        let p = insert_file(ff, vs, names);
                        proof {
                            assert(ff_view(ff@) =~= fv2.insert(p as int, (v@, ns)));
                            lemma_lists_insert(fv2, m2, p as int, v@, ns);
                            assert(m2.insert(v@, ns.to_set()) =~= m1.remove(o@).insert(v@, m1[o@]));
                        }
                    },
                }
            },
            None => {
                proof {
                    if m1.contains_key(o@) {
                        let j = choose|j: int| 0 <= j < ff_view(ff@).len() && (#[trigger] ff_view(ff@)[j]).0 == o@;
                        assert(ff@[j].0@ == o@);
                    }
                }
            },
        }
        i = i + 1;
    }
    assert(pv.take(pv.len() as int) =~= pv);
}

pub open spec fn move_views(v: Seq<((String, String), (String, String))>) -> Seq<
    ((Seq<char>, Seq<char>), (Seq<char>, Seq<char>)),
> {
    v.map_values(|e: ((String, String), (String, String))| ((e.0.0@, e.0.1@), (e.1.0@, e.1.1@)))
}

/// The key moves that the file moves `pairs` cause among `keys`.
fn key_moves_exec(pairs: &Vec<(String, String)>, keys: &Vec<(String, String)>) -> (r: Vec<
    ((String, String), (String, String)),
>)
    ensures
        move_views(r@) == key_moves(crate::usage::pair_views(pairs@), crate::usage::pair_views(keys@)),
{
    let ghost pv = crate::usage::pair_views(pairs@);
    let ghost kv = crate::usage::pair_views(keys@);
    let mut r: Vec<((String, String), (String, String))> = Vec::new();
    let mut i: usize = 0;
    while i < pairs.len()
        invariant
            i <= pairs@.len(),
            pv == crate::usage::pair_views(pairs@),
            kv == crate::usage::pair_views(keys@),
            move_views(r@) == key_moves(pv.take(i as int), kv),
        decreases pairs@.len() - i,
    {
        assert(pv.take(i + 1).drop_last() =~= pv.take(i as int));
        assert(pv.take(i + 1).last() == pv[i as int]);
        let o = chars_of(pairs[i].0.as_str());
        assert(pv[i as int] == (o@, pairs@[i as int].1@));
        let ghost r0 = move_views(r@);
        let mut k: usize = 0;
        while k < keys.len()
            invariant
                k <= keys@.len(),
                kv == crate::usage::pair_views(keys@),
                pv == crate::usage::pair_views(pairs@),
                i < pairs@.len(),
                o@ == pv[i as int].0,
                move_views(r@) == r0 + moves_one(kv.take(k as int), pv[i as int].0, pv[i as int].1),
            decreases keys@.len() - k,
        {
            assert(kv.take(k + 1).drop_last() =~= kv.take(k as int));
            assert(kv.take(k + 1).last() == kv[k as int]);
            let f = chars_of(keys[k].0.as_str());
            assert(kv[k as int] == (f@, keys@[k as int].1@));
            if chars_eq(f.as_slice(), o.as_slice()) {
                let ghost before = move_views(r@);
                r.push(((keys[k].0.clone(), keys[k].1.clone()), (pairs[i].1.clone(), keys[k].1.clone())));
                assert(move_views(r@) =~= before.push((kv[k as int], (pv[i as int].1, kv[k as int].1))));
            }
            k = k + 1;
        }
        assert(kv.take(kv.len() as int) =~= kv);
        i = i + 1;
    }
    assert(pv.take(pv.len() as int) =~= pv);
    r
}

/// The index of the first count with key (`f`, `n`).
fn count_index_exec(cs: &Vec<crate::usage::UsageCount>, f: &[char], n: &[char]) -> (r: Option<usize>)
    ensures
        match r {
            Some(i) => i < cs@.len() && count_index(crate::usage::count_views(cs@), (f@, n@)) == Some(i as int),
            None => count_index(crate::usage::count_views(cs@), (f@, n@)) is None,
        },
{
    let ghost cv = crate::usage::count_views(cs@);
    assert(cv.skip(0) =~= cv);
    let mut k: usize = 0;
    while k < cs.len()
        invariant
            k <= cs@.len(),
            cv == crate::usage::count_views(cs@),
            count_index(cv, (f@, n@)) == match count_index(cv.skip(k as int), (f@, n@)) {
                Some(j) => Some(j + k),
                None => None,
            },
        decreases cs@.len() - k,
    {
        let e = &cs[k];
        let ghost rest = cv.skip(k as int);
        assert(rest[0] == ((e.file_path@, e.name@), e.count as nat));
        assert(rest.drop_first() =~= cv.skip(k + 1));
        let fc = chars_of(e.file_path.as_str());
        let nc = chars_of(e.name.as_str());
        if chars_eq(fc.as_slice(), f) && chars_eq(nc.as_slice(), n) {
            return Some(k);
        }
        k = k + 1;
    }
    assert(cv.skip(k as int).len() == 0);
    None
}

/// Moves each count of `mv` that is still there to its new key.
fn apply_count_moves_exec(cs: &mut Vec<crate::usage::UsageCount>, mv: &Vec<((String, String), (String, String))>)
    ensures
        crate::usage::count_views(final(cs)@) == apply_count_moves(crate::usage::count_views(old(cs)@), move_views(mv@)),
{
    let ghost c0 = crate::usage::count_views(cs@);
    let ghost mvv = move_views(mv@);
    let mut i: usize = 0;
    while i < mv.len()
        invariant
            i <= mv@.len(),
            mvv == move_views(mv@),
            crate::usage::count_views(cs@) == apply_count_moves(c0, mvv.take(i as int)),
        decreases mv@.len() - i,
    {
        assert(mvv.take(i + 1).drop_last() =~= mvv.take(i as int));
        assert(mvv.take(i + 1).last() == mvv[i as int]);
        let of = chars_of(mv[i].0.0.as_str());
        let on = chars_of(mv[i].0.1.as_str());
        let nf = chars_of(mv[i].1.0.as_str());
        let nn = chars_of(mv[i].1.1.as_str());
        assert(mvv[i as int] == ((of@, on@), (nf@, nn@)));
        let ghost c1 = crate::usage::count_views(cs@);
        match count_index_exec(cs, of.as_slice(), on.as_slice()) {
            Some(k) => {
                let e = cs.remove(k);
                assert(crate::usage::count_views(cs@) =~= c1.remove(k as int));
                assert(c1[k as int] == ((e.file_path@, e.name@), e.count as nat));
                let ghost c2 = crate::usage::count_views(cs@);
                let c = e.count;
                match count_index_exec(cs, nf.as_slice(), nn.as_slice()) {
                    Some(j) => {
                        let _old = cs.remove(j);
                        cs.insert(j, crate::usage::UsageCount {
                            file_path: mv[i].1.0.clone(),
                            name: mv[i].1.1.clone(),
                            count: c,
                        });
                        assert(crate::usage::count_views(cs@) =~= c2.update(j as int, ((nf@, nn@), c as nat)));
                    },
                    None => {
                        cs.push(crate::usage::UsageCount {
                            file_path: mv[i].1.0.clone(),
                            name: mv[i].1.1.clone(),
                            count: c,
                        });
                        assert(crate::usage::count_views(cs@) =~= c2.push(((nf@, nn@), c as nat)));
                    },
                }
            },
            None => {},
        }
        i = i + 1;
    }
    assert(mvv.take(mvv.len() as int) =~= mvv);
}

/// `v` without `x`.
fn without_pair(v: &Vec<(String, String)>, x: &(String, String)) -> (r: Vec<(String, String)>)
    ensures
        crate::usage::pair_views(r@).to_set() == crate::usage::pair_views(v@).to_set().remove((x.0@, x.1@)),
{
    let ghost pv = crate::usage::pair_views(v@);
    let ghost xv = (x.0@, x.1@);
    let xf = chars_of(x.0.as_str());
    let xn = chars_of(x.1.as_str());
    let mut r: Vec<(String, String)> = Vec::new();
    let mut i: usize = 0;
    while i < v.len()
        invariant
            i <= v@.len(),
            pv == crate::usage::pair_views(v@),
            xv == (xf@, xn@),
            forall|y: (Seq<char>, Seq<char>)|
                crate::usage::pair_views(r@).contains(y) <==> (y != xv && exists|j: int| 0 <= j < i && #[trigger] pv[j] == y),
        decreases v@.len() - i,
    {
        let f = chars_of(v[i].0.as_str());
        let n = chars_of(v[i].1.as_str());
        assert(pv[i as int] == (f@, n@));
        let ghost rv = crate::usage::pair_views(r@);
        if !(chars_eq(f.as_slice(), xf.as_slice()) && chars_eq(n.as_slice(), xn.as_slice())) {
            r.push((v[i].0.clone(), v[i].1.clone()));
            proof {
                assert(crate::usage::pair_views(r@) =~= rv.push((f@, n@)));
                assert forall|y: (Seq<char>, Seq<char>)|
                    crate::usage::pair_views(r@).contains(y) <==> (y != xv && exists|j: int| 0 <= j < i + 1 && #[trigger] pv[j] == y) by {
                    if crate::usage::pair_views(r@).contains(y) {
                        let q = choose|q: int| 0 <= q < crate::usage::pair_views(r@).len() && crate::usage::pair_views(r@)[q] == y;
                        if q < rv.len() {
                            assert(rv[q] == y);
                            assert(rv.contains(y));
                            let j = choose|j: int| 0 <= j < i && #[trigger] pv[j] == y;
                            assert(pv[j] == y);
                        } else {
                            assert(y == (f@, n@));
                            assert(y != xv);
                            assert(pv[i as int] == y);
                        }
                    }
                    if y != xv && exists|j: int| 0 <= j < i + 1 && #[trigger] pv[j] == y {
                        let j = choose|j: int| 0 <= j < i + 1 && #[trigger] pv[j] == y;
                        if j < i {
                            assert(rv.contains(y));
                            let q = choose|q: int| 0 <= q < rv.len() && rv[q] == y;
                            assert(crate::usage::pair_views(r@)[q] == y);
                        } else {
                            assert(crate::usage::pair_views(r@)[rv.len() as int] == y);
                        }
                    }
                }
            }
        } else {
            proof {
                assert forall|y: (Seq<char>, Seq<char>)|
                    crate::usage::pair_views(r@).contains(y) <==> (y != xv && exists|j: int| 0 <= j < i + 1 && #[trigger] pv[j] == y) by {
                    if y != xv && exists|j: int| 0 <= j < i + 1 && #[trigger] pv[j] == y {
                        let j = choose|j: int| 0 <= j < i + 1 && #[trigger] pv[j] == y;
                        assert(j != i);
                    }
                    if crate::usage::pair_views(r@).contains(y) {
                        let j = choose|j: int| 0 <= j < i && #[trigger] pv[j] == y;
                        assert(pv[j] == y);
                    }
                }
            }
        }
        i = i + 1;
    }
    proof {
        let rs = crate::usage::pair_views(r@);
        assert forall|y: (Seq<char>, Seq<char>)| rs.to_set().contains(y) == pv.to_set().remove(xv).contains(y) by {
            if pv.contains(y) {
                let j = choose|j: int| 0 <= j < pv.len() && pv[j] == y;
            }
        }
        assert(rs.to_set() =~= pv.to_set().remove(xv));
    }
    r
}

/// Moves each autouse key of `mv` to its new key.
fn apply_autouse_moves_exec(au: &mut Vec<(String, String)>, mv: &Vec<((String, String), (String, String))>)
    ensures
        crate::usage::pair_views(final(au)@).to_set() == apply_autouse_moves(
            crate::usage::pair_views(old(au)@).to_set(),
            move_views(mv@),
        ),
{
    let ghost a0 = crate::usage::pair_views(au@).to_set();
    let ghost mvv = move_views(mv@);
    let mut i: usize = 0;
    while i < mv.len()
        invariant
            i <= mv@.len(),
            mvv == move_views(mv@),
            crate::usage::pair_views(au@).to_set() == apply_autouse_moves(a0, mvv.take(i as int)),
        decreases mv@.len() - i,
    {
        assert(mvv.take(i + 1).drop_last() =~= mvv.take(i as int));
        assert(mvv.take(i + 1).last() == mvv[i as int]);
        assert(mvv[i as int] == ((mv@[i as int].0.0@, mv@[i as int].0.1@), (mv@[i as int].1.0@, mv@[i as int].1.1@)));
        let mut kept = without_pair(au, &mv[i].0);
        let nf = chars_of(mv[i].1.0.as_str());
        let nn = chars_of(mv[i].1.1.as_str());
        let ghost kv = crate::usage::pair_views(kept@);
        if !pair_listed(&kept, nf.as_slice(), nn.as_slice()) {
            kept.push((mv[i].1.0.clone(), mv[i].1.1.clone()));
            proof {
                assert(crate::usage::pair_views(kept@) =~= kv.push((nf@, nn@)));
                lemma_push_to_set(kv, (nf@, nn@));
            }
        } else {
            assert(kv.to_set() =~= kv.to_set().insert((nf@, nn@)));
        }
        *au = kept;
        i = i + 1;
    }
    assert(mvv.take(mvv.len() as int) =~= mvv);
}

/// Inserts path `x` into `v`, kept in path order without repeats.
fn insert_path(v: &mut Vec<String>, x: String)
    requires
        sorted_by(string_views(old(v)@), path_order()),
    ensures
        sorted_by(string_views(final(v)@), path_order()),
        string_views(final(v)@).to_set() == string_views(old(v)@).to_set().insert(x@),
{
    proof {
        lemma_path_order();
    }
    let ghost sv = string_views(v@);
    let xc = chars_of(x.as_str());
    let mut p: usize = 0;
    while p < v.len()
        invariant
            p <= v@.len(),
            sv == string_views(v@),
            xc@ == x@,
            sorted_by(sv, path_order()),
            forall|q: int| 0 <= q < p ==> path_order()(#[trigger] sv[q], x@),
        ensures
            p < v@.len() ==> !path_order()(sv[p as int], x@),
        decreases v@.len() - p,
    {
        let vc = chars_of(v[p].as_str());
        assert(sv[p as int] == vc@);
        if !path_lt(vc.as_slice(), xc.as_slice()) {
            break;
        }
        p = p + 1;
    }
    if p < v.len() {
        let vc = chars_of(v[p].as_str());
        assert(sv[p as int] == vc@);
        if chars_eq(vc.as_slice(), xc.as_slice()) {
            assert(sv.to_set() =~= sv.to_set().insert(x@)) by {
                assert(sv.to_set().contains(sv[p as int]));
            }
            return;
        }
    }
    v.insert(p, x);
    proof {
        let nv = string_views(v@);
        assert(nv =~= sv.insert(p as int, xc@));
        if p < sv.len() {
            assert(sv[p as int] != xc@);
            assert(path_order()(xc@, sv[p as int]));
        }
        assert forall|a: int, b: int| 0 <= a < b < nv.len() implies path_order()(#[trigger] nv[a], #[trigger] nv[b]) by {
            if b < p {
                assert(nv[a] == sv[a] && nv[b] == sv[b]);
            } else if b == p {
                assert(nv[a] == sv[a]);
            } else if a < p {
                assert(nv[a] == sv[a] && nv[b] == sv[b - 1]);
                if b - 1 > p {
                    assert(path_order()(sv[p as int], sv[b - 1]));
                }
            } else if a == p {
                assert(nv[b] == sv[b - 1]);
                if b - 1 > p {
                    assert(path_order()(sv[p as int], sv[b - 1]));
                }
            } else {
                assert(nv[a] == sv[a - 1] && nv[b] == sv[b - 1]);
            }
        }
        assert forall|y: Seq<char>| nv.to_set().contains(y) == sv.to_set().insert(xc@).contains(y) by {
            if nv.contains(y) {
                let i = choose|i: int| 0 <= i < nv.len() && nv[i] == y;
                if i < p {
                    assert(sv[i] == y);
                } else if i > p {
                    assert(sv[i - 1] == y);
                }
            }
            if sv.contains(y) {
                let i = choose|i: int| 0 <= i < sv.len() && sv[i] == y;
                if i < p {
                    assert(nv[i] == y);
                } else {
                    assert(nv[i + 1] == y);
                }
            }
            if y == xc@ {
                assert(nv[p as int] == y);
            }
        }
        assert(nv.to_set() =~= sv.to_set().insert(xc@));
    }
}

/// The paths of the first `n` files of `ks` and their ancestors below `root`.
pub open spec fn paths_of(ks: Seq<Seq<char>>, root: Seq<char>) -> Set<Seq<char>> {
    Set::new(
        |p: Seq<char>|
            exists|j: int| 0 <= j < ks.len() && (p == #[trigger] ks[j] || ancestors_below(ks[j], root).contains(p)),
    )
}

/// The paths of the tree, in path order.
fn tree_path_list(ff: &Vec<(String, Vec<String>)>, root: &[char], Ghost(m): Ghost<Map<Seq<char>, Set<Seq<char>>>>) -> (r: Vec<
    String,
>)
    requires
        lists_files(ff_view(ff@), m),
    ensures
        sorted_by(string_views(r@), path_order()),
        string_views(r@).to_set() == tree_paths(m, root@),
{
    let ghost ks = keys_of(ff_view(ff@));
    let mut v: Vec<String> = Vec::new();
    assert(string_views(v@).to_set() =~= paths_of(ks.take(0), root@));
    let mut i: usize = 0;
    while i < ff.len()
        invariant
            i <= ff@.len(),
            ks == keys_of(ff_view(ff@)),
            sorted_by(string_views(v@), path_order()),
            string_views(v@).to_set() == paths_of(ks.take(i as int), root@),
        decreases ff@.len() - i,
    {
        let f = chars_of(ff[i].0.as_str());
        assert(ks[i as int] == f@);
        let ghost prev = paths_of(ks.take(i as int), root@);
        let ghost target = prev.insert(f@).union(ancestors_below(f@, root@).to_set());
        insert_path(&mut v, ff[i].0.clone());
        assert(string_views(v@).to_set().union(ancestors_below(f@, root@).to_set()) =~= target);
        let mut cur = f;
        loop
            invariant
                sorted_by(string_views(v@), path_order()),
                string_views(v@).to_set().union(ancestors_below(cur@, root@).to_set()) == target,
            ensures
                string_views(v@).to_set() == target,
            decreases cur@.len(),
        {
            match parent_of(cur.as_slice()) {
                None => {
                    assert(ancestors_below(cur@, root@).to_set() =~= Set::<Seq<char>>::empty());
                    assert(string_views(v@).to_set() =~= target);
                    break;
                },
                Some(q) => {
                    if chars_eq(q.as_slice(), root) || q.len() == 0 {
                        assert(ancestors_below(cur@, root@).to_set() =~= Set::<Seq<char>>::empty());
                        assert(string_views(v@).to_set() =~= target);
                        break;
                    }
                    proof {
                        lemma_parent_shorter(cur@);
                    }
                    let ghost rest = ancestors_below(q@, root@);
                    assert(ancestors_below(cur@, root@) == seq![q@] + rest);
                    let ghost before = string_views(v@).to_set();
                    insert_path(&mut v, crate::text::string_from_chars(q.as_slice()));
                    proof {
                        assert((seq![q@] + rest).to_set() =~= rest.to_set().insert(q@)) by {
                            assert forall|y: Seq<char>| (seq![q@] + rest).contains(y) == rest.to_set().insert(q@).contains(y) by {
                                if (seq![q@] + rest).contains(y) {
                                    let k = choose|k: int| 0 <= k < (seq![q@] + rest).len() && (seq![q@] + rest)[k] == y;
                                    if k > 0 {
                                        assert(rest[k - 1] == y);
                                    }
                                }
                                if rest.contains(y) {
                                    let k = choose|k: int| 0 <= k < rest.len() && rest[k] == y;
                                    assert((seq![q@] + rest)[k + 1] == y);
                                }
                                if y == q@ {
                                    assert((seq![q@] + rest)[0] == y);
                                }
                            }
                        }
                        assert(string_views(v@).to_set().union(rest.to_set()) =~= target);
                    }
                    cur = q;
                },
            }
        }
        proof {
            assert(ks.take(i + 1).drop_last() =~= ks.take(i as int));
            assert forall|p: Seq<char>| paths_of(ks.take(i + 1), root@).contains(p) == target.contains(p) by {
                let kt = ks.take(i + 1);
                if paths_of(kt, root@).contains(p) {
                    let j = choose|j: int| 0 <= j < kt.len() && (p == #[trigger] kt[j] || ancestors_below(kt[j], root@).contains(p));
                    if j < i {
                        assert(ks.take(i as int)[j] == kt[j]);
                    } else {
                        assert(kt[j] == f@);
                    }
                }
                if prev.contains(p) {
                    let j = choose|j: int| 0 <= j < ks.take(i as int).len() && (p == #[trigger] ks.take(i as int)[j] || ancestors_below(ks.take(i as int)[j], root@).contains(p));
                    assert(kt[j] == ks.take(i as int)[j]);
                }
                if p == f@ || ancestors_below(f@, root@).contains(p) {
                    assert(kt[i as int] == f@);
                }
            }
            assert(paths_of(ks.take(i + 1), root@) =~= target);
        }
        i = i + 1;
    }
    proof {
        assert(ks.take(ks.len() as int) =~= ks);
        let ff_v = ff_view(ff@);
        assert forall|p: Seq<char>| paths_of(ks, root@).contains(p) == tree_paths(m, root@).contains(p) by {
            if paths_of(ks, root@).contains(p) {
                let j = choose|j: int| 0 <= j < ks.len() && (p == #[trigger] ks[j] || ancestors_below(ks[j], root@).contains(p));
                assert(ff_v[j].0 == ks[j]);
                assert(m.contains_key(ks[j]));
            }
            if tree_paths(m, root@).contains(p) {
                if m.contains_key(p) {
                    let j = choose|j: int| 0 <= j < ff_v.len() && (#[trigger] ff_v[j]).0 == p;
                    assert(ks[j] == p);
                } else {
                    let f = choose|f: Seq<char>| #[trigger] m.contains_key(f) && ancestors_below(f, root@).contains(p);
                    let j = choose|j: int| 0 <= j < ff_v.len() && (#[trigger] ff_v[j]).0 == f;
                    assert(ks[j] == f);
                }
            }
        }
        assert(paths_of(ks, root@) =~= tree_paths(m, root@));
    }
    v
}

/// The keys of the autouse definitions, each once, in the order recorded.
fn autouse_key_list(defs: &Vec<FixtureDefinition>) -> (r: Vec<(String, String)>)
    ensures
        crate::usage::pair_views(r@) == autouse_keys(def_views(defs@)),
{
    let ghost ds = def_views(defs@);
    let mut r: Vec<(String, String)> = Vec::new();
    let mut i: usize = 0;
    while i < defs.len()
        invariant
            i <= ds.len(),
            ds == def_views(defs@),
            crate::usage::pair_views(r@) == autouse_keys(ds.take(i as int)),
        decreases ds.len() - i,
    {
        let d = &defs[i];
        assert(ds[i as int] == d@);
        assert(ds.take(i + 1).drop_last() =~= ds.take(i as int));
        assert(ds.take(i + 1).last() == d@);
        if d.autouse {
            let f = chars_of(d.file_path.as_str());
            let n = chars_of(d.name.as_str());
            if !pair_listed(&r, f.as_slice(), n.as_slice()) {
                let ghost before = crate::usage::pair_views(r@);
                r.push((d.file_path.clone(), d.name.clone()));
                assert(crate::usage::pair_views(r@) =~= before.push((f@, n@)));
            }
        }
        i = i + 1;
    }
    assert(ds.take(ds.len() as int) =~= ds);
    r
}

/// The (file, name) keys of `cs`, in order.
fn count_keys(cs: &Vec<crate::usage::UsageCount>) -> (r: Vec<(String, String)>)
    ensures
        crate::usage::pair_views(r@) == crate::usage::count_views(cs@).map_values(|e: ((Seq<char>, Seq<char>), nat)| e.0),
{
    let mut r: Vec<(String, String)> = Vec::new();
    let mut i: usize = 0;
    while i < cs.len()
        invariant
            i <= cs@.len(),
            crate::usage::pair_views(r@) == crate::usage::count_views(cs@).map_values(
                |e: ((Seq<char>, Seq<char>), nat)| e.0,
            ).take(i as int),
        decreases cs@.len() - i,
    {
        let ghost before = crate::usage::pair_views(r@);
        r.push((cs[i].file_path.clone(), cs[i].name.clone()));
        assert(crate::usage::count_views(cs@)[i as int].0 == (cs@[i as int].file_path@, cs@[i as int].name@));
        assert(crate::usage::pair_views(r@) =~= before.push((cs@[i as int].file_path@, cs@[i as int].name@)));
        assert(crate::usage::pair_views(r@) =~= crate::usage::count_views(cs@).map_values(
            |e: ((Seq<char>, Seq<char>), nat)| e.0,
        ).take(i + 1));
        i = i + 1;
    }
    assert(crate::usage::count_views(cs@).map_values(|e: ((Seq<char>, Seq<char>), nat)| e.0).take(
        cs@.len() as int,
    ) =~= crate::usage::count_views(cs@).map_values(|e: ((Seq<char>, Seq<char>), nat)| e.0));
    r
}

/// How deep the tree may be drawn: deeper than it can be.
pub open spec fn tree_fuel(n: nat) -> nat {
    if n < usize::MAX {
        n + 1
    } else {
        n
    }
}

/// The lines of the fixtures tree under `root`: the files defining fixtures
/// (those of editable installs outside the workspace shown where they are
/// installed) and their directories below `root`, sorted by path, each file
/// with its fixtures sorted by name and their usage counts.
pub open spec fn fixtures_tree_lines(
    ds: Seq<DefinitionView>,
    fi: Seq<(Seq<char>, Seq<Seq<char>>)>,
    us: Seq<crate::types::UsageView>,
    insts: Seq<EditableInstall>,
    ws: Option<Seq<char>>,
    root: Seq<char>,
    skip_unused: bool,
    only_unused: bool,
) -> Seq<LineView> {
    let m0 = file_fixtures(ds);
    let keys = sorted_set(m0.dom(), path_order());
    let pairs = remap_pairs(insts, ws, keys);
    let m = apply_file_moves(m0, pairs);
    let cs = apply_count_moves(
        crate::usage::counted(ds, fi, us, crate::usage::definition_keys(ds)),
        key_moves(pairs, crate::usage::definition_keys(ds)),
    );
    let au = apply_autouse_moves(autouse_keys(ds).to_set(), key_moves(pairs, autouse_keys(ds)));
    let t = TreeFacts {
        counts: cs,
        autouse: au,
        editable: editable_dirs(insts, ws, keys),
        skip_unused,
        only_unused,
    };
    let all = sorted_set(tree_paths(m, root), path_order());
    let tops = with_parent(all, root);
    render_list(m, t, all, root, tops, Seq::empty(), tops.len() as int, true, tree_fuel(all.len()))
}

impl crate::db::FixtureDatabase {
    /// The lines of the fixtures tree under `root_path`, or `None` when no
    /// fixture is defined. `skip_unused` leaves out fixtures nothing uses
    /// (but autouse ones); `only_unused` shows only those.
    pub fn fixtures_tree(&self, root_path: &str, skip_unused: bool, only_unused: bool) -> (r: Option<Vec<TreeLine>>)
        ensures
            match r {
                None => self.defs().len() == 0,
                Some(lines) => self.defs().len() > 0 && line_views(lines@) == fixtures_tree_lines(
                    self.defs(),
                    self.fimports(),
                    self.uses(),
                    self.editable_install_roots@,
                    opt_path(self.workspace_root),
                    root_path@,
                    skip_unused,
                    only_unused,
                ),
            },
    {
        let ghost ds = self.defs();
        let ghost m0 = file_fixtures(ds);
        let mut ff = build_file_fixtures(&self.definitions);
        proof {
            lemma_path_order();
            lemma_str_order();
        }
        if ff.len() == 0 {
            proof {
                if ds.len() > 0 {
                    assert(m0.contains_key(ds[0].file_path));
                }
            }
            return None;
        }
        proof {
            assert(m0.contains_key(ff_view(ff@)[0].0));
        }
        let mut keys: Vec<String> = Vec::new();
        let mut k: usize = 0;
        while k < ff.len()
            invariant
                k <= ff@.len(),
                string_views(keys@) == keys_of(ff_view(ff@)).take(k as int),
            decreases ff@.len() - k,
        {
            let ghost before = string_views(keys@);
            keys.push(ff[k].0.clone());
            assert(keys_of(ff_view(ff@))[k as int] == ff@[k as int].0@);
            assert(string_views(keys@) =~= before.push(ff@[k as int].0@));
            assert(string_views(keys@) =~= keys_of(ff_view(ff@)).take(k + 1));
            k = k + 1;
        }
        let ghost kv = keys_of(ff_view(ff@));
        proof {
            assert(kv.take(kv.len() as int) =~= kv);
            assert(kv.to_set() =~= m0.dom()) by {
                assert forall|x: Seq<char>| kv.to_set().contains(x) == m0.dom().contains(x) by {
                    if kv.contains(x) {
                        let j = choose|j: int| 0 <= j < kv.len() && kv[j] == x;
                        assert(ff_view(ff@)[j].0 == x);
                    }
                    if m0.contains_key(x) {
                        let j = choose|j: int| 0 <= j < ff_view(ff@).len() && (#[trigger] ff_view(ff@)[j]).0 == x;
                        assert(kv[j] == x);
                    }
                }
            }
            lemma_is_sorted_set(kv, path_order());
        }
        let (pairs, labels) = editable_moves(&keys, &self.editable_install_roots, &self.workspace_root);
        let ghost pv = crate::usage::pair_views(pairs@);
        apply_file_moves_exec(&mut ff, &pairs, Ghost(m0));
        let ghost m = apply_file_moves(m0, pv);
        let mut counts = self.compute_definition_usage_counts();
        let ckeys = count_keys(&counts);
        assert(crate::usage::pair_views(ckeys@) =~= crate::usage::definition_keys(ds));
        let cmoves = key_moves_exec(&pairs, &ckeys);
        apply_count_moves_exec(&mut counts, &cmoves);
        let akeys = autouse_key_list(&self.definitions);
        let mut au = autouse_key_list(&self.definitions);
        let amoves = key_moves_exec(&pairs, &akeys);
        apply_autouse_moves_exec(&mut au, &amoves);
        let ghost t = TreeFacts {
            counts: crate::usage::count_views(counts@),
            autouse: crate::usage::pair_views(au@).to_set(),
            editable: string_views(labels@).to_set(),
            skip_unused,
            only_unused,
        };
        let root = chars_of(root_path);
        let all = tree_path_list(&ff, root.as_slice(), Ghost(m));
        proof {
            lemma_is_sorted_set(string_views(all@), path_order());
        }
        let tops = with_parent_exec(&all, root.as_slice());
        let fuel: usize = if all.len() < usize::MAX {
            all.len() + 1
        } else {
            all.len()
        };
        let mut out: Vec<TreeLine> = Vec::new();
        let empty: Vec<char> = Vec::new();
        render_list_exec(
            &ff,
            &counts,
            &au,
            &labels,
            &all,
            root.as_slice(),
            skip_unused,
            only_unused,
            &tops,
            &empty,
            true,
            fuel,
            &mut out,
            Ghost(m),
            Ghost(t),
        );
        assert(line_views(out@) =~= Seq::<LineView>::empty() + render_list(
            m,
            t,
            string_views(all@),
            root@,
            string_views(tops@),
            empty@,
            tops@.len() as int,
            true,
            fuel as nat,
        ));
        Some(out)
    }
}

} // verus!
