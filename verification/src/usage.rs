//! How often each fixture definition is used, and which are never used.
use vstd::prelude::*;

use crate::db::{resolve_usage, FixtureDatabase};
use crate::order::{key_lt, keys_lt, lemma_key_irreflexive, lemma_key_transitive};
use crate::paths::{path_key, path_key_of};
use crate::text::{chars_eq, chars_of, views};
use crate::types::{DefinitionView, UsageView};

verus! {

/// Usage `u` resolves to a definition in file `f`.
pub open spec fn resolves_into(
    ds: Seq<DefinitionView>,
    fi: Seq<(Seq<char>, Seq<Seq<char>>)>,
    u: UsageView,
    f: Seq<char>,
) -> bool {
    match resolve_usage(ds, u, fi) {
        Some(d) => d.file_path == f,
        None => false,
    }
}

/// How many of the usages `us` of fixture `n` resolve to its definition in
/// file `f`.
pub open spec fn usage_count(
    ds: Seq<DefinitionView>,
    fi: Seq<(Seq<char>, Seq<Seq<char>>)>,
    us: Seq<UsageView>,
    f: Seq<char>,
    n: Seq<char>,
) -> nat
    decreases us.len(),
{
    if us.len() == 0 {
        0
    } else {
        usage_count(ds, fi, us.drop_last(), f, n) + if us.last().name == n && resolves_into(
            ds,
            fi,
            us.last(),
            f,
        ) {
            1nat
        } else {
            0nat
        }
    }
}

/// The (file, name) pairs of the definitions `ds`, each once, in the order
/// first recorded.
pub open spec fn definition_keys(ds: Seq<DefinitionView>) -> Seq<(Seq<char>, Seq<char>)>
    decreases ds.len(),
{
    if ds.len() == 0 {
        Seq::empty()
    } else {
        let r = definition_keys(ds.drop_last());
        let k = (ds.last().file_path, ds.last().name);
        if r.contains(k) {
            r
        } else {
            r.push(k)
        }
    }
}

/// A place where a fixture is defined and how many usages resolve to it.
#[derive(Debug)]
pub struct UsageCount {
    pub file_path: String,
    pub name: String,
    pub count: usize,
}

pub open spec fn count_views(v: Seq<UsageCount>) -> Seq<((Seq<char>, Seq<char>), nat)> {
    v.map_values(|c: UsageCount| ((c.file_path@, c.name@), c.count as nat))
}

/// Each key with the number of usages that resolve to it.
pub open spec fn counted(
    ds: Seq<DefinitionView>,
    fi: Seq<(Seq<char>, Seq<Seq<char>>)>,
    us: Seq<UsageView>,
    keys: Seq<(Seq<char>, Seq<char>)>,
) -> Seq<((Seq<char>, Seq<char>), nat)> {
    keys.map_values(|k: (Seq<char>, Seq<char>)| (k, usage_count(ds, fi, us, k.0, k.1)))
}

pub proof fn lemma_definition_keys(ds: Seq<DefinitionView>)
    ensures
        definition_keys(ds).no_duplicates(),
        forall|j: int|
            0 <= j < ds.len() ==> definition_keys(ds).contains(((#[trigger] ds[j]).file_path, ds[j].name)),
    decreases ds.len(),
{
    if ds.len() > 0 {
        let d = ds.drop_last();
        lemma_definition_keys(d);
        let r = definition_keys(d);
        let k = (ds.last().file_path, ds.last().name);
        assert forall|j: int| 0 <= j < ds.len() implies definition_keys(ds).contains(
            ((#[trigger] ds[j]).file_path, ds[j].name),
        ) by {
            if j < ds.len() - 1 {
                assert(d[j] == ds[j]);
                assert(r.contains((d[j].file_path, d[j].name)));
                if !r.contains(k) {
                    let q = choose|q: int| 0 <= q < r.len() && r[q] == (d[j].file_path, d[j].name);
                    assert(r.push(k)[q] == r[q]);
                }
            } else {
                if !r.contains(k) {
                    assert(r.push(k)[r.len() as int] == k);
                }
            }
        }
    }
}

/// A fixture definition nobody uses: not third-party, not autouse, and no
/// usage resolves to its file.
pub open spec fn is_unused(
    ds: Seq<DefinitionView>,
    fi: Seq<(Seq<char>, Seq<Seq<char>>)>,
    us: Seq<UsageView>,
    d: DefinitionView,
) -> bool {
    &&& !d.is_third_party
    &&& !d.autouse
    &&& usage_count(ds, fi, us, d.file_path, d.name) == 0
}

/// The (file, name) of each unused definition among the first `n`, in order.
pub open spec fn unused_among(
    ds: Seq<DefinitionView>,
    fi: Seq<(Seq<char>, Seq<Seq<char>>)>,
    us: Seq<UsageView>,
    n: int,
) -> Seq<(Seq<char>, Seq<char>)>
    decreases n,
{
    if n <= 0 {
        Seq::empty()
    } else {
        let r = unused_among(ds, fi, us, n - 1);
        if is_unused(ds, fi, us, ds[n - 1]) {
            r.push((ds[n - 1].file_path, ds[n - 1].name))
        } else {
            r
        }
    }
}

/// The sort key of an unused fixture: its path's components, then its name.
pub open spec fn unused_key(p: (Seq<char>, Seq<char>)) -> Seq<Seq<char>> {
    path_key(p.0).push(Seq::empty()).push(p.1)
}

/// Sorted by path (as `Path::cmp` orders paths), then by name.
pub open spec fn sorted_by_path_then_name(s: Seq<(Seq<char>, Seq<char>)>) -> bool {
    forall|i: int, j: int| 0 <= i < j < s.len() ==> !key_lt(unused_key(#[trigger] s[j]), unused_key(#[trigger] s[i]))
}

pub open spec fn pair_views(v: Seq<(String, String)>) -> Seq<(Seq<char>, Seq<char>)> {
    v.map_values(|p: (String, String)| (p.0@, p.1@))
}

/// Where the key (`f`, `n`) sits among the keys `files`, `names`.
fn key_position(files: &Vec<String>, names: &Vec<String>, f: &[char], n: &[char]) -> (r: Option<usize>)
    requires
        files@.len() == names@.len(),
    ensures
        match r {
            Some(k) => k < files@.len() && files@[k as int]@ == f@ && names@[k as int]@ == n@,
            None => forall|k: int| 0 <= k < files@.len() ==> !((#[trigger] files@[k])@ == f@ && names@[k]@ == n@),
        },
{
    let mut k: usize = 0;
    while k < files.len()
        invariant
            k <= files@.len(),
            files@.len() == names@.len(),
            forall|q: int| 0 <= q < k ==> !((#[trigger] files@[q])@ == f@ && names@[q]@ == n@),
        decreases files@.len() - k,
    {
        let fc = chars_of(files[k].as_str());
        let nc = chars_of(names[k].as_str());
        if chars_eq(fc.as_slice(), f) && chars_eq(nc.as_slice(), n) {
            return Some(k);
        }
        k = k + 1;
    }
    None
}

pub open spec fn key_views(files: Seq<String>, names: Seq<String>) -> Seq<(Seq<char>, Seq<char>)> {
    Seq::new(files.len(), |k: int| (files[k]@, names[k]@))
}

impl FixtureDatabase {
    /// The (file, name) of every fixture definition, with the number of
    /// usages that resolve to it; keys in the order first recorded.
    pub fn compute_definition_usage_counts(&self) -> (r: Vec<UsageCount>)
        ensures
            count_views(r@) == counted(self.defs(), self.fimports(), self.uses(), definition_keys(self.defs())),
    {
        let ghost ds = self.defs();
        let ghost fi = self.fimports();
        let ghost us = self.uses();
        let mut files: Vec<String> = Vec::new();
        let mut names: Vec<String> = Vec::new();
        let mut i: usize = 0;
        while i < self.definitions.len()
            invariant
                i <= ds.len(),
                ds == self.defs(),
                files@.len() == names@.len(),
                key_views(files@, names@) == definition_keys(ds.take(i as int)),
            decreases ds.len() - i,
        {
            let d = &self.definitions[i];
            assert(ds[i as int] == d@);
            assert(ds.take(i + 1).drop_last() =~= ds.take(i as int));
            assert(ds.take(i + 1).last() == d@);
            let fc = chars_of(d.file_path.as_str());
            let nc = chars_of(d.name.as_str());
            let ghost kv = key_views(files@, names@);
            match key_position(&files, &names, fc.as_slice(), nc.as_slice()) {
                Some(k) => {
                    assert(kv[k as int] == (d.file_path@, d.name@));
                },
                None => {
                    proof {
                        if kv.contains((d.file_path@, d.name@)) {
                            let q = choose|q: int| 0 <= q < kv.len() && kv[q] == (d.file_path@, d.name@);
                            assert(files@[q]@ == fc@ && names@[q]@ == nc@);
                        }
                    }
                    files.push(d.file_path.clone());
                    names.push(d.name.clone());
                    assert(key_views(files@, names@) =~= kv.push((d.file_path@, d.name@)));
                },
            }
            i = i + 1;
        }
        assert(ds.take(ds.len() as int) =~= ds);
        let ghost keys = definition_keys(ds);
        proof {
            lemma_definition_keys(ds);
        }
        let nk = files.len();
        let mut counts: Vec<usize> = Vec::new();
        while counts.len() < nk
            invariant
                counts@.len() <= nk,
                forall|k: int| 0 <= k < counts@.len() ==> #[trigger] counts@[k] == 0,
            decreases nk - counts@.len(),
        {
            counts.push(0);
        }
        let mut j: usize = 0;
        while j < self.usages.len()
            invariant
                j <= us.len(),
                us == self.uses(),
                ds == self.defs(),
                fi == self.fimports(),
                files@.len() == nk,
                names@.len() == nk,
                counts@.len() == nk,
                key_views(files@, names@) == keys,
                keys == definition_keys(ds),
                keys.no_duplicates(),
                forall|k: int|
                    0 <= k < nk ==> #[trigger] counts@[k] == usage_count(ds, fi, us.take(j as int), keys[k].0, keys[k].1)
                        && counts@[k] <= j,
            decreases us.len() - j,
        {
            let u = &self.usages[j];
            assert(us[j as int] == u@);
            assert(us.take(j + 1).drop_last() =~= us.take(j as int));
            assert(us.take(j + 1).last() == u@);
            let ghost c0 = counts@;
            match self.resolve_usage(u) {
                Some(d) => {
                    let fc = chars_of(d.file_path.as_str());
                    let nc = chars_of(u.name.as_str());
                    match key_position(&files, &names, fc.as_slice(), nc.as_slice()) {
                        Some(k) => {
                            counts.set(k, counts[k] + 1);
                            proof {
                                assert forall|q: int| 0 <= q < nk implies #[trigger] counts@[q] == usage_count(
                                    ds,
                                    fi,
                                    us.take(j + 1),
                                    keys[q].0,
                                    keys[q].1,
                                ) && counts@[q] <= j + 1 by {
                                    assert(keys[q] == (files@[q]@, names@[q]@));
                                    if q != k as int {
                                        assert(keys[k as int] == (fc@, nc@));
                                        assert(keys[q] != keys[k as int]);
                                    }
                                }
                            }
                        },
                        None => {
                            proof {
                                assert forall|q: int| 0 <= q < nk implies #[trigger] counts@[q] == usage_count(
                                    ds,
                                    fi,
                                    us.take(j + 1),
                                    keys[q].0,
                                    keys[q].1,
                                ) && counts@[q] <= j + 1 by {
                                    assert(keys[q] == (files@[q]@, names@[q]@));
                                }
                            }
                        },
                    }
                },
                None => {
                    proof {
                        assert forall|q: int| 0 <= q < nk implies #[trigger] counts@[q] == usage_count(
                            ds,
                            fi,
                            us.take(j + 1),
                            keys[q].0,
                            keys[q].1,
                        ) && counts@[q] <= j + 1 by {}
                    }
                },
            }
            j = j + 1;
        }
        assert(us.take(us.len() as int) =~= us);
        let mut r: Vec<UsageCount> = Vec::new();
        let mut k: usize = 0;
        while k < nk
            invariant
                k <= nk,
                files@.len() == nk,
                names@.len() == nk,
                counts@.len() == nk,
                key_views(files@, names@) == keys,
                forall|q: int| 0 <= q < nk ==> #[trigger] counts@[q] == usage_count(ds, fi, us, keys[q].0, keys[q].1),
                count_views(r@) == counted(ds, fi, us, keys).take(k as int),
            decreases nk - k,
        {
            let ghost before = count_views(r@);
            let uc = UsageCount { file_path: files[k].clone(), name: names[k].clone(), count: counts[k] };
            r.push(uc);
            proof {
                assert(keys[k as int] == (files@[k as int]@, names@[k as int]@));
                assert(count_views(r@) =~= before.push(((files@[k as int]@, names@[k as int]@), counts@[k as int] as nat)));
                assert(counted(ds, fi, us, keys)[k as int] == (keys[k as int], usage_count(ds, fi, us, keys[k as int].0, keys[k as int].1)));
                assert(counted(ds, fi, us, keys).take(k + 1) =~= counted(ds, fi, us, keys).take(k as int).push(counted(ds, fi, us, keys)[k as int]));
            }
            k = k + 1;
        }
        assert(counted(ds, fi, us, keys).take(nk as int) =~= counted(ds, fi, us, keys));
        r
    }

    /// The (file, name) of every fixture definition that no usage resolves
    /// to, leaving out third-party and autouse fixtures; sorted by path (as
    /// `Path::cmp` orders paths), then by name.
    pub fn get_unused_fixtures(&self) -> (r: Vec<(String, String)>)
        ensures
            sorted_by_path_then_name(pair_views(r@)),
            pair_views(r@).to_multiset() == unused_among(
                self.defs(),
                self.fimports(),
                self.uses(),
                self.defs().len() as int,
            ).to_multiset(),
    {
        let ghost ds = self.defs();
        let ghost fi = self.fimports();
        let ghost us = self.uses();
        let counts = self.compute_definition_usage_counts();
        proof {
            lemma_definition_keys(ds);
        }
        let ghost cv = count_views(counts@);
        let mut out: Vec<(String, String)> = Vec::new();
        let mut keys: Vec<Vec<Vec<char>>> = Vec::new();
        assert(pair_views(out@) =~= unused_among(ds, fi, us, 0));
        let mut i: usize = 0;
        while i < self.definitions.len()
            invariant
                i <= ds.len(),
                ds == self.defs(),
                fi == self.fimports(),
                us == self.uses(),
                cv == count_views(counts@),
                cv == counted(ds, fi, us, definition_keys(ds)),
                definition_keys(ds).no_duplicates(),
                forall|j: int|
                    0 <= j < ds.len() ==> definition_keys(ds).contains(((#[trigger] ds[j]).file_path, ds[j].name)),
                keys@.len() == out@.len(),
                forall|q: int| 0 <= q < out@.len() ==> views(#[trigger] keys@[q]@) == unused_key(pair_views(out@)[q]),
                sorted_by_path_then_name(pair_views(out@)),
                pair_views(out@).to_multiset() == unused_among(ds, fi, us, i as int).to_multiset(),
            decreases ds.len() - i,
        {
            let d = &self.definitions[i];
            assert(ds[i as int] == d@);
            if !d.is_third_party && !d.autouse {
                let fc = chars_of(d.file_path.as_str());
                let nc = chars_of(d.name.as_str());
                let count = count_of(&counts, fc.as_slice(), nc.as_slice());
                proof {
                    let dk = definition_keys(ds);
                    assert(dk.contains((d.file_path@, d.name@)));
                    let q = choose|q: int| 0 <= q < dk.len() && dk[q] == (d.file_path@, d.name@);
                    assert(cv[q].0 == (fc@, nc@));
                    assert forall|p: int| 0 <= p < q implies (#[trigger] cv[p]).0 != (fc@, nc@) by {
                        assert(cv[p].0 == dk[p]);
                        assert(dk[p] != dk[q]);
                    }
                    assert(cv.len() == dk.len());
                    assert(q < counts@.len());
                    assert(count_views(counts@)[q].0 == (fc@, nc@));
                    assert(count == count_views(counts@)[q].1);
                    assert(cv[q] == (dk[q], usage_count(ds, fi, us, dk[q].0, dk[q].1)));
                    assert(count == usage_count(ds, fi, us, d.file_path@, d.name@));
                }
                if count == 0 {
                    let ghost pv = (d.file_path@, d.name@);
                    insert_sorted(&mut out, &mut keys, d.file_path.clone(), d.name.clone());
                    assert(unused_among(ds, fi, us, i + 1) == unused_among(ds, fi, us, i as int).push(pv));
                    proof {
                        vstd::seq_lib::to_multiset_build(unused_among(ds, fi, us, i as int), pv);
                    }
                } else {
                    assert(unused_among(ds, fi, us, i + 1) == unused_among(ds, fi, us, i as int));
                }
            } else {
                assert(unused_among(ds, fi, us, i + 1) == unused_among(ds, fi, us, i as int));
            }
            i = i + 1;
        }
        out
    }
}

/// The count listed for the key (`f`, `n`), or 0 when it is not listed.
fn count_of(counts: &Vec<UsageCount>, f: &[char], n: &[char]) -> (c: usize)
    ensures
        forall|q: int|
            0 <= q < counts@.len() && (#[trigger] count_views(counts@)[q]).0 == (f@, n@) && (forall|p: int|
                0 <= p < q ==> (#[trigger] count_views(counts@)[p]).0 != (f@, n@)) ==> c == count_views(counts@)[q].1,
        (forall|q: int| 0 <= q < counts@.len() ==> (#[trigger] count_views(counts@)[q]).0 != (f@, n@)) ==> c == 0,
{
    let ghost cv = count_views(counts@);
    let mut k: usize = 0;
    while k < counts.len()
        invariant
            k <= counts@.len(),
            cv == count_views(counts@),
            forall|p: int| 0 <= p < k ==> (#[trigger] cv[p]).0 != (f@, n@),
        decreases counts@.len() - k,
    {
        let c = &counts[k];
        assert(cv[k as int] == ((c.file_path@, c.name@), c.count as nat));
        let fc = chars_of(c.file_path.as_str());
        let nc = chars_of(c.name.as_str());
        if chars_eq(fc.as_slice(), f) && chars_eq(nc.as_slice(), n) {
            proof {
                assert forall|q: int|
                    0 <= q < counts@.len() && (#[trigger] cv[q]).0 == (f@, n@) && (forall|p: int|
                        0 <= p < q ==> (#[trigger] cv[p]).0 != (f@, n@)) implies c.count == cv[q].1 by {
                    if q > k {
                        assert(cv[k as int].0 == (f@, n@));
                    }
                }
            }
            return c.count;
        }
        k = k + 1;
    }
    0
}

/// Inserts (`file`, `name`) into `out`, kept sorted by path then name, after
/// the entries that do not sort after it; `keys` holds the sort keys.
fn insert_sorted(out: &mut Vec<(String, String)>, keys: &mut Vec<Vec<Vec<char>>>, file: String, name: String)
    requires
        old(keys)@.len() == old(out)@.len(),
        forall|q: int| 0 <= q < old(out)@.len() ==> views(#[trigger] old(keys)@[q]@) == unused_key(pair_views(old(out)@)[q]),
        sorted_by_path_then_name(pair_views(old(out)@)),
    ensures
        final(keys)@.len() == final(out)@.len(),
        forall|q: int| 0 <= q < final(out)@.len() ==> views(#[trigger] final(keys)@[q]@) == unused_key(pair_views(final(out)@)[q]),
        sorted_by_path_then_name(pair_views(final(out)@)),
        pair_views(final(out)@).to_multiset() == pair_views(old(out)@).to_multiset().insert((file@, name@)),
{
    let ghost pv = (file@, name@);
    let fc = chars_of(file.as_str());
    let nc = chars_of(name.as_str());
    let mut key = path_key_of(fc.as_slice());
    key.push(Vec::new());
    key.push(nc);
    let ghost kv = unused_key(pv);
    assert(views(key@) =~= kv);
    let ghost ps = pair_views(out@);
    let mut p: usize = 0;
    while p < out.len()
        invariant
            p <= out@.len(),
            ps == pair_views(out@),
            keys@.len() == out@.len(),
            forall|q: int| 0 <= q < out@.len() ==> views(#[trigger] keys@[q]@) == unused_key(ps[q]),
            views(key@) == kv,
            forall|q: int| 0 <= q < p ==> !key_lt(kv, unused_key(#[trigger] ps[q])),
        ensures
            p < out@.len() ==> key_lt(kv, unused_key(ps[p as int])),
        decreases out@.len() - p,
    {
        assert(views(keys@[p as int]@) == unused_key(ps[p as int]));
        if keys_lt(&key, &keys[p]) {
            break;
        }
        p = p + 1;
    }
    let ghost old_ps = ps;
    out.insert(p, (file, name));
    keys.insert(p, key);
    proof {
        let nps = pair_views(out@);
        assert(nps =~= old_ps.insert(p as int, pv));
        vstd::seq_lib::to_multiset_insert(old_ps, p as int, pv);
        assert forall|q: int| 0 <= q < out@.len() implies views(#[trigger] keys@[q]@) == unused_key(nps[q]) by {
            if q < p {
                assert(nps[q] == old_ps[q]);
            } else if q > p {
                assert(nps[q] == old_ps[q - 1]);
            }
        }
        assert forall|a: int, b: int| 0 <= a < b < nps.len() implies !key_lt(
            unused_key(#[trigger] nps[b]),
            unused_key(#[trigger] nps[a]),
        ) by {
            if b < p {
                assert(nps[a] == old_ps[a] && nps[b] == old_ps[b]);
            } else if b == p {
                assert(nps[a] == old_ps[a]);
            } else if a < p {
                assert(nps[a] == old_ps[a] && nps[b] == old_ps[b - 1]);
            } else if a == p {
                assert(nps[b] == old_ps[b - 1]);
                assert(p < old_ps.len());
                if key_lt(unused_key(old_ps[b - 1]), kv) {
                    if b - 1 == p {
                        lemma_key_irreflexive(kv);
                        lemma_key_transitive(kv, unused_key(old_ps[p as int]), kv);
                    } else {
                        assert(!key_lt(unused_key(old_ps[b - 1]), unused_key(old_ps[p as int])));
                        lemma_key_transitive(unused_key(old_ps[b - 1]), kv, unused_key(old_ps[p as int]));
                    }
                }
            } else {
                assert(nps[a] == old_ps[a - 1] && nps[b] == old_ps[b - 1]);
            }
        }
    }
}

} // verus!
