//! Rewriting a fixture's return-type annotation for the file that uses it:
//! `pathlib.Path` becomes `Path` where that file already has
//! `from pathlib import Path`, and `Path` becomes `pathlib.Path` where it has
//! `import pathlib`.
use vstd::prelude::*;

use crate::imports::{from_import_parts, from_import_parts_chars as from_import_parts_exec};
use crate::text::{
    ascii_ident_char, before_seq, before_seq_chars, chars_eq, chars_of, concat, find_first, find_spec,
    ident_char, is_ascii_ident_char, is_ident_char, is_first_occurrence_from, matches_at, occurs_at,
    seq_contains_seq, seq_starts_with, slice_range, starts_with, string_of, strip_prefix,
    strip_prefix_chars, trim, trim_chars,
};
use crate::types::{import_views, TypeImportSpec};

verus! {

// ---------------------------------------------------------------------------
// Replacing every occurrence of a string

/// `s` from index `i` on, with each occurrence of `p` (scanning left to right,
/// occurrences not overlapping) replaced by `r`.
pub open spec fn replace_all_from(s: Seq<char>, p: Seq<char>, r: Seq<char>, i: int) -> Seq<char>
    decreases s.len() - i,
{
    if i < 0 || i >= s.len() {
        Seq::empty()
    } else if p.len() > 0 && occurs_at(s, p, i) {
        r + replace_all_from(s, p, r, i + p.len())
    } else {
        seq![s[i]] + replace_all_from(s, p, r, i + 1)
    }
}

/// `s` with every occurrence of the non-empty `p` replaced by `r` (`str::replace`).
pub open spec fn replace_all(s: Seq<char>, p: Seq<char>, r: Seq<char>) -> Seq<char> {
    replace_all_from(s, p, r, 0)
}

pub fn replace_all_chars(s: &[char], p: &[char], r: &[char]) -> (out: Vec<char>)
    ensures
        out@ == replace_all(s@, p@, r@),
{
    let mut out: Vec<char> = Vec::new();
    let mut i: usize = 0;
    while i < s.len()
        invariant
            i <= s@.len(),
            out@ + replace_all_from(s@, p@, r@, i as int) == replace_all(s@, p@, r@),
        decreases s@.len() - i,
    {
        if p.len() > 0 && matches_at(s, p, i) {
            let ghost before = out@;
            out = concat(&out, r);
            assert(before + replace_all_from(s@, p@, r@, i as int) == before + (r@ + replace_all_from(
                s@,
                p@,
                r@,
                i + p@.len(),
            )));
            assert(before + (r@ + replace_all_from(s@, p@, r@, i + p@.len())) =~= out@
                + replace_all_from(s@, p@, r@, i + p@.len()));
            i = i + p.len();
        } else {
            let ghost before = out@;
            out.push(s[i]);
            assert(before + (seq![s@[i as int]] + replace_all_from(s@, p@, r@, i + 1)) =~= out@
                + replace_all_from(s@, p@, r@, i + 1));
            i = i + 1;
        }
    }
    assert(out@ + replace_all_from(s@, p@, r@, i as int) =~= out@);
    out
}

// ---------------------------------------------------------------------------
// Replacing an identifier

/// No identifier character (nor a `.`, which would make it an attribute)
/// stands just before index `i`.
pub open spec fn free_before(s: Seq<char>, i: int) -> bool {
    i == 0 || !(ident_char(s[i - 1]) || s[i - 1] == '.')
}

/// No identifier character stands at index `j`.
pub open spec fn free_after(s: Seq<char>, j: int) -> bool {
    j >= s.len() || !ident_char(s[j])
}

/// Whether `name` stands at index `i` of `s` as a whole identifier.
pub open spec fn ident_at(s: Seq<char>, name: Seq<char>, i: int) -> bool {
    name.len() > 0 && occurs_at(s, name, i) && free_before(s, i) && free_after(s, i + name.len())
}

/// `s` from index `i` on, with each whole-identifier occurrence of `name`
/// replaced by `rep`.
pub open spec fn replace_ident_from(s: Seq<char>, name: Seq<char>, rep: Seq<char>, i: int) -> Seq<char>
    decreases s.len() - i,
{
    if i < 0 || i >= s.len() {
        Seq::empty()
    } else if ident_at(s, name, i) {
        rep + replace_ident_from(s, name, rep, i + name.len())
    } else {
        seq![s[i]] + replace_ident_from(s, name, rep, i + 1)
    }
}

/// `s` with each occurrence of the identifier `name` (not part of a longer
/// identifier, not an attribute) replaced by `rep`.
pub open spec fn replace_ident(s: Seq<char>, name: Seq<char>, rep: Seq<char>) -> Seq<char> {
    replace_ident_from(s, name, rep, 0)
}

fn ident_at_exec(s: &[char], name: &[char], i: usize) -> (b: bool)
    ensures
        b == ident_at(s@, name@, i as int),
{
    if name.len() == 0 || !matches_at(s, name, i) {
        return false;
    }
    if i > 0 && (is_ident_char(s[i - 1]) || s[i - 1] == '.') {
        return false;
    }
    let j = i + name.len();
    j >= s.len() || !is_ident_char(s[j])
}

pub fn replace_ident_chars(s: &[char], name: &[char], rep: &[char]) -> (out: Vec<char>)
    ensures
        out@ == replace_ident(s@, name@, rep@),
{
    let mut out: Vec<char> = Vec::new();
    let mut i: usize = 0;
    while i < s.len()
        invariant
            i <= s@.len(),
            out@ + replace_ident_from(s@, name@, rep@, i as int) == replace_ident(s@, name@, rep@),
        decreases s@.len() - i,
    {
        if ident_at_exec(s, name, i) {
            let ghost before = out@;
            out = concat(&out, rep);
            assert(before + (rep@ + replace_ident_from(s@, name@, rep@, i + name@.len())) =~= out@
                + replace_ident_from(s@, name@, rep@, i + name@.len()));
            i = i + name.len();
        } else {
            let ghost before = out@;
            out.push(s[i]);
            assert(before + (seq![s@[i as int]] + replace_ident_from(s@, name@, rep@, i + 1)) =~= out@
                + replace_ident_from(s@, name@, rep@, i + 1));
            i = i + 1;
        }
    }
    assert(out@ + replace_ident_from(s@, name@, rep@, i as int) =~= out@);
    out
}

/// `s` with every whole-identifier occurrence of `name` replaced by `replacement`.
pub fn replace_identifier(s: &str, name: &str, replacement: &str) -> (r: String)
    ensures
        r@ == replace_ident(s@, name@, replacement@),
{
    let a = chars_of(s);
    let b = chars_of(name);
    let c = chars_of(replacement);
    let out = replace_ident_chars(&a, &b, &c);
    string_of(&out)
}

// ---------------------------------------------------------------------------
// Dotted names in an annotation

/// Length of the longest prefix of `s` made of identifier characters.
pub open spec fn ident_len(s: Seq<char>) -> nat
    decreases s.len(),
{
    if s.len() > 0 && ident_char(s[0]) {
        1 + ident_len(s.drop_first())
    } else {
        0
    }
}

pub proof fn lemma_ident_len(s: Seq<char>)
    ensures
        ident_len(s) <= s.len(),
        forall|k: int| 0 <= k < ident_len(s) ==> ident_char(#[trigger] s[k]),
        ident_len(s) < s.len() ==> !ident_char(s[ident_len(s) as int]),
    decreases s.len(),
{
    if s.len() > 0 && ident_char(s[0]) {
        let t = s.drop_first();
        lemma_ident_len(t);
        assert forall|k: int| 0 <= k < ident_len(s) implies ident_char(#[trigger] s[k]) by {
            if k > 0 {
                assert(s[k] == t[k - 1]);
            }
        }
        if ident_len(s) < s.len() {
            assert(s[ident_len(s) as int] == t[ident_len(t) as int]);
        }
    }
}

/// The first consumer import, from index `i` on, that binds the name `n`.
pub open spec fn lookup(consumer: Seq<(Seq<char>, Seq<char>)>, n: Seq<char>, i: int) -> Option<(Seq<char>, Seq<char>)>
    decreases consumer.len() - i,
{
    if i < 0 || i >= consumer.len() {
        None
    } else if consumer[i].0 == n {
        Some(consumer[i])
    } else {
        lookup(consumer, n, i + 1)
    }
}

/// Whether a rewrite of the dotted name `d` is already planned.
pub open spec fn has_dotted(rw: Seq<(Seq<char>, Seq<char>)>, d: Seq<char>) -> bool {
    exists|k: int| 0 <= k < rw.len() && (#[trigger] rw[k]).0 == d
}

/// The scan of `s` from `pos` for `<cn>.<Name>` (not preceded by an ASCII
/// identifier character): each such name must be imported by the consumer
/// from `module`, and its rewrite to the consumer's name is planned once;
/// `None` when some name cannot be rewritten.
pub open spec fn dotted_scan(
    s: Seq<char>,
    cn: Seq<char>,
    module: Seq<char>,
    consumer: Seq<(Seq<char>, Seq<char>)>,
    pos: int,
    rw: Seq<(Seq<char>, Seq<char>)>,
) -> Option<Seq<(Seq<char>, Seq<char>)>>
    decreases s.len() - pos,
{
    let prefix = cn.push('.');
    if pos < 0 || pos > s.len() {
        Some(rw)
    } else {
        match find_spec(s.skip(pos), prefix) {
            None => Some(rw),
            Some(h) => {
                let abs = pos + h;
                let ns = abs + prefix.len();
                if h < 0 || ns > s.len() {
                    // not reached: an occurrence lies within `s`
                    Some(rw)
                } else if abs > 0 && ascii_ident_char(s[abs - 1]) {
                    dotted_scan(s, cn, module, consumer, ns, rw)
                } else {
                    proof {
                        lemma_ident_len(s.skip(ns));
                    }
                    let n = s.skip(ns).take(ident_len(s.skip(ns)) as int);
                    if n.len() == 0 {
                        dotted_scan(s, cn, module, consumer, ns, rw)
                    } else {
                        match lookup(consumer, n, 0) {
                            Some(c) => if seq_starts_with(c.1, "from "@ + module + " import"@) {
                                let d = prefix + n;
                                dotted_scan(
                                    s,
                                    cn,
                                    module,
                                    consumer,
                                    ns + n.len(),
                                    if has_dotted(rw, d) {
                                        rw
                                    } else {
                                        rw.push((d, c.0))
                                    },
                                )
                            } else {
                                None
                            },
                            None => None,
                        }
                    }
                }
            },
        }
    }
}

/// `s` with the planned rewrites applied in order.
pub open spec fn apply_rewrites(s: Seq<char>, rw: Seq<(Seq<char>, Seq<char>)>) -> Seq<char>
    decreases rw.len(),
{
    if rw.len() == 0 {
        s
    } else {
        let t = apply_rewrites(s, rw.drop_last());
        replace_all(t, rw.last().0, rw.last().1)
    }
}

/// The name under which the consumer imports `module` with a bare import
/// (`import <module>` or `import <module> as <alias>`), the first such import
/// from index `i` on.
pub open spec fn consumer_bare(consumer: Seq<(Seq<char>, Seq<char>)>, module: Seq<char>, i: int) -> Option<Seq<char>>
    decreases consumer.len() - i,
{
    if i < 0 || i >= consumer.len() {
        None
    } else if (match strip_prefix(consumer[i].1, "import "@) {
        Some(rest) => trim(before_seq(rest, " as "@)) == module,
        None => false,
    }) {
        Some(consumer[i].0)
    } else {
        consumer_bare(consumer, module, i + 1)
    }
}

/// One fixture import against the consumer: a bare import whose dotted names
/// the consumer all imports by their short name is dropped and the names
/// shortened; a from-import whose module the consumer imports bare is dropped
/// and the name lengthened (when it occurs as an identifier); any other
/// import is kept.
pub open spec fn adapt_step(
    st: (Seq<char>, Seq<(Seq<char>, Seq<char>)>),
    spec: (Seq<char>, Seq<char>),
    consumer: Seq<(Seq<char>, Seq<char>)>,
) -> (Seq<char>, Seq<(Seq<char>, Seq<char>)>) {
    let (a, rem) = st;
    let (cn, stmt) = spec;
    let keep = (a, rem.push(spec));
    if seq_starts_with(stmt, "import "@) {
        let bm = trim(before_seq(stmt.skip(7), " as "@));
        if bm.len() == 0 || !seq_contains_seq(a, cn.push('.')) {
            keep
        } else {
            match dotted_scan(a, cn, bm, consumer, 0, Seq::empty()) {
                Some(rw) => if rw.len() > 0 {
                    (apply_rewrites(a, rw), rem)
                } else {
                    keep
                },
                None => keep,
            }
        }
    } else {
        match from_import_parts(stmt) {
            Some((m, np)) => {
                let orig = trim(before_seq(np, " as "@));
                match consumer_bare(consumer, m, 0) {
                    Some(cm) => {
                        let na = replace_ident(a, cn, cm + "."@ + orig);
                        if na != a {
                            (na, rem)
                        } else {
                            keep
                        }
                    },
                    None => keep,
                }
            },
            None => keep,
        }
    }
}

/// The annotation and the imports still needed after adapting each fixture
/// import, in order, to the consumer's imports.
pub open spec fn adapt_all(
    return_type: Seq<char>,
    fixture_imports: Seq<(Seq<char>, Seq<char>)>,
    consumer: Seq<(Seq<char>, Seq<char>)>,
) -> (Seq<char>, Seq<(Seq<char>, Seq<char>)>)
    decreases fixture_imports.len(),
{
    if fixture_imports.len() == 0 {
        (return_type, Seq::empty())
    } else {
        adapt_step(
            adapt_all(return_type, fixture_imports.drop_last(), consumer),
            fixture_imports.last(),
            consumer,
        )
    }
}

pub open spec fn pair_views(v: Seq<(Vec<char>, Vec<char>)>) -> Seq<(Seq<char>, Seq<char>)> {
    v.map_values(|p: (Vec<char>, Vec<char>)| (p.0@, p.1@))
}

fn ident_len_exec(v: &[char], from: usize) -> (n: usize)
    requires
        from <= v@.len(),
    ensures
        n == ident_len(v@.skip(from as int)),
        from + n <= v@.len(),
{
    let mut j: usize = from;
    while j < v.len() && is_ident_char(v[j])
        invariant
            from <= j <= v@.len(),
            forall|k: int| from <= k < j ==> ident_char(#[trigger] v@[k]),
        decreases v@.len() - j,
    {
        j = j + 1;
    }
    proof {
        let t = v@.skip(from as int);
        lemma_ident_len(t);
        let n = ident_len(t);
        if n < j - from {
            assert(t[n as int] == v@[from + n]);
        } else if n > j - from {
            assert(ident_char(t[(j - from) as int]));
            assert(t[(j - from) as int] == v@[j as int]);
        }
    }
    j - from
}

fn lookup_exec(consumer: &[TypeImportSpec], n: &[char]) -> (r: Option<usize>)
    ensures
        match r {
            Some(i) => i < consumer@.len() && lookup(import_views(consumer@), n@, 0) == Some(
                import_views(consumer@)[i as int],
            ),
            None => lookup(import_views(consumer@), n@, 0) is None,
        },
{
    let ghost cv = import_views(consumer@);
    let mut i: usize = 0;
    while i < consumer.len()
        invariant
            i <= consumer@.len(),
            cv == import_views(consumer@),
            lookup(cv, n@, 0) == lookup(cv, n@, i as int),
        decreases consumer@.len() - i,
    {
        let c = chars_of(consumer[i].check_name.as_str());
        assert(cv[i as int].0 == c@);
        if chars_eq(&c, n) {
            return Some(i);
        }
        i = i + 1;
    }
    None
}

fn has_dotted_exec(rw: &Vec<(Vec<char>, Vec<char>)>, d: &[char]) -> (b: bool)
    ensures
        b == has_dotted(pair_views(rw@), d@),
{
    let mut k: usize = 0;
    while k < rw.len()
        invariant
            k <= rw@.len(),
            forall|q: int| 0 <= q < k ==> (#[trigger] pair_views(rw@)[q]).0 != d@,
        decreases rw@.len() - k,
    {
        assert(pair_views(rw@)[k as int].0 == rw@[k as int].0@);
        if chars_eq(&rw[k].0, d) {
            return true;
        }
        k = k + 1;
    }
    false
}

fn dotted_scan_exec(s: &[char], cn: &[char], module: &[char], consumer: &[TypeImportSpec]) -> (r: Option<
    Vec<(Vec<char>, Vec<char>)>,
>)
    ensures
        match r {
            Some(rw) => dotted_scan(s@, cn@, module@, import_views(consumer@), 0, Seq::empty()) == Some(
                pair_views(rw@),
            ),
            None => dotted_scan(s@, cn@, module@, import_views(consumer@), 0, Seq::empty()) is None,
        },
{
    proof {
        reveal_strlit("from ");
        reveal_strlit(" import");
    }
    let ghost cv = import_views(consumer@);
    let mut prefix: Vec<char> = slice_range(cn, 0, cn.len());
    prefix.push('.');
    assert(prefix@ =~= cn@.push('.'));
    let expected = concat(&concat(&chars_of("from "), module), &chars_of(" import"));
    let mut rw: Vec<(Vec<char>, Vec<char>)> = Vec::new();
    let mut pos: usize = 0;
    assert(pair_views(rw@) =~= Seq::<(Seq<char>, Seq<char>)>::empty());
    loop
        invariant
            pos <= s@.len(),
            cv == import_views(consumer@),
            prefix@ == cn@.push('.'),
            expected@ == "from "@ + module@ + " import"@,
            dotted_scan(s@, cn@, module@, cv, 0, Seq::empty()) == dotted_scan(
                s@,
                cn@,
                module@,
                cv,
                pos as int,
                pair_views(rw@),
            ),
        decreases s@.len() - pos,
    {
        let tail = slice_range(s, pos, s.len());
        assert(tail@ =~= s@.skip(pos as int));
        let h = match find_first(&tail, &prefix) {
            None => {
                return Some(rw);
            },
            Some(h) => h,
        };
        let abs = pos + h;
        let ns = abs + prefix.len();
        if abs > 0 && is_ascii_ident_char(s[abs - 1]) {
            pos = ns;
            continue;
        }
        let n_len = ident_len_exec(s, ns);
        proof {
            lemma_ident_len(s@.skip(ns as int));
        }
        let name = slice_range(s, ns, ns + n_len);
        assert(name@ =~= s@.skip(ns as int).take(ident_len(s@.skip(ns as int)) as int));
        if n_len == 0 {
            pos = ns;
            continue;
        }
        match lookup_exec(consumer, &name) {
            Some(ci) => {
                let cs = &consumer[ci];
                let stmt = chars_of(cs.import_statement.as_str());
                assert(cv[ci as int] == (cs.check_name@, cs.import_statement@));
                if !starts_with(&stmt, &expected) {
                    return None;
                }
                let d = concat(&prefix, &name);
                if !has_dotted_exec(&rw, &d) {
                    let ghost before = pair_views(rw@);
                    rw.push((d, chars_of(cs.check_name.as_str())));
                    assert(pair_views(rw@) =~= before.push((prefix@ + name@, cs.check_name@)));
                }
                pos = ns + n_len;
            },
            None => {
                return None;
            },
        }
    }
}

fn apply_rewrites_exec(s: Vec<char>, rw: &Vec<(Vec<char>, Vec<char>)>) -> (r: Vec<char>)
    ensures
        r@ == apply_rewrites(s@, pair_views(rw@)),
{
    let ghost rv = pair_views(rw@);
    let ghost s0 = s@;
    let mut t = s;
    let mut k: usize = 0;
    while k < rw.len()
        invariant
            k <= rw@.len(),
            rv == pair_views(rw@),
            t@ == apply_rewrites(s0, rv.take(k as int)),
        decreases rw@.len() - k,
    {
        assert(rv.take(k + 1).drop_last() =~= rv.take(k as int));
        assert(rv.take(k + 1).last() == (rw@[k as int].0@, rw@[k as int].1@));
        t = replace_all_chars(&t, &rw[k].0, &rw[k].1);
        k = k + 1;
    }
    assert(rv.take(rv.len() as int) =~= rv);
    t
}

fn consumer_bare_exec(consumer: &[TypeImportSpec], module: &[char]) -> (r: Option<String>)
    ensures
        match r {
            Some(c) => consumer_bare(import_views(consumer@), module@, 0) == Some(c@),
            None => consumer_bare(import_views(consumer@), module@, 0) is None,
        },
{
    proof {
        reveal_strlit("import ");
        reveal_strlit(" as ");
    }
    let ghost cv = import_views(consumer@);
    let import_kw = chars_of("import ");
    let as_kw = chars_of(" as ");
    let mut i: usize = 0;
    while i < consumer.len()
        invariant
            i <= consumer@.len(),
            cv == import_views(consumer@),
            import_kw@ == "import "@,
            as_kw@ == " as "@,
            consumer_bare(cv, module@, 0) == consumer_bare(cv, module@, i as int),
        decreases consumer@.len() - i,
    {
        let stmt = chars_of(consumer[i].import_statement.as_str());
        assert(cv[i as int] == (consumer@[i as int].check_name@, stmt@));
        if let Some(rest) = strip_prefix_chars(&stmt, &import_kw) {
            let head = before_seq_chars(&rest, &as_kw);
            let m = trim_chars(&head);
            if chars_eq(&m, module) {
                return Some(consumer[i].check_name.clone());
            }
        }
        i = i + 1;
    }
    None
}

/// Adapts a fixture's return-type annotation `return_type` and the imports it
/// needs (`fixture_imports`) to a consumer file whose imports are
/// `consumer_imports`: `pathlib.Path` becomes `Path` when the consumer has
/// `from pathlib import Path` for every such dotted name (all or nothing per
/// import), and `Path` becomes `pathlib.Path` when the consumer has
/// `import pathlib`. Returns the adapted annotation and the imports still needed.
pub fn adapt_type_for_consumer(
    return_type: &str,
    fixture_imports: &[TypeImportSpec],
    consumer_imports: &[TypeImportSpec],
) -> (r: (String, Vec<TypeImportSpec>))
    ensures
        (r.0@, import_views(r.1@)) == adapt_all(
            return_type@,
            import_views(fixture_imports@),
            import_views(consumer_imports@),
        ),
{
    proof {
        reveal_strlit("import ");
        reveal_strlit(" as ");
        reveal_strlit(".");
    }
    let ghost fv = import_views(fixture_imports@);
    let ghost cv = import_views(consumer_imports@);
    let import_kw = chars_of("import ");
    let as_kw = chars_of(" as ");
    let mut adapted = chars_of(return_type);
    let mut remaining: Vec<TypeImportSpec> = Vec::new();
    let mut k: usize = 0;
    while k < fixture_imports.len()
        invariant
            k <= fixture_imports@.len(),
            fv == import_views(fixture_imports@),
            cv == import_views(consumer_imports@),
            import_kw@ == "import "@,
            as_kw@ == " as "@,
            (adapted@, import_views(remaining@)) == adapt_all(return_type@, fv.take(k as int), cv),
        decreases fixture_imports@.len() - k,
    {
        let spec = &fixture_imports[k];
        assert(fv.take(k + 1).drop_last() =~= fv.take(k as int));
        assert(fv.take(k + 1).last() == spec.view_pair());
        let cn = chars_of(spec.check_name.as_str());
        let stmt = chars_of(spec.import_statement.as_str());
        let ghost rem0 = import_views(remaining@);
        let ghost a0 = adapted@;
        let mut keep = true;
        if starts_with(&stmt, &import_kw) {
            proof {
                reveal_strlit("import ");
            }
            assert(import_kw@.len() == 7);
            let rest = slice_range(&stmt, 7, stmt.len());
            assert(rest@ =~= stmt@.skip(7));
            let head = before_seq_chars(&rest, &as_kw);
            let bm = trim_chars(&head);
            let mut prefix: Vec<char> = slice_range(&cn, 0, cn.len());
            prefix.push('.');
            assert(prefix@ =~= cn@.push('.'));
            if bm.len() > 0 && find_first(&adapted, &prefix).is_some() {
                proof {
                    if !seq_contains_seq(adapted@, prefix@) {
                        let j = choose|j: int| is_first_occurrence_from(adapted@, prefix@, 0, j);
                        assert(occurs_at(adapted@, prefix@, j));
                    }
                }
                if let Some(rw) = dotted_scan_exec(&adapted, &cn, &bm, consumer_imports) {
                    if rw.len() > 0 {
                        adapted = apply_rewrites_exec(adapted, &rw);
                        keep = false;
                    }
                }
            } else {
                proof {
                    if bm@.len() > 0 && seq_contains_seq(a0, prefix@) {
                        let j = choose|j: int| occurs_at(a0, prefix@, j);
                        assert(exists|i: int| occurs_at(a0, prefix@, i));
                    }
                }
            }
        } else {
            match from_import_parts_exec(&stmt) {
                Some((m, np)) => {
                    let head = before_seq_chars(&np, &as_kw);
                    let orig = trim_chars(&head);
                    match consumer_bare_exec(consumer_imports, &m) {
                        Some(cm) => {
                            let cmc = chars_of(cm.as_str());
                            let dotted = concat(&concat(&cmc, &chars_of(".")), &orig);
                            let na = replace_ident_chars(&adapted, &cn, &dotted);
                            if !chars_eq(&na, &adapted) {
                                adapted = na;
                                keep = false;
                            }
                        },
                        None => {},
                    }
                },
                None => {},
            }
        }
        if keep {
            remaining.push(spec.duplicate());
            assert(import_views(remaining@) =~= rem0.push(spec.view_pair()));
        }
        k = k + 1;
    }
    assert(fv.take(fv.len() as int) =~= fv);
    (string_of(&adapted), remaining)
}

} // verus!
