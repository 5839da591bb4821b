//! Return-type annotations of fixtures: type aliases expanded, and the
//! imports a test file needs to name the type.
use vstd::prelude::*;

use crate::adapt::{replace_ident, replace_identifier};
use crate::db::FixtureDatabase;
use crate::text::{ascii_alnum, ascii_alpha, chars_eq, chars_of, concat, slice_range, string_from_chars};
use crate::types::{import_views, string_views, TypeImportSpec};

verus! {

/// How many rounds of alias expansion are applied at most.
pub const MAX_ALIAS_DEPTH: usize = 5;

/// One round of expansion: each alias of `al` in turn replaced, as a whole
/// identifier, by its expansion; with whether any replacement changed the text.
pub open spec fn alias_round(s: Seq<char>, al: Seq<(Seq<char>, Seq<char>)>) -> (Seq<char>, bool)
    decreases al.len(),
{
    if al.len() == 0 {
        (s, false)
    } else {
        let (t, c) = alias_round(s, al.drop_last());
        let n = replace_ident(t, al.last().0, al.last().1);
        if n != t {
            (n, true)
        } else {
            (t, c)
        }
    }
}

/// `s` with the aliases `al` expanded, round after round, until a round
/// changes nothing or `depth` rounds have run.
pub open spec fn expand_aliases(s: Seq<char>, al: Seq<(Seq<char>, Seq<char>)>, depth: nat) -> Seq<char>
    decreases depth,
{
    if depth == 0 {
        s
    } else {
        let (t, c) = alias_round(s, al);
        if c {
            expand_aliases(t, al, (depth - 1) as nat)
        } else {
            t
        }
    }
}

pub open spec fn alias_views(v: Seq<(String, String)>) -> Seq<(Seq<char>, Seq<char>)> {
    v.map_values(|p: (String, String)| (p.0@, p.1@))
}

impl FixtureDatabase {
    /// `type_str` with the module's type aliases `type_aliases` (alias,
    /// expansion) expanded, aliases of aliases included, for at most
    /// `MAX_ALIAS_DEPTH` rounds.
    pub fn expand_type_aliases(type_str: &str, type_aliases: &[(String, String)]) -> (r: String)
        ensures
            r@ == expand_aliases(type_str@, alias_views(type_aliases@), MAX_ALIAS_DEPTH as nat),
    {
        let ghost al = alias_views(type_aliases@);
        let mut result = string_from_chars(&chars_of(type_str));
        let mut depth: usize = 0;
        while depth < MAX_ALIAS_DEPTH
            invariant
                depth <= MAX_ALIAS_DEPTH,
                al == alias_views(type_aliases@),
                expand_aliases(type_str@, al, MAX_ALIAS_DEPTH as nat) == expand_aliases(
                    result@,
                    al,
                    (MAX_ALIAS_DEPTH - depth) as nat,
                ),
            decreases MAX_ALIAS_DEPTH - depth,
        {
            let ghost start = result@;
            let mut changed = false;
            let mut i: usize = 0;
            while i < type_aliases.len()
                invariant
                    i <= type_aliases@.len(),
                    al == alias_views(type_aliases@),
                    alias_round(start, al.take(i as int)) == (result@, changed),
                decreases type_aliases@.len() - i,
            {
                let (alias, expanded) = (&type_aliases[i].0, &type_aliases[i].1);
                assert(al[i as int] == (alias@, expanded@));
                assert(al.take(i + 1).drop_last() =~= al.take(i as int));
                assert(al.take(i + 1).last() == al[i as int]);
                let new = replace_identifier(result.as_str(), alias.as_str(), expanded.as_str());
                if new != result {
                    result = new;
                    changed = true;
                }
                i = i + 1;
            }
            assert(al.take(al.len() as int) =~= al);
            if !changed {
                return result;
            }
            depth = depth + 1;
        }
        result
    }
}

/// Characters that may begin an identifier of an annotation.
pub open spec fn ident_start(c: char) -> bool {
    ascii_alpha(c) || c == '_'
}

/// Characters that may continue an identifier.
pub open spec fn ident_rest(c: char) -> bool {
    ascii_alnum(c) || c == '_'
}

/// The length of the run of identifier characters of `s` from `i`.
pub open spec fn run_len(s: Seq<char>, i: int) -> nat
    decreases s.len() - i,
{
    if 0 <= i < s.len() && ident_rest(s[i]) {
        1 + run_len(s, i + 1)
    } else {
        0
    }
}

pub proof fn lemma_run_len(s: Seq<char>, i: int)
    requires
        0 <= i,
    ensures
        i + run_len(s, i) <= (if i <= s.len() {
            s.len() as int
        } else {
            i
        }),
        forall|k: int| i <= k < i + run_len(s, i) ==> ident_rest(#[trigger] s[k]),
        i + run_len(s, i) < s.len() ==> !ident_rest(s[i + run_len(s, i)]),
    decreases s.len() - i,
{
    if 0 <= i < s.len() && ident_rest(s[i]) {
        lemma_run_len(s, i + 1);
    }
}

/// The identifiers of `s` from `i` on, in order, repeats included.
pub open spec fn idents_from(s: Seq<char>, i: int) -> Seq<Seq<char>>
    decreases s.len() - i,
{
    if i < 0 || i >= s.len() {
        Seq::empty()
    } else if ident_start(s[i]) {
        let n = 1 + run_len(s, i + 1);
        proof {
            lemma_run_len(s, i + 1);
        }
        seq![s.subrange(i, i + n)] + idents_from(s, i + n)
    } else {
        idents_from(s, i + 1)
    }
}

/// `s` without repeats, each kept where it first appears.
pub open spec fn first_seen(s: Seq<Seq<char>>) -> Seq<Seq<char>>
    decreases s.len(),
{
    if s.len() == 0 {
        Seq::empty()
    } else {
        let r = first_seen(s.drop_last());
        if r.contains(s.last()) {
            r
        } else {
            r.push(s.last())
        }
    }
}

/// The distinct identifiers of annotation `s`, in order of first appearance
/// (`pathlib.Path` gives `pathlib` and `Path`).
pub open spec fn type_identifiers(s: Seq<char>) -> Seq<Seq<char>> {
    first_seen(idents_from(s, 0))
}

fn contains_chars(v: &Vec<Vec<char>>, x: &[char]) -> (b: bool)
    ensures
        b == crate::text::views(v@).contains(x@),
{
    let mut i: usize = 0;
    while i < v.len()
        invariant
            i <= v@.len(),
            forall|k: int| 0 <= k < i ==> v@[k]@ != x@,
        decreases v@.len() - i,
    {
        if chars_eq(&v[i], x) {
            assert(crate::text::views(v@)[i as int] == x@);
            return true;
        }
        i = i + 1;
    }
    proof {
        if crate::text::views(v@).contains(x@) {
            let k = choose|k: int| 0 <= k < crate::text::views(v@).len() && crate::text::views(v@)[k] == x@;
            assert(v@[k]@ == x@);
        }
    }
    false
}

fn is_ident_start(c: char) -> (b: bool)
    ensures
        b == ident_start(c),
{
    ('a' <= c && c <= 'z') || ('A' <= c && c <= 'Z') || c == '_'
}

fn is_ident_rest(c: char) -> (b: bool)
    ensures
        b == ident_rest(c),
{
    ('a' <= c && c <= 'z') || ('A' <= c && c <= 'Z') || ('0' <= c && c <= '9') || c == '_'
}

proof fn lemma_first_seen_step(all: Seq<Seq<char>>, head: Seq<Seq<char>>, x: Seq<char>)
    requires
        all == head.push(x),
    ensures
        first_seen(all) == (if first_seen(head).contains(x) {
            first_seen(head)
        } else {
            first_seen(head).push(x)
        }),
{
    assert(all.drop_last() =~= head);
}

impl FixtureDatabase {
    /// The distinct identifiers of annotation `type_str`, in order.
    pub fn extract_type_identifiers(type_str: &str) -> (r: Vec<String>)
        ensures
            string_views(r@) == type_identifiers(type_str@),
    {
        let s = chars_of(type_str);
        let ghost sv = s@;
        let mut seen: Vec<Vec<char>> = Vec::new();
        let ghost mut consumed: Seq<Seq<char>> = Seq::empty();
        let mut i: usize = 0;
        assert(idents_from(sv, 0) == consumed + idents_from(sv, 0));
        while i < s.len()
            invariant
                i <= sv.len(),
                sv == s@,
                sv == type_str@,
                idents_from(sv, 0) == consumed + idents_from(sv, i as int),
                crate::text::views(seen@) == first_seen(consumed),
            decreases sv.len() - i,
        {
            if is_ident_start(s[i]) {
                let start = i;
                i = i + 1;
                while i < s.len() && is_ident_rest(s[i])
                    invariant
                        start < i <= sv.len(),
                        sv == s@,
                        forall|k: int| start < k < i ==> ident_rest(#[trigger] sv[k]),
                    decreases sv.len() - i,
                {
                    i = i + 1;
                }
                proof {
                    lemma_run_len(sv, start + 1);
                    let n = run_len(sv, start + 1);
                    if start + 1 + n < i {
                        assert(ident_rest(sv[start + 1 + n]));
                    }
                    if i < start + 1 + n {
                        assert(ident_rest(sv[i as int]));
                    }
                    assert(i == start + 1 + n);
                }
                let ident = slice_range(&s, start, i);
                assert(idents_from(sv, start as int) == seq![ident@] + idents_from(sv, i as int));
                proof {
                    let c2 = consumed.push(ident@);
                    assert(consumed + idents_from(sv, start as int) =~= c2 + idents_from(sv, i as int));
                    lemma_first_seen_step(c2, consumed, ident@);
                    consumed = c2;
                }
                if !contains_chars(&seen, &ident) {
                    let ghost before = crate::text::views(seen@);
                    seen.push(ident);
                    assert(crate::text::views(seen@) =~= before.push(sv.subrange(start as int, i as int)));
                }
            } else {
                i = i + 1;
            }
        }
        assert(idents_from(sv, i as int) =~= Seq::<Seq<char>>::empty());
        assert(consumed + Seq::<Seq<char>>::empty() =~= consumed);
        let mut r: Vec<String> = Vec::new();
        let mut k: usize = 0;
        while k < seen.len()
            invariant
                k <= seen@.len(),
                string_views(r@) == crate::text::views(seen@).take(k as int),
            decreases seen@.len() - k,
        {
            let ghost before = string_views(r@);
            let t = string_from_chars(&seen[k]);
            r.push(t);
            assert(crate::text::views(seen@)[k as int] == seen@[k as int]@);
            assert(string_views(r@) =~= before.push(seen@[k as int]@));
            assert(crate::text::views(seen@).take(k + 1) =~= crate::text::views(seen@).take(k as int).push(
                seen@[k as int]@,
            ));
            k = k + 1;
        }
        assert(crate::text::views(seen@).take(seen@.len() as int) =~= crate::text::views(seen@));
        r
    }
}

/// Builtin names that never need an import.
pub open spec fn builtin_names() -> Seq<Seq<char>> {
    seq![
        "int"@,
        "str"@,
        "bool"@,
        "float"@,
        "bytes"@,
        "bytearray"@,
        "complex"@,
        "list"@,
        "dict"@,
        "tuple"@,
        "set"@,
        "frozenset"@,
        "type"@,
        "object"@,
        "None"@,
        "range"@,
        "slice"@,
        "memoryview"@,
        "property"@,
        "classmethod"@,
        "staticmethod"@,
        "super"@,
        "Exception"@,
        "BaseException"@,
        "ValueError"@,
        "TypeError"@,
        "RuntimeError"@,
        "NotImplementedError"@,
        "AttributeError"@,
        "KeyError"@,
        "IndexError"@,
        "StopIteration"@,
        "GeneratorExit"@,
    ]
}

fn builtin_table() -> (v: Vec<&'static str>)
    ensures
        v@.map_values(|s: &str| s@) == builtin_names(),
{
    let v: Vec<&'static str> = vec![
        "int",
        "str",
        "bool",
        "float",
        "bytes",
        "bytearray",
        "complex",
        "list",
        "dict",
        "tuple",
        "set",
        "frozenset",
        "type",
        "object",
        "None",
        "range",
        "slice",
        "memoryview",
        "property",
        "classmethod",
        "staticmethod",
        "super",
        "Exception",
        "BaseException",
        "ValueError",
        "TypeError",
        "RuntimeError",
        "NotImplementedError",
        "AttributeError",
        "KeyError",
        "IndexError",
        "StopIteration",
        "GeneratorExit",
    ];
    assert(v@.map_values(|s: &str| s@) =~= builtin_names());
    v
}

fn is_builtin(name: &[char]) -> (b: bool)
    ensures
        b == builtin_names().contains(name@),
{
    let table = builtin_table();
    let ghost names = builtin_names();
    let mut i: usize = 0;
    while i < table.len()
        invariant
            i <= table@.len(),
            table@.map_values(|s: &str| s@) == names,
            names == builtin_names(),
            forall|k: int| 0 <= k < i ==> names[k] != name@,
        decreases table@.len() - i,
    {
        let t = chars_of(table[i]);
        assert(names[i as int] == table@[i as int]@);
        if chars_eq(&t, name) {
            return true;
        }
        i = i + 1;
    }
    false
}

pub open spec fn import_map_views(v: Seq<(String, TypeImportSpec)>) -> Seq<(Seq<char>, (Seq<char>, Seq<char>))> {
    v.map_values(|p: (String, TypeImportSpec)| (p.0@, p.1.view_pair()))
}

/// The import bound to name `n` in `m` (the first entry for it).
pub open spec fn import_for(m: Seq<(Seq<char>, (Seq<char>, Seq<char>))>, n: Seq<char>) -> Option<(Seq<char>, Seq<char>)>
    decreases m.len(),
{
    if m.len() == 0 {
        None
    } else if m[0].0 == n {
        Some(m[0].1)
    } else {
        import_for(m.drop_first(), n)
    }
}

/// The imports that the identifiers `ids` of a return type need in another
/// file: none for builtins; the fixture file's own import of the name where
/// it has one; else, for a name the fixture file defines at module level, an
/// import from that file's module `mp` (when it has a module path).
pub open spec fn imports_for_identifiers(
    ids: Seq<Seq<char>>,
    m: Seq<(Seq<char>, (Seq<char>, Seq<char>))>,
    names: Seq<Seq<char>>,
    mp: Option<Seq<char>>,
) -> Seq<(Seq<char>, Seq<char>)>
    decreases ids.len(),
{
    if ids.len() == 0 {
        Seq::empty()
    } else {
        let r = imports_for_identifiers(ids.drop_last(), m, names, mp);
        let id = ids.last();
        if builtin_names().contains(id) {
            r
        } else {
            match import_for(m, id) {
                Some(spec) => r.push(spec),
                None => if names.contains(id) && mp is Some {
                    r.push((id, "from "@ + mp->0 + " import "@ + id))
                } else {
                    r
                },
            }
        }
    }
}

fn import_for_exec(m: &[(String, TypeImportSpec)], n: &[char]) -> (r: Option<usize>)
    ensures
        match r {
            Some(k) => k < m@.len() && import_for(import_map_views(m@), n@) == Some(m@[k as int].1.view_pair()),
            None => import_for(import_map_views(m@), n@) is None,
        },
{
    let ghost mv = import_map_views(m@);
    let mut k: usize = 0;
    assert(mv.skip(0) =~= mv);
    while k < m.len()
        invariant
            k <= mv.len(),
            mv == import_map_views(m@),
            import_for(mv, n@) == import_for(mv.skip(k as int), n@),
        decreases mv.len() - k,
    {
        assert(mv.skip(k as int)[0] == mv[k as int]);
        assert(mv.skip(k as int).drop_first() =~= mv.skip(k + 1));
        if chars_eq(&chars_of(m[k].0.as_str()), n) {
            return Some(k);
        }
        k = k + 1;
    }
    None
}

impl FixtureDatabase {
    /// The imports a test file needs to name `return_type`, a fixture's
    /// return type: `import_map` holds the fixture file's imports by the name
    /// they bind, `module_level_names` the names it defines, and
    /// `fixture_module` its dotted module path, if it has one.
    pub fn resolve_return_type_imports(
        &self,
        return_type: &str,
        import_map: &[(String, TypeImportSpec)],
        module_level_names: &[String],
        fixture_module: Option<&str>,
    ) -> (r: Vec<TypeImportSpec>)
        ensures
            import_views(r@) == imports_for_identifiers(
                type_identifiers(return_type@),
                import_map_views(import_map@),
                string_views(module_level_names@),
                match fixture_module {
                    Some(p) => Some(p@),
                    None => None,
                },
            ),
    {
        let ids = Self::extract_type_identifiers(return_type);
        let ghost iv = string_views(ids@);
        let ghost mv = import_map_views(import_map@);
        let ghost nv = string_views(module_level_names@);
        let ghost mp = match fixture_module {
            Some(p) => Some(p@),
            None => None,
        };
        let mut r: Vec<TypeImportSpec> = Vec::new();
        let mut i: usize = 0;
        while i < ids.len()
            invariant
                i <= iv.len(),
                iv == string_views(ids@),
                mv == import_map_views(import_map@),
                nv == string_views(module_level_names@),
                mp == (match fixture_module {
                    Some(p) => Some(p@),
                    None => None,
                }),
                import_views(r@) == imports_for_identifiers(iv.take(i as int), mv, nv, mp),
            decreases iv.len() - i,
        {
            let id = chars_of(ids[i].as_str());
            assert(iv[i as int] == id@);
            assert(iv.take(i + 1).drop_last() =~= iv.take(i as int));
            assert(iv.take(i + 1).last() == id@);
            let ghost before = import_views(r@);
            if !is_builtin(&id) {
                match import_for_exec(import_map, &id) {
                    Some(k) => {
                        r.push(import_map[k].1.duplicate());
                        assert(import_views(r@) =~= before.push(import_map@[k as int].1.view_pair()));
                    },
                    None => {
                        let known = contains_name(module_level_names, &id);
                        match fixture_module {
                            Some(p) => {
                                if known {
                                    proof {
                                        reveal_strlit("from ");
                                        reveal_strlit(" import ");
                                    }
                                    let a = concat(&chars_of("from "), &chars_of(p));
                                    let b = concat(&a, &chars_of(" import "));
                                    let c = concat(&b, &id);
                                    r.push(
                                        TypeImportSpec {
                                            check_name: string_from_chars(&id),
                                            import_statement: string_from_chars(&c),
                                        },
                                    );
                                    assert(import_views(r@) =~= before.push(
                                        (id@, "from "@ + p@ + " import "@ + id@),
                                    ));
                                }
                            },
                            None => {},
                        }
                    },
                }
            }
            i = i + 1;
        }
        assert(iv.take(iv.len() as int) =~= iv);
        r
    }
}

fn contains_name(v: &[String], x: &[char]) -> (b: bool)
    ensures
        b == string_views(v@).contains(x@),
{
    let mut i: usize = 0;
    while i < v.len()
        invariant
            i <= v@.len(),
            forall|k: int| 0 <= k < i ==> v@[k]@ != x@,
        decreases v@.len() - i,
    {
        if chars_eq(&chars_of(v[i].as_str()), x) {
            assert(string_views(v@)[i as int] == x@);
            return true;
        }
        i = i + 1;
    }
    proof {
        if string_views(v@).contains(x@) {
            let k = choose|k: int| 0 <= k < string_views(v@).len() && string_views(v@)[k] == x@;
            assert(v@[k]@ == x@);
        }
    }
    false
}

} // verus!
