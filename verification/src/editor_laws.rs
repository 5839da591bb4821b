//! Properties of what the editor is shown: references, completions, the
//! insertion point of a new parameter, the files a scan takes.
use vstd::prelude::*;

use crate::analysis::{function_body_scans, is_test_function, FunctionFacts};
use crate::annotations::{first_seen, type_identifiers};
use crate::context::{first_applying, outline_applies, FunctionOutline};
use crate::db::{available_for, named, resolve_usage, resolving_to, usages_in, usages_named};
use crate::resolver::{first_index, picks, Pick};
use crate::hover::{completion_entries, is_available_list, EntryView};
use crate::lsp::utf8_len;
use crate::position::{definition_under_cursor, first_usage_hit, nth_line, usage_under};
use crate::refs::{on_definition_line, references_at, usage_location, usage_locations};
use crate::scan::{scanned_files, scans_file};
use crate::signature::{param_insertion_info, sig_scan};
use crate::types::{DefinitionView, ParamInsertionInfo, UsageView};
use crate::undeclared::is_undeclared_use;
use crate::completion::word_at;
use crate::actions::param_insertion;
use crate::text::{
    char_index, find_spec, first_char_from, is_first_occurrence_from, leading_ws, lemma_char_index, occurs_at,
    trim, trim_start, unicode_whitespace, without_trailing_ws,
};

verus! {

// ---------------------------------------------------------------------------
// References

proof fn lemma_hit_without_name(us: Seq<UsageView>, line: int, w: Seq<char>, c: int, i: int)
    requires
        first_usage_hit(us, line, Some(w), c, i) is Some,
    ensures
        first_usage_hit(us, line, None, c, i) is Some,
    decreases us.len() - i,
{
    if 0 <= i < us.len() && !usage_under(us[i], line, c) {
        lemma_hit_without_name(us, line, w, c, i + 1);
    }
}

proof fn lemma_hit_facts(us: Seq<UsageView>, line: int, w: Option<Seq<char>>, c: int, i: int)
    requires
        0 <= i,
    ensures
        first_usage_hit(us, line, w, c, i) matches Some(k) ==> i <= k < us.len() && usage_under(us[k], line, c)
            && (w matches Some(x) ==> us[k].name == x),
    decreases us.len() - i,
{
    if 0 <= i < us.len() && !(usage_under(us[i], line, c) && (w is None || us[i].name == w->0)) {
        lemma_hit_facts(us, line, w, c, i + 1);
    }
}

proof fn lemma_usages_in_member(us: Seq<UsageView>, f: Seq<char>, k: int)
    requires
        0 <= k < usages_in(us, f).len(),
    ensures
        us.contains(usages_in(us, f)[k]),
        usages_in(us, f)[k].file_path == f,
    decreases us.len(),
{
    let t = us.drop_last();
    if k < usages_in(t, f).len() {
        lemma_usages_in_member(t, f, k);
        let j = choose|j: int| 0 <= j < t.len() && t[j] == usages_in(t, f)[k];
        assert(us[j] == t[j]);
    } else {
        assert(us[us.len() - 1] == usages_in(us, f)[k]);
    }
}

proof fn lemma_resolving_member(
    us: Seq<UsageView>,
    ds: Seq<DefinitionView>,
    fi: Seq<(Seq<char>, Seq<Seq<char>>)>,
    d: DefinitionView,
    u: UsageView,
)
    requires
        us.contains(u),
        u.name == d.name,
        resolve_usage(ds, u, fi) == Some(d),
    ensures
        resolving_to(usages_named(us, d.name), ds, fi, d).contains(u),
    decreases us.len(),
{
    let t = us.drop_last();
    if us.last() == u {
        let r = resolving_to(usages_named(t, d.name), ds, fi, d);
        assert(usages_named(us, d.name) == usages_named(t, d.name).push(u));
        assert(usages_named(us, d.name).drop_last() =~= usages_named(t, d.name));
        assert(resolving_to(usages_named(us, d.name), ds, fi, d) == r.push(u));
        assert(r.push(u)[r.len() as int] == u);
    } else {
        let j = choose|j: int| 0 <= j < us.len() && us[j] == u;
        assert(t[j] == u);
        lemma_resolving_member(t, ds, fi, d, u);
        let r = resolving_to(usages_named(t, d.name), ds, fi, d);
        let k = choose|k: int| 0 <= k < r.len() && r[k] == u;
        if us.last().name == d.name {
            assert(usages_named(us, d.name).drop_last() =~= usages_named(t, d.name));
            let r2 = resolving_to(usages_named(us, d.name), ds, fi, d);
            if resolve_usage(ds, us.last(), fi) == Some(d) {
                assert(r2 == r.push(us.last()));
                assert(r2[k] == u);
            } else {
                assert(r2 == r);
            }
        } else {
            assert(usages_named(us, d.name) == usages_named(t, d.name));
        }
    }
}

proof fn lemma_location_listed(us: Seq<UsageView>, d: Option<DefinitionView>, u: UsageView)
    requires
        us.contains(u),
        !on_definition_line(u, d),
    ensures
        usage_locations(us, d).contains(usage_location(u)),
    decreases us.len(),
{
    let t = us.drop_last();
    if us.last() == u {
        let r = usage_locations(t, d);
        assert(usage_locations(us, d) == r.push(usage_location(u)));
        assert(r.push(usage_location(u))[r.len() as int] == usage_location(u));
    } else {
        let j = choose|j: int| 0 <= j < us.len() && us[j] == u;
        assert(t[j] == u);
        lemma_location_listed(t, d, u);
        let r = usage_locations(t, d);
        let k = choose|k: int| 0 <= k < r.len() && r[k] == usage_location(u);
        if !on_definition_line(us.last(), d) {
            assert(usage_locations(us, d) == r.push(usage_location(us.last())));
            assert(usage_locations(us, d)[k] == usage_location(u));
        }
    }
}

/// Find-references from a usage includes the cursor's own position: when
/// the cursor (0-based `line`, `c` of file `f` with text `content`) is on a
/// usage of the word under it that leads to a definition, the answer lists
/// that usage, unless it stands on the definition's own line, whose location
/// leads the answer.
pub proof fn law_references_include_cursor(
    ds: Seq<DefinitionView>,
    us: Seq<UsageView>,
    fi: Seq<(Seq<char>, Seq<Seq<char>>)>,
    f: Seq<char>,
    line: int,
    c: int,
    content: Seq<char>,
    l: Seq<char>,
    w: Seq<char>,
    k: int,
)
    requires
        0 <= line,
        nth_line(content, line) == Some(l),
        word_at(l, c) == Some(w),
        first_usage_hit(usages_in(us, f), line + 1, Some(w), c, 0) == Some(k),
        definition_under_cursor(ds, us, fi, f, line, c, content) is Some,
    ensures
        ({
            let d = definition_under_cursor(ds, us, fi, f, line, c, content);
            let u = usages_in(us, f)[k];
            references_at(ds, us, fi, f, line, c, content) matches Some(locs) && (locs.contains(
                usage_location(u),
            ) || on_definition_line(u, d))
        }),
{
    let d = definition_under_cursor(ds, us, fi, f, line, c, content)->0;
    lemma_hit_facts(usages_in(us, f), line + 1, Some(w), c, 0);
    lemma_hit_without_name(usages_in(us, f), line + 1, w, c, 0);
    let u = usages_in(us, f)[k];
    lemma_usages_in_member(us, f, k);
    assert(u.line == (line + 1) as usize);
    assert(resolve_usage(ds, u, fi) == Some(d));
    crate::laws::lemma_resolved_is_defined(ds, u, fi);
    lemma_resolving_member(us, ds, fi, d, u);
    let rs = resolving_to(usages_named(us, d.name), ds, fi, d);
    if !on_definition_line(u, Some(d)) {
        lemma_location_listed(rs, Some(d), u);
        let locs = seq![crate::refs::definition_location(d)] + usage_locations(rs, Some(d));
        let j = choose|j: int| 0 <= j < usage_locations(rs, Some(d)).len() && usage_locations(rs, Some(d))[j]
            == usage_location(u);
        assert(locs[j + 1] == usage_location(u));
    }
}

// ---------------------------------------------------------------------------
// Completion

/// The names of `ns` that are not among `declared`, in order.
pub open spec fn kept_names(ns: Seq<Seq<char>>, declared: Seq<Seq<char>>) -> Seq<Seq<char>>
    decreases ns.len(),
{
    if ns.len() == 0 {
        Seq::empty()
    } else {
        let r = kept_names(ns.drop_last(), declared);
        if declared.contains(ns.last()) {
            r
        } else {
            r.push(ns.last())
        }
    }
}

pub open spec fn entry_labels(es: Seq<EntryView>) -> Seq<Seq<char>> {
    es.map_values(|e: EntryView| e.label)
}

pub open spec fn view_names(ds: Seq<DefinitionView>) -> Seq<Seq<char>> {
    ds.map_values(|d: DefinitionView| d.name)
}

proof fn lemma_entry_labels(
    avail: Seq<DefinitionView>,
    declared: Seq<Seq<char>>,
    root: Option<Seq<char>>,
    ins: Option<ParamInsertionInfo>,
)
    ensures
        entry_labels(completion_entries(avail, declared, root, ins)) == kept_names(view_names(avail), declared),
    decreases avail.len(),
{
    if avail.len() > 0 {
        lemma_entry_labels(avail.drop_last(), declared, root, ins);
        assert(view_names(avail).drop_last() =~= view_names(avail.drop_last()));
        let r = completion_entries(avail.drop_last(), declared, root, ins);
        if !declared.contains(avail.last().name) {
            assert(entry_labels(r.push(crate::hover::entry_for(avail.last(), root, ins))) =~= entry_labels(r).push(
                avail.last().name,
            ));
        }
    }
}

proof fn lemma_kept_members(ns: Seq<Seq<char>>, declared: Seq<Seq<char>>)
    ensures
        forall|i: int|
            0 <= i < kept_names(ns, declared).len() ==> exists|j: int|
                0 <= j < ns.len() && ns[j] == #[trigger] kept_names(ns, declared)[i],
        forall|i: int| 0 <= i < kept_names(ns, declared).len() ==> !declared.contains(#[trigger] kept_names(ns, declared)[i]),
    decreases ns.len(),
{
    if ns.len() > 0 {
        let t = ns.drop_last();
        lemma_kept_members(t, declared);
        let r = kept_names(t, declared);
        let k = kept_names(ns, declared);
        assert forall|i: int| 0 <= i < k.len() implies exists|j: int| 0 <= j < ns.len() && ns[j] == #[trigger] k[i] by {
            if i < r.len() {
                assert(k[i] == r[i]);
                let j = choose|j: int| 0 <= j < t.len() && t[j] == r[i];
                assert(ns[j] == t[j]);
            } else {
                assert(ns[ns.len() - 1] == k[i]);
            }
        }
        assert forall|i: int| 0 <= i < k.len() implies !declared.contains(#[trigger] k[i]) by {
            if i < r.len() {
                assert(k[i] == r[i]);
            }
        }
    }
}

proof fn lemma_kept_sorted(ns: Seq<Seq<char>>, declared: Seq<Seq<char>>)
    requires
        crate::order::strictly_sorted(ns),
    ensures
        crate::order::strictly_sorted(kept_names(ns, declared)),
    decreases ns.len(),
{
    if ns.len() > 0 {
        let t = ns.drop_last();
        assert(crate::order::strictly_sorted(t)) by {
            assert forall|k: int| 0 <= k < t.len() - 1 implies crate::order::seq_lt(#[trigger] t[k], t[k + 1]) by {
                assert(t[k] == ns[k]);
                assert(t[k + 1] == ns[k + 1]);
            }
        }
        lemma_kept_sorted(t, declared);
        lemma_kept_members(t, declared);
        let r = kept_names(t, declared);
        if !declared.contains(ns.last()) && r.len() > 0 {
            let j = choose|j: int| 0 <= j < t.len() && t[j] == r[r.len() - 1];
            crate::order::lemma_strictly_sorted_all(ns, j, ns.len() - 1);
            let k2 = r.push(ns.last());
            assert forall|k: int| 0 <= k < k2.len() - 1 implies crate::order::seq_lt(#[trigger] k2[k], k2[k + 1]) by {
                if k + 1 < r.len() {
                    assert(k2[k] == r[k]);
                    assert(k2[k + 1] == r[k + 1]);
                } else {
                    assert(k2[k] == r[r.len() - 1]);
                    assert(k2[k + 1] == ns.last());
                }
            }
        }
    }
}

/// Completion offers no fixture twice and none the function already
/// declares: the labels of the entries are distinct and not among `declared`.
pub proof fn law_completions_distinct_and_undeclared(
    ds: Seq<DefinitionView>,
    fi: Seq<(Seq<char>, Seq<Seq<char>>)>,
    f: Seq<char>,
    a: Seq<crate::types::FixtureDefinition>,
    declared: Seq<Seq<char>>,
    root: Option<Seq<char>>,
    ins: Option<ParamInsertionInfo>,
)
    requires
        is_available_list(ds, fi, f, a),
    ensures
        ({
            let ls = entry_labels(completion_entries(crate::types::def_views(a), declared, root, ins));
            &&& forall|i: int| 0 <= i < ls.len() ==> !declared.contains(#[trigger] ls[i])
            &&& forall|i: int, j: int| 0 <= i < j < ls.len() ==> #[trigger] ls[i] != #[trigger] ls[j]
        }),
{
    let av = crate::types::def_views(a);
    lemma_entry_labels(av, declared, root, ins);
    assert(view_names(av) =~= crate::db::def_names(a));
    lemma_kept_members(view_names(av), declared);
    lemma_kept_sorted(view_names(av), declared);
    let ls = kept_names(view_names(av), declared);
    assert forall|i: int, j: int| 0 <= i < j < ls.len() implies #[trigger] ls[i] != #[trigger] ls[j] by {
        crate::order::lemma_strictly_sorted_all(ls, i, j);
        crate::order::lemma_trichotomy(ls[i], ls[j]);
    }
}

proof fn lemma_first_applying(os: Seq<FunctionOutline>, t: usize, i: int)
    requires
        0 <= i,
    ensures
        first_applying(os, t, i) matches Some(k) ==> i <= k < os.len() && outline_applies(os[k], t),
    decreases os.len() - i,
{
    if 0 <= i < os.len() && !outline_applies(os[i], t) {
        lemma_first_applying(os, t, i + 1);
    }
}

/// Completion inside functions only happens in tests and fixtures, and only
/// on the lines they span.
pub proof fn law_completion_only_in_tests_and_fixtures(os: Seq<FunctionOutline>, t: usize)
    ensures
        first_applying(os, t, 0) matches Some(k) ==> (is_test_function(os[k].name@) || os[k].is_fixture)
            && os[k].start_line <= t <= os[k].end_line,
{
    lemma_first_applying(os, t, 0);
}

// ---------------------------------------------------------------------------
// Parameter insertion

proof fn lemma_scan_at_paren(
    ls: Seq<Seq<char>>,
    end: int,
    i: int,
    k: int,
    found: bool,
    depth: nat,
    ol: int,
    ok: int,
)
    ensures
        sig_scan(ls, end, i, k, found, depth, ol, ok) matches Some(info) ==> exists|li: int, kk: int|
            0 <= li < ls.len() && 0 <= kk < ls[li].len() && info.line == (li + 1) as usize && #[trigger] ls[li][kk] == ')'
                && info.char_pos == utf8_len(ls[li].take(kk)) as usize,
    decreases end - i, ls[i].len() - k,
{
    if i < 0 || i >= end || i >= ls.len() || k < 0 {
    } else if k >= ls[i].len() {
        lemma_scan_at_paren(ls, end, i + 1, 0, found, depth, ol, ok);
    } else {
        let ch = ls[i][k];
        if !found {
            if ch == '(' {
                lemma_scan_at_paren(ls, end, i, k + 1, true, 1, i, k);
            } else {
                lemma_scan_at_paren(ls, end, i, k + 1, found, depth, ol, ok);
            }
        } else if ch == '(' {
            lemma_scan_at_paren(ls, end, i, k + 1, found, depth + 1, ol, ok);
        } else if ch == ')' && depth > 0 {
            if depth != 1 {
                lemma_scan_at_paren(ls, end, i, k + 1, found, (depth - 1) as nat, ol, ok);
            } else {
                assert(ls[i][k] == ')');
            }
        } else {
            lemma_scan_at_paren(ls, end, i, k + 1, found, depth, ol, ok);
        }
    }
}

/// A new parameter goes at a closing parenthesis: the insertion point names
/// a line of the file and the byte offset of a `)` on it.
pub proof fn law_insertion_at_closing_paren(content: Seq<char>, function_line: nat)
    ensures
        param_insertion_info(content, function_line) matches Some(info) ==> {
            let ls = crate::text::lines_of(content);
            exists|li: int, kk: int|
                0 <= li < ls.len() && 0 <= kk < ls[li].len() && info.line == (li + 1) as usize && #[trigger] ls[li][kk] == ')'
                    && info.char_pos == utf8_len(ls[li].take(kk)) as usize
        },
{
    let ls = crate::text::lines_of(content);
    let d: int = if function_line >= 1 {
        function_line - 1
    } else {
        0
    };
    let end: int = if ls.len() < d + crate::signature::MAX_SIGNATURE_SCAN_LINES {
        ls.len() as int
    } else {
        d + crate::signature::MAX_SIGNATURE_SCAN_LINES
    };
    lemma_scan_at_paren(ls, end, d, 0, false, 0, 0, 0);
}

// ---------------------------------------------------------------------------
// Workspace scan

/// A workspace scan analyzes only paths it was given that are test modules
/// or `conftest.py` files outside skipped directories and exclusions.
pub proof fn law_scanned_files_qualify(paths: Seq<Seq<char>>, root: Seq<char>, pats: Seq<Seq<char>>)
    ensures
        forall|i: int|
            0 <= i < scanned_files(paths, root, pats).len() ==> paths.contains(
                #[trigger] scanned_files(paths, root, pats)[i],
            ) && scans_file(scanned_files(paths, root, pats)[i], root, pats),
    decreases paths.len(),
{
    if paths.len() > 0 {
        let t = paths.drop_last();
        law_scanned_files_qualify(t, root, pats);
        let r = scanned_files(t, root, pats);
        let s = scanned_files(paths, root, pats);
        assert forall|i: int| 0 <= i < s.len() implies paths.contains(#[trigger] s[i]) && scans_file(s[i], root, pats) by {
            if i < r.len() {
                assert(s[i] == r[i]);
                let j = choose|j: int| 0 <= j < t.len() && t[j] == r[i];
                assert(paths[j] == t[j]);
            } else {
                assert(s[i] == paths.last());
                assert(paths[paths.len() - 1] == paths.last());
            }
        }
    }
}

// ---------------------------------------------------------------------------
// Undeclared fixtures

/// `self` and `request` are never reported as undeclared fixtures in a test
/// or fixture body.
pub proof fn law_self_and_request_never_undeclared(
    fx: FunctionFacts,
    ds: Seq<DefinitionView>,
    f: Seq<char>,
    line: usize,
    vars: Seq<(Seq<char>, usize)>,
    s: int,
)
    requires
        0 <= s < function_body_scans(fx).len(),
    ensures
        !is_undeclared_use(ds, f, "self"@, line, function_body_scans(fx)[s].2, vars),
        !is_undeclared_use(ds, f, "request"@, line, function_body_scans(fx)[s].2, vars),
{
    let declared = function_body_scans(fx)[s].2;
    assert(declared[0] == "self"@);
    assert(declared[1] == "request"@);
}

/// Undeclared-fixture detection is line-aware and hierarchy-aware: a name
/// declared as a parameter, or bound locally on an earlier line, is never
/// reported, and a reported name is a fixture available in the file.
pub proof fn law_undeclared_scoping(
    ds: Seq<DefinitionView>,
    f: Seq<char>,
    n: Seq<char>,
    line: usize,
    declared: Seq<Seq<char>>,
    vars: Seq<(Seq<char>, usize)>,
)
    ensures
        declared.contains(n) ==> !is_undeclared_use(ds, f, n, line, declared, vars),
        (crate::undeclared::bound_at(vars, n) matches Some(l) && l < line) ==> !is_undeclared_use(
            ds,
            f,
            n,
            line,
            declared,
            vars,
        ),
        is_undeclared_use(ds, f, n, line, declared, vars) ==> crate::undeclared::fixture_available(ds, f, n),
{
}

// ---------------------------------------------------------------------------
// Annotations

/// The identifiers read from an annotation are distinct.
pub proof fn law_type_identifiers_distinct(s: Seq<char>)
    ensures
        forall|i: int, j: int|
            0 <= i < j < type_identifiers(s).len() ==> #[trigger] type_identifiers(s)[i]
                != #[trigger] type_identifiers(s)[j],
{
    lemma_first_seen_distinct(crate::annotations::idents_from(s, 0));
}

proof fn lemma_first_seen_distinct(s: Seq<Seq<char>>)
    ensures
        forall|i: int, j: int|
            0 <= i < j < first_seen(s).len() ==> #[trigger] first_seen(s)[i] != #[trigger] first_seen(s)[j],
    decreases s.len(),
{
    if s.len() > 0 {
        let r = first_seen(s.drop_last());
        lemma_first_seen_distinct(s.drop_last());
        if !r.contains(s.last()) {
            let t = r.push(s.last());
            assert forall|i: int, j: int| 0 <= i < j < t.len() implies #[trigger] t[i] != #[trigger] t[j] by {
                if j == r.len() {
                    assert(t[i] == r[i]);
                } else {
                    assert(t[i] == r[i]);
                    assert(t[j] == r[j]);
                }
            }
        }
    }
}

// ---------------------------------------------------------------------------
// Completion follows pytest's priorities

proof fn lemma_named_contains(ds: Seq<DefinitionView>, n: Seq<char>, i: int)
    requires
        0 <= i < ds.len(),
        ds[i].name == n,
    ensures
        named(ds, n).contains(ds[i]),
    decreases ds.len(),
{
    let t = ds.drop_last();
    if i == ds.len() - 1 {
        let r = named(t, n);
        assert(named(ds, n) == r.push(ds[i]));
        assert(r.push(ds[i])[r.len() as int] == ds[i]);
    } else {
        assert(t[i] == ds[i]);
        lemma_named_contains(t, n, i);
        let r = named(t, n);
        let k = choose|k: int| 0 <= k < r.len() && r[k] == ds[i];
        if ds.last().name == n {
            assert(named(ds, n) == r.push(ds.last()));
            assert(named(ds, n)[k] == ds[i]);
        }
    }
}

proof fn lemma_first_index_some(ds: Seq<DefinitionView>, p: Pick, excl: Option<DefinitionView>, j: int)
    requires
        0 <= j < ds.len(),
        picks(p, ds[j], excl),
    ensures
        first_index(ds, p, excl) is Some,
    decreases ds.len(),
{
    if !picks(p, ds[0], excl) {
        assert(ds.drop_first()[j - 1] == ds[j]);
        lemma_first_index_some(ds.drop_first(), p, excl, j - 1);
    }
}

/// Completion respects pytest's first priority: where file `f` itself
/// defines fixture `n`, the definition offered there is one in `f`.
pub proof fn law_completion_prefers_same_file(
    ds: Seq<DefinitionView>,
    fi: Seq<(Seq<char>, Seq<Seq<char>>)>,
    f: Seq<char>,
    n: Seq<char>,
    i: int,
)
    requires
        0 <= i < ds.len(),
        ds[i].name == n,
        ds[i].file_path == f,
    ensures
        available_for(ds, fi, f, n) matches Some(d) && d.file_path == f,
{
    let nd = named(ds, n);
    lemma_named_contains(ds, n, i);
    let k = choose|k: int| 0 <= k < nd.len() && nd[k] == ds[i];
    crate::laws::lemma_first_index_picks(nd, Pick::InFile(f), None);
    lemma_first_index_some(nd, Pick::InFile(f), None, k);
}

/// A file that does not parse gets a completion context only for a line it
/// has, and a signature context only in a test (`test_*`) or a fixture.
pub proof fn law_text_completion_in_range_tests_and_fixtures(content: Seq<char>, target: int)
    ensures
        (target == 0 || target > crate::completion::text_lines(content).len()) ==> crate::completion::text_completion(
            content,
            target,
        ) is None,
        crate::completion::text_completion(content, target) matches Some(
            crate::completion::TextContext::Signature { name, is_fixture, .. },
        ) ==> crate::text::seq_starts_with(name, "test_"@) || is_fixture,
{
}

// ---------------------------------------------------------------------------
// Adding a fixture parameter

proof fn lemma_leading_ws_facts(s: Seq<char>)
    ensures
        leading_ws(s) <= s.len(),
        forall|k: int| 0 <= k < leading_ws(s) ==> unicode_whitespace(#[trigger] s[k]),
        leading_ws(s) < s.len() ==> !unicode_whitespace(s[leading_ws(s) as int]),
    decreases s.len(),
{
    if s.len() > 0 && unicode_whitespace(s[0]) {
        let t = s.drop_first();
        lemma_leading_ws_facts(t);
        assert forall|k: int| 0 <= k < leading_ws(s) implies unicode_whitespace(#[trigger] s[k]) by {
            if k > 0 {
                assert(s[k] == t[k - 1]);
            }
        }
        if leading_ws(s) < s.len() {
            assert(s[leading_ws(s) as int] == t[leading_ws(t) as int]);
        }
    }
}

proof fn lemma_trailing_keeps(t: Seq<char>, i: int)
    requires
        0 <= i < t.len(),
        !unicode_whitespace(t[i]),
    ensures
        i < without_trailing_ws(t) <= t.len(),
    decreases t.len(),
{
    if unicode_whitespace(t.last()) {
        assert(t.drop_last()[i] == t[i]);
        lemma_trailing_keeps(t.drop_last(), i);
    }
}

/// A trimmed text is empty exactly when every character of it is whitespace.
proof fn lemma_trim_nonempty(s: Seq<char>)
    ensures
        trim(s).len() > 0 <==> exists|i: int| 0 <= i < s.len() && !unicode_whitespace(#[trigger] s[i]),
{
    lemma_leading_ws_facts(s);
    let a = leading_ws(s) as int;
    let t = trim_start(s);
    if a < s.len() {
        assert(t[0] == s[a]);
        lemma_trailing_keeps(t, 0);
        assert(!unicode_whitespace(s[a]));
    } else {
        assert(t.len() == 0);
        if exists|i: int| 0 <= i < s.len() && !unicode_whitespace(#[trigger] s[i]) {
            let i = choose|i: int| 0 <= i < s.len() && !unicode_whitespace(#[trigger] s[i]);
            assert(unicode_whitespace(s[i]));
        }
    }
}

proof fn lemma_first_occurrence(s: Seq<char>, p: Seq<char>, i: int)
    requires
        occurs_at(s, p, i),
    ensures
        exists|j: int| is_first_occurrence_from(s, p, 0, j),
    decreases i,
{
    if exists|k: int| 0 <= k < i && occurs_at(s, p, k) {
        let k = choose|k: int| 0 <= k < i && occurs_at(s, p, k);
        lemma_first_occurrence(s, p, k);
    } else {
        assert(is_first_occurrence_from(s, p, 0, i));
    }
}

/// Quick fix "add fixture parameter" on a one-line signature: with `q` the
/// first `(` of line `l` and `p` the first `):` (after it), when something
/// other than whitespace stands between them (the signature already has
/// parameters) the new parameter goes right before `):` as `, ` then the
/// name and its annotation, so the old parameters and the new one stay
/// separated by a comma; when nothing does, it goes right after `(` as the
/// name and its annotation alone.
pub proof fn law_param_insertion_separates_parameters(l: Seq<char>, name: Seq<char>, suffix: Seq<char>) -> (qp: (
    int,
    int,
))
    requires
        param_insertion(l, name, suffix) is Some,
    ensures
        first_char_from(l, '(', 0, qp.0),
        is_first_occurrence_from(l, "):"@, 0, qp.1),
        qp.0 < qp.1,
        (exists|i: int| qp.0 < i < qp.1 && !unicode_whitespace(#[trigger] l[i])) ==> param_insertion(l, name, suffix)
            == Some((utf8_len(l.take(qp.1)), ", "@ + name + suffix)),
        !(exists|i: int| qp.0 < i < qp.1 && !unicode_whitespace(#[trigger] l[i])) ==> param_insertion(
            l,
            name,
            suffix,
        ) == Some((utf8_len(l.take(qp.0 + 1)), name + suffix)),
{
    let p = find_spec(l, "):"@)->0;
    let i0 = choose|i: int| occurs_at(l, "):"@, i);
    lemma_first_occurrence(l, "):"@, i0);
    assert(is_first_occurrence_from(l, "):"@, 0, p));
    let w = choose|w: int| 0 <= w < l.take(p).len() && l.take(p)[w] == '(';
    assert(l[w] == '(');
    lemma_char_index(l, '(');
    let q = char_index(l, '(');
    assert(q <= w);
    let inner = l.subrange(q + 1, p);
    lemma_trim_nonempty(inner);
    if exists|i: int| q < i < p && !unicode_whitespace(#[trigger] l[i]) {
        let i = choose|i: int| q < i < p && !unicode_whitespace(#[trigger] l[i]);
        assert(inner[i - q - 1] == l[i]);
    }
    if exists|i: int| 0 <= i < inner.len() && !unicode_whitespace(#[trigger] inner[i]) {
        let i = choose|i: int| 0 <= i < inner.len() && !unicode_whitespace(#[trigger] inner[i]);
        assert(inner[i] == l[q + 1 + i]);
    }
    (q, p)
}

/// Quick fix "add fixture parameter": an insertion point exists exactly when
/// the line closes a signature with `):` and an opening `(` stands before
/// the first such `):`.
pub proof fn law_param_insertion_needs_open_and_close(l: Seq<char>, name: Seq<char>, suffix: Seq<char>)
    ensures
        param_insertion(l, name, suffix) is Some <==> exists|p: int, w: int|
            #[trigger] is_first_occurrence_from(l, "):"@, 0, p) && 0 <= w < p && #[trigger] l[w] == '(',
{
    if param_insertion(l, name, suffix) is Some {
        let p = find_spec(l, "):"@)->0;
        let i0 = choose|i: int| occurs_at(l, "):"@, i);
        lemma_first_occurrence(l, "):"@, i0);
        assert(is_first_occurrence_from(l, "):"@, 0, p));
        let w = choose|w: int| 0 <= w < l.take(p).len() && l.take(p)[w] == '(';
        assert(l[w] == '(');
    }
    if exists|p: int, w: int| #[trigger] is_first_occurrence_from(l, "):"@, 0, p) && 0 <= w < p && #[trigger] l[w] == '(' {
        let (p, w) = choose|p: int, w: int|
            #[trigger] is_first_occurrence_from(l, "):"@, 0, p) && 0 <= w < p && #[trigger] l[w] == '(';
        lemma_first_occurrence(l, "):"@, p);
        let p2 = find_spec(l, "):"@)->0;
        assert(is_first_occurrence_from(l, "):"@, 0, p2));
        if p2 < p {
            assert(occurs_at(l, "):"@, p2));
        } else if p2 > p {
            assert(occurs_at(l, "):"@, p));
        }
        assert(l.take(p)[w] == '(');
    }
}

} // verus!
