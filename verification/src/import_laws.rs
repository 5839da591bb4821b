//! Laws of the import search, the sorted insertion and the quick fix.
use crate::actions::{
    admits, code_actions_for, fix_all_action, quickfixes, source_actions,
    annotation_of, editor_line, point, quickfix_action, resolved_def, signature_insertion, undeclared_at,
    ActionContext,
};
use crate::imports::{
    close_group, import_kind, line_is_import, scan_lines, GroupScan,
    add_from, bare_entries, classify_all, entry_slot, from_entries, import_groups, kind_edits, last_of_kind,
    merge_pass, module_index, module_slot, sort_entries, std_fallback, tp_fallback, Classified, ImportKind,
    first_after, import_edits, key_lt, line_sort_key, matching_from_line, matching_line_from,
    sorted_insert_position, ImportGroup,
};
use crate::adapt::{adapt_all, adapt_step, dotted_scan, ident_len, lemma_ident_len};
use crate::text::{ascii_ident_char, before_seq, find_spec, seq_starts_with, trim};
use crate::types::{UndeclaredView, UsageView};
use vstd::prelude::*;

verus! {

proof fn lemma_matching_from(lines: Seq<Seq<char>>, m: Seq<char>, i: int)
    requires
        0 <= i <= lines.len(),
    ensures
        matching_line_from(lines, m, i) matches Some(k) ==> i <= k < lines.len() && matching_from_line(lines[k], m)
            && forall|j: int| i <= j < k ==> !matching_from_line(#[trigger] lines[j], m),
        matching_line_from(lines, m, i) is None ==> forall|j: int|
            i <= j < lines.len() ==> !matching_from_line(#[trigger] lines[j], m),
    decreases lines.len() - i,
{
    if i < lines.len() {
        lemma_matching_from(lines, m, i + 1);
    }
}

/// The from-import line that new names are merged into is the first line of
/// the file that qualifies (a single-line `from <module> import` with names
/// that can all be read); there is none exactly when no line qualifies.
pub proof fn law_matching_line_is_first(lines: Seq<Seq<char>>, m: Seq<char>)
    ensures
        matching_line_from(lines, m, 0) matches Some(i) ==> 0 <= i < lines.len() && matching_from_line(lines[i], m)
            && forall|j: int| 0 <= j < i ==> !matching_from_line(#[trigger] lines[j], m),
        matching_line_from(lines, m, 0) is None <==> forall|j: int|
            0 <= j < lines.len() ==> !matching_from_line(#[trigger] lines[j], m),
{
    lemma_matching_from(lines, m, 0);
    if let Some(i) = matching_line_from(lines, m, 0) {
        assert(matching_from_line(lines[i], m));
    }
}

proof fn lemma_first_after(lines: Seq<Seq<char>>, g: ImportGroup, key: (u8, Seq<char>), i: int)
    requires
        g.first_line <= i,
        g.last_line < lines.len(),
    ensures
        first_after(lines, g, key, i) matches Some(k) ==> i <= k <= g.last_line && key_lt(key, line_sort_key(lines[k]))
            && forall|j: int| i <= j < k ==> !key_lt(key, #[trigger] line_sort_key(lines[j])),
        first_after(lines, g, key, i) is None ==> forall|j: int|
            i <= j <= g.last_line ==> !key_lt(key, #[trigger] line_sort_key(lines[j])),
    decreases lines.len() - i,
{
    if i <= g.last_line {
        lemma_first_after(lines, g, key, i + 1);
    }
}

/// A new import goes into its group before the first line that sorts after
/// it, and after every line of the group that does not: the group stays
/// sorted, and the position lies within the group or just after it.
pub proof fn law_sorted_insert_keeps_order(lines: Seq<Seq<char>>, g: ImportGroup, key: (u8, Seq<char>))
    requires
        g.first_line <= g.last_line,
        g.last_line < lines.len(),
        g.last_line < u32::MAX,
    ensures
        ({
            let r = sorted_insert_position(lines, g, key) as int;
            &&& g.first_line <= r <= g.last_line + 1
            &&& forall|j: int| g.first_line <= j < r ==> !key_lt(key, #[trigger] line_sort_key(lines[j]))
            &&& r <= g.last_line ==> key_lt(key, line_sort_key(lines[r]))
        }),
{
    lemma_first_after(lines, g, key, g.first_line as int);
}

/// A quick fix answers an undeclared fixture at the diagnostic's position:
/// its last edit inserts the fixture as a parameter where the function's
/// signature takes it, every edit before that adds an import the annotation
/// needs, and it is the preferred action for that diagnostic.
pub proof fn law_quickfix_inserts_parameter_last(
    ctx: ActionContext,
    undeclared: Seq<UndeclaredView>,
    k: int,
    code: Option<Seq<char>>,
    line: u32,
    character: u32,
)
    ensures
        quickfix_action(ctx, undeclared, k, code, line, character) matches Some(a) ==> {
            &&& code == Some("undeclared-fixture"@)
            &&& undeclared_at(undeclared, line + 1, character as int, 0) matches Some(u)
            &&& signature_insertion(
                ctx.lines,
                editor_line(u.function_line) as int,
                u.name,
                annotation_of(resolved_def(ctx, u.name), ctx.consumer).0,
            ) matches Some((sl, b, t))
            &&& a.edits.last() == (point(sl as u32, b as u32), t)
            &&& a.edits.drop_last() == import_edits(
                ctx.lines,
                annotation_of(resolved_def(ctx, u.name), ctx.consumer).1,
                ctx.existing,
            )
            &&& a.diagnostic == Some(k as usize)
            &&& a.is_preferred
        },
{
    reveal(quickfix_action);
    if let Some(a) = quickfix_action(ctx, undeclared, k, code, line, character) {
        let u = undeclared_at(undeclared, line + 1, character as int, 0)->0;
        let ann = annotation_of(resolved_def(ctx, u.name), ctx.consumer);
        let e = import_edits(ctx.lines, ann.1, ctx.existing);
        if let Some((sl, b, t)) = signature_insertion(ctx.lines, editor_line(u.function_line) as int, u.name, ann.0) {
            assert(a.edits == e.push((point(sl as u32, b as u32), t)));
            assert(a.edits.drop_last() =~= e);
        }
    }
}

/// `kept` is `all` at the strictly increasing indices `idx`: a subsequence.
pub open spec fn picks_in_order(
    idx: Seq<int>,
    kept: Seq<(Seq<char>, Seq<char>)>,
    all: Seq<(Seq<char>, Seq<char>)>,
) -> bool {
    &&& idx.len() == kept.len()
    &&& forall|j: int| 0 <= j < idx.len() ==> 0 <= #[trigger] idx[j] < all.len() && kept[j] == all[idx[j]]
    &&& forall|j: int, k: int| 0 <= j < k < idx.len() ==> #[trigger] idx[j] < #[trigger] idx[k]
}

proof fn lemma_adapt_step_shape(
    st: (Seq<char>, Seq<(Seq<char>, Seq<char>)>),
    spec: (Seq<char>, Seq<char>),
    consumer: Seq<(Seq<char>, Seq<char>)>,
)
    ensures
        adapt_step(st, spec, consumer) == (st.0, st.1.push(spec)) || adapt_step(st, spec, consumer).1 == st.1,
{
}

proof fn adapt_witness(
    return_type: Seq<char>,
    fixture_imports: Seq<(Seq<char>, Seq<char>)>,
    consumer: Seq<(Seq<char>, Seq<char>)>,
) -> (idx: Seq<int>)
    ensures
        idx.len() == adapt_all(return_type, fixture_imports, consumer).1.len(),
        adapt_all(return_type, fixture_imports, consumer).1.len() <= fixture_imports.len(),
        forall|j: int|
            0 <= j < idx.len() ==> 0 <= #[trigger] idx[j] < fixture_imports.len() && adapt_all(
                return_type,
                fixture_imports,
                consumer,
            ).1[j] == fixture_imports[idx[j]],
        forall|j: int, k: int| 0 <= j < k < idx.len() ==> #[trigger] idx[j] < #[trigger] idx[k],
        adapt_all(return_type, fixture_imports, consumer).1.len() == fixture_imports.len() ==> adapt_all(
            return_type,
            fixture_imports,
            consumer,
        ).0 == return_type,
    decreases fixture_imports.len(),
{
    if fixture_imports.len() == 0 {
        Seq::empty()
    } else {
        let prev_fi = fixture_imports.drop_last();
        let prev = adapt_all(return_type, prev_fi, consumer);
        let w = adapt_witness(return_type, prev_fi, consumer);
        let r = adapt_all(return_type, fixture_imports, consumer);
        lemma_adapt_step_shape(prev, fixture_imports.last(), consumer);
        if r == (prev.0, prev.1.push(fixture_imports.last())) {
            let idx = w.push(fixture_imports.len() - 1);
            assert forall|j: int| 0 <= j < idx.len() implies 0 <= #[trigger] idx[j] < fixture_imports.len()
                && r.1[j] == fixture_imports[idx[j]] by {
                if j < w.len() {
                    assert(idx[j] == w[j]);
                    assert(prev_fi[w[j]] == fixture_imports[w[j]]);
                }
            }
            assert forall|j: int, k: int| 0 <= j < k < idx.len() implies #[trigger] idx[j] < #[trigger] idx[k] by {
                if k < w.len() {
                    assert(idx[j] == w[j] && idx[k] == w[k]);
                } else {
                    assert(idx[j] == w[j]);
                }
            }
            idx
        } else {
            assert forall|j: int| 0 <= j < w.len() implies 0 <= #[trigger] w[j] < fixture_imports.len()
                && r.1[j] == fixture_imports[w[j]] by {
                assert(prev_fi[w[j]] == fixture_imports[w[j]]);
            }
            w
        }
    }
}

/// Adapting a fixture's annotation to a consumer only drops imports the
/// consumer no longer needs: the imports still needed are the fixture's own,
/// in their order (a subsequence), and the annotation changes only when some
/// import is dropped.
pub proof fn law_adapt_keeps_a_subsequence(
    return_type: Seq<char>,
    fixture_imports: Seq<(Seq<char>, Seq<char>)>,
    consumer: Seq<(Seq<char>, Seq<char>)>,
)
    ensures
        ({
            let r = adapt_all(return_type, fixture_imports, consumer);
            &&& exists|idx: Seq<int>| #[trigger] picks_in_order(idx, r.1, fixture_imports)
            &&& r.1.len() == fixture_imports.len() ==> r.0 == return_type
        }),
{
    let idx = adapt_witness(return_type, fixture_imports, consumer);
    let r = adapt_all(return_type, fixture_imports, consumer);
    assert(picks_in_order(idx, r.1, fixture_imports));
}

proof fn lemma_classify_all_present(specs: Seq<(Seq<char>, Seq<char>)>, existing: Seq<Seq<char>>)
    requires
        forall|i: int| 0 <= i < specs.len() ==> existing.contains(#[trigger] specs[i].0),
    ensures
        classify_all(specs, existing).stdlib_from.len() == 0,
        classify_all(specs, existing).tp_from.len() == 0,
        classify_all(specs, existing).stdlib_bare.len() == 0,
        classify_all(specs, existing).tp_bare.len() == 0,
    decreases specs.len(),
{
    if specs.len() > 0 {
        let t = specs.drop_last();
        assert forall|i: int| 0 <= i < t.len() implies existing.contains(#[trigger] t[i].0) by {
            assert(t[i] == specs[i]);
        }
        lemma_classify_all_present(t, existing);
        assert(existing.contains(specs[specs.len() - 1].0));
    }
}

/// Adding imports that the file already has changes nothing: when every
/// import's name is among the file's existing imports, there are no edits.
pub proof fn law_present_imports_need_no_edits(
    lines: Seq<Seq<char>>,
    specs: Seq<(Seq<char>, Seq<char>)>,
    existing: Seq<Seq<char>>,
)
    requires
        forall|i: int| 0 <= i < specs.len() ==> existing.contains(#[trigger] specs[i].0),
    ensures
        import_edits(lines, specs, existing).len() == 0,
{
    lemma_classify_all_present(specs, existing);
}

proof fn lemma_dotted_scan_empty(
    s: Seq<char>,
    cn: Seq<char>,
    module: Seq<char>,
    pos: int,
    rw: Seq<(Seq<char>, Seq<char>)>,
)
    ensures
        dotted_scan(s, cn, module, Seq::empty(), pos, rw) is None || dotted_scan(s, cn, module, Seq::empty(), pos, rw)
            == Some(rw),
    decreases s.len() - pos,
{
    let prefix = cn.push('.');
    if 0 <= pos <= s.len() {
        if let Some(h) = find_spec(s.skip(pos), prefix) {
            let abs = pos + h;
            let ns = abs + prefix.len();
            if h >= 0 && ns <= s.len() {
                if abs > 0 && ascii_ident_char(s[abs - 1]) {
                    lemma_dotted_scan_empty(s, cn, module, ns, rw);
                } else {
                    lemma_ident_len(s.skip(ns));
                    let n = s.skip(ns).take(ident_len(s.skip(ns)) as int);
                    if n.len() == 0 {
                        lemma_dotted_scan_empty(s, cn, module, ns, rw);
                    }
                }
            }
        }
    }
}

/// With a consumer that imports nothing, adapting changes nothing: the
/// annotation stays as it is and every fixture import is still needed.
pub proof fn law_adapt_without_consumer_imports(
    return_type: Seq<char>,
    fixture_imports: Seq<(Seq<char>, Seq<char>)>,
)
    ensures
        adapt_all(return_type, fixture_imports, Seq::empty()) == (return_type, fixture_imports),
    decreases fixture_imports.len(),
{
    if fixture_imports.len() > 0 {
        let prev = fixture_imports.drop_last();
        law_adapt_without_consumer_imports(return_type, prev);
        let spec = fixture_imports.last();
        let (cn, stmt) = spec;
        if seq_starts_with(stmt, "import "@) {
            let bm = trim(before_seq(stmt.skip(7), " as "@));
            lemma_dotted_scan_empty(return_type, cn, bm, 0, Seq::empty());
        }
        assert(prev.push(spec) =~= fixture_imports);
    }
}

pub open spec fn classified_total(c: Classified) -> nat {
    c.stdlib_from.len() + c.tp_from.len() + c.stdlib_bare.len() + c.tp_bare.len()
}

proof fn lemma_module_index_range(from: Seq<(Seq<char>, Seq<Seq<char>>)>, m: Seq<char>, i: int)
    ensures
        module_index(from, m, i) matches Some(k) ==> 0 <= k < from.len(),
    decreases from.len() - i,
{
    if 0 <= i < from.len() {
        lemma_module_index_range(from, m, i + 1);
    }
}

proof fn lemma_module_slot_range(from: Seq<(Seq<char>, Seq<Seq<char>>)>, m: Seq<char>, i: int)
    requires
        0 <= i,
    ensures
        0 <= module_slot(from, m, i) <= from.len(),
    decreases from.len() - i,
{
    if i < from.len() {
        lemma_module_slot_range(from, m, i + 1);
    }
}

proof fn lemma_add_from_len(from: Seq<(Seq<char>, Seq<Seq<char>>)>, m: Seq<char>, n: Seq<char>)
    ensures
        add_from(from, m, n).len() >= from.len(),
        add_from(from, m, n).len() >= 1,
{
    lemma_module_index_range(from, m, 0);
    lemma_module_slot_range(from, m, 0);
}

/// Classifying keeps every list at least as long, and once some import was
/// taken, some list holds it.
proof fn lemma_classify_grows(specs: Seq<(Seq<char>, Seq<char>)>, existing: Seq<Seq<char>>)
    ensures
        classify_all(specs, existing).seen.len() > 0 ==> classified_total(classify_all(specs, existing)) > 0,
        (exists|i: int| 0 <= i < specs.len() && !existing.contains(#[trigger] specs[i].0)) ==> classify_all(
            specs,
            existing,
        ).seen.len() > 0,
    decreases specs.len(),
{
    if specs.len() > 0 {
        let t = specs.drop_last();
        lemma_classify_grows(t, existing);
        let c = classify_all(t, existing);
        let spec = specs.last();
        lemma_add_from_len(c.stdlib_from, spec.1, spec.1);
        match crate::imports::from_import_parts(spec.1) {
            Some((m, n)) => {
                lemma_add_from_len(c.stdlib_from, m, n);
                lemma_add_from_len(c.tp_from, m, n);
            },
            None => {},
        }
        if exists|i: int| 0 <= i < specs.len() && !existing.contains(#[trigger] specs[i].0) {
            let i = choose|i: int| 0 <= i < specs.len() && !existing.contains(#[trigger] specs[i].0);
            if i < t.len() {
                assert(t[i] == specs[i]);
                assert(!existing.contains(t[i].0));
            }
        }
    }
}

proof fn lemma_merge_pass_len(lines: Seq<Seq<char>>, from: Seq<(Seq<char>, Seq<Seq<char>>)>)
    ensures
        merge_pass(lines, from).0.len() + merge_pass(lines, from).1.len() == from.len(),
    decreases from.len(),
{
    if from.len() > 0 {
        lemma_merge_pass_len(lines, from.drop_last());
    }
}

proof fn lemma_entry_slot_range(s: Seq<((u8, Seq<char>), Seq<char>)>, x: ((u8, Seq<char>), Seq<char>), i: int)
    requires
        0 <= i,
    ensures
        0 <= entry_slot(s, x, i) <= s.len(),
    decreases s.len() - i,
{
    if i < s.len() {
        lemma_entry_slot_range(s, x, i + 1);
    }
}

proof fn lemma_sort_entries_len(s: Seq<((u8, Seq<char>), Seq<char>)>)
    ensures
        sort_entries(s).len() == s.len(),
    decreases s.len(),
{
    if s.len() > 0 {
        lemma_sort_entries_len(s.drop_last());
        lemma_entry_slot_range(sort_entries(s.drop_last()), s.last(), 0);
    }
}

proof fn lemma_kind_edits_len(
    lines: Seq<Seq<char>>,
    from: Seq<(Seq<char>, Seq<Seq<char>>)>,
    bare: Seq<Seq<char>>,
    group: Option<ImportGroup>,
    fallback: u32,
)
    ensures
        kind_edits(lines, from, bare, group, fallback).len() >= from.len() + bare.len(),
{
    let p = merge_pass(lines, from);
    lemma_merge_pass_len(lines, from);
    lemma_sort_entries_len(bare_entries(bare) + from_entries(p.1));
}

/// Adding imports the file lacks always changes it: when some import's name
/// is not among the file's existing imports, there is at least one edit.
pub proof fn law_missing_imports_need_edits(
    lines: Seq<Seq<char>>,
    specs: Seq<(Seq<char>, Seq<char>)>,
    existing: Seq<Seq<char>>,
)
    requires
        exists|i: int| 0 <= i < specs.len() && !existing.contains(#[trigger] specs[i].0),
    ensures
        import_edits(lines, specs, existing).len() > 0,
{
    lemma_classify_grows(specs, existing);
    let c = classify_all(specs, existing);
    let gs = import_groups(lines);
    lemma_kind_edits_len(lines, c.stdlib_from, c.stdlib_bare, last_of_kind(gs, ImportKind::Stdlib), std_fallback(gs));
    lemma_kind_edits_len(lines, c.tp_from, c.tp_bare, last_of_kind(gs, ImportKind::ThirdParty), tp_fallback(gs));
}

/// The import edits are empty exactly when the file already has every
/// import's name.
pub proof fn law_no_edits_iff_all_present(
    lines: Seq<Seq<char>>,
    specs: Seq<(Seq<char>, Seq<char>)>,
    existing: Seq<Seq<char>>,
)
    ensures
        import_edits(lines, specs, existing).len() == 0 <==> forall|i: int|
            0 <= i < specs.len() ==> existing.contains(#[trigger] specs[i].0),
{
    if forall|i: int| 0 <= i < specs.len() ==> existing.contains(#[trigger] specs[i].0) {
        law_present_imports_need_no_edits(lines, specs, existing);
    } else {
        law_missing_imports_need_edits(lines, specs, existing);
    }
}

/// A group of `lines` as the import scan builds it: it starts on an import
/// line, is classified by that line, and ends at or after it within the file.
pub open spec fn group_ok(lines: Seq<Seq<char>>, g: ImportGroup, n: int) -> bool {
    &&& g.first_line <= g.last_line < n
    &&& line_is_import(lines[g.first_line as int])
    &&& g.kind == import_kind(lines[g.first_line as int])
}

/// Groups in file order, none overlapping.
pub open spec fn groups_ordered(gs: Seq<ImportGroup>) -> bool {
    forall|i: int, j: int| 0 <= i < j < gs.len() ==> (#[trigger] gs[i]).last_line < (#[trigger] gs[j]).first_line
}

pub open spec fn scan_inv(lines: Seq<Seq<char>>, st: GroupScan, n: int) -> bool {
    &&& forall|i: int| 0 <= i < st.groups.len() ==> group_ok(lines, #[trigger] st.groups[i], n)
    &&& groups_ordered(st.groups)
    &&& (st.start matches Some(b) ==> {
        &&& b <= st.last < n
        &&& line_is_import(lines[b as int])
        &&& st.kind == import_kind(lines[b as int])
        &&& (st.groups.len() > 0 ==> st.groups.last().last_line < b)
    })
}

proof fn lemma_close_group_inv(lines: Seq<Seq<char>>, st: GroupScan, n: int)
    requires
        scan_inv(lines, st, n),
        n <= usize::MAX,
    ensures
        scan_inv(lines, close_group(st), n),
        close_group(st).start is None,
{
    if let Some(b) = st.start {
        let c = close_group(st);
        let g = ImportGroup { first_line: b as usize, last_line: st.last as usize, kind: st.kind };
        assert(c.groups == st.groups.push(g));
        assert forall|i: int| 0 <= i < c.groups.len() implies group_ok(lines, #[trigger] c.groups[i], n) by {
            if i < st.groups.len() {
                assert(c.groups[i] == st.groups[i]);
            }
        }
        assert forall|i: int, j: int| 0 <= i < j < c.groups.len() implies (#[trigger] c.groups[i]).last_line
            < (#[trigger] c.groups[j]).first_line by {
            assert(c.groups[i] == st.groups[i]);
            if j < st.groups.len() {
                assert(c.groups[j] == st.groups[j]);
            } else {
                let k = st.groups.len() - 1;
                assert(group_ok(lines, st.groups[k], n));
                if i < k {
                    assert(st.groups[i].last_line < st.groups[k].first_line);
                }
            }
        }
    }
}

proof fn lemma_scan_inv(lines: Seq<Seq<char>>, n: int)
    requires
        0 <= n <= lines.len(),
        n <= usize::MAX,
    ensures
        scan_inv(lines, scan_lines(lines, n), n),
    decreases n,
{
    if n > 0 {
        lemma_scan_inv(lines, n - 1);
        let st = scan_lines(lines, n - 1);
        let l = lines[n - 1];
        assert forall|i: int| 0 <= i < st.groups.len() implies group_ok(lines, #[trigger] st.groups[i], n) by {
            assert(group_ok(lines, st.groups[i], n - 1));
        }
        assert(scan_inv(lines, st, n));
        if !st.done && !st.in_multiline && !line_is_import(l) {
            lemma_close_group_inv(lines, st, n);
        }
    }
}

/// The import groups lie in file order without overlapping; each starts on
/// an import line of the file, is classified by that line, and ends at or
/// after it.
pub proof fn law_import_groups_ordered(lines: Seq<Seq<char>>)
    requires
        lines.len() <= usize::MAX,
    ensures
        forall|i: int|
            0 <= i < import_groups(lines).len() ==> group_ok(lines, #[trigger] import_groups(lines)[i], lines.len() as int),
        groups_ordered(import_groups(lines)),
{
    lemma_scan_inv(lines, lines.len() as int);
    lemma_close_group_inv(lines, scan_lines(lines, lines.len() as int), lines.len() as int);
}

proof fn lemma_quickfix_kinds(
    ctx: ActionContext,
    undeclared: Seq<UndeclaredView>,
    diags: Seq<(Option<Seq<char>>, u32, u32)>,
    n: int,
)
    ensures
        forall|i: int|
            0 <= i < quickfixes(ctx, undeclared, diags, n).len() ==> (#[trigger] quickfixes(ctx, undeclared, diags, n)[i]).kind
                == "quickfix"@,
    decreases n,
{
    reveal(quickfix_action);
    if n > 0 {
        lemma_quickfix_kinds(ctx, undeclared, diags, n - 1);
        let prev = quickfixes(ctx, undeclared, diags, n - 1);
        assert forall|i: int|
            0 <= i < quickfixes(ctx, undeclared, diags, n).len() implies (#[trigger] quickfixes(
            ctx,
            undeclared,
            diags,
            n,
        )[i]).kind == "quickfix"@ by {
            if i < prev.len() {
                assert(quickfixes(ctx, undeclared, diags, n)[i] == prev[i]);
            }
        }
    }
}

proof fn lemma_source_kinds(ctx: ActionContext, us: Seq<UsageView>, cline: int, cchar: int)
    ensures
        forall|i: int|
            0 <= i < source_actions(ctx, us, cline, cchar).len() ==> (#[trigger] source_actions(ctx, us, cline, cchar)[i]).kind
                == "source.pytest-lsp"@,
    decreases us.len(),
{
    if us.len() > 0 {
        lemma_source_kinds(ctx, us.drop_last(), cline, cchar);
        let prev = source_actions(ctx, us.drop_last(), cline, cchar);
        assert forall|i: int|
            0 <= i < source_actions(ctx, us, cline, cchar).len() implies (#[trigger] source_actions(
            ctx,
            us,
            cline,
            cchar,
        )[i]).kind == "source.pytest-lsp"@ by {
            if i < prev.len() {
                assert(source_actions(ctx, us, cline, cchar)[i] == prev[i]);
            }
        }
    }
}

/// Every code action offered is of a kind the request's `only` filter
/// admits: quick fixes, the annotation at the cursor, and the fix-all
/// action each come only when their kind is requested.
pub proof fn law_actions_respect_only(
    ctx: ActionContext,
    undeclared: Seq<UndeclaredView>,
    usages: Seq<UsageView>,
    only: Option<Seq<Seq<char>>>,
    cline: int,
    cchar: int,
    diags: Seq<(Option<Seq<char>>, u32, u32)>,
)
    ensures
        forall|i: int|
            0 <= i < code_actions_for(ctx, undeclared, usages, only, cline, cchar, diags).len() ==> admits(
                only,
                (#[trigger] code_actions_for(ctx, undeclared, usages, only, cline, cchar, diags)[i]).kind,
            ),
{
    lemma_quickfix_kinds(ctx, undeclared, diags, diags.len() as int);
    lemma_source_kinds(ctx, usages, cline, cchar);
    let a = if admits(only, "quickfix"@) {
        quickfixes(ctx, undeclared, diags, diags.len() as int)
    } else {
        Seq::empty()
    };
    let b = if admits(only, "source.pytest-lsp"@) {
        source_actions(ctx, usages, cline, cchar)
    } else {
        Seq::empty()
    };
    let c = if admits(only, "source.fixAll.pytest-lsp"@) {
        match fix_all_action(ctx, usages) {
            Some(x) => seq![x],
            None => Seq::empty(),
        }
    } else {
        Seq::empty()
    };
    let all = code_actions_for(ctx, undeclared, usages, only, cline, cchar, diags);
    assert(all == a + b + c);
    assert forall|i: int| 0 <= i < all.len() implies admits(only, (#[trigger] all[i]).kind) by {
        if i < a.len() {
            assert(all[i] == a[i]);
        } else if i < a.len() + b.len() {
            assert(all[i] == b[i - a.len()]);
        } else {
            assert(all[i] == c[i - a.len() - b.len()]);
        }
    }
}

} // verus!
