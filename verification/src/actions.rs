//! Code actions: adding a missing fixture parameter (`quickfix`), annotating
//! the fixture parameter under the cursor (`source.pytest-lsp`), and
//! annotating every fixture parameter of a file (`source.fixAll.pytest-lsp`),
//! each with the imports the annotation needs.
use vstd::prelude::*;

use crate::adapt::{adapt_all, adapt_type_for_consumer};
use crate::db::{available_for, named, FixtureDatabase};
use crate::types::{undeclared_views, FixtureDefinition, FixtureUsage, UndeclaredFixture};
use crate::db::{def_names, names_for, undeclared_in, usages_in};
use crate::imports::kind_requested;
use crate::types::usage_views;
use crate::imports::kind_matches;
use crate::queries::resolve_for_file;
use crate::imports::{
    build_import_edits, edit_views, import_edits,
    spec_views, str_views, Position, Range, TextEdit,
};
use crate::lsp::{char_at_byte, char_index_at_byte, utf8_len};
use crate::text::{
    char_index, chars_eq, chars_of, concat, find_first, find_spec, has_char, seq_has_char, seq_starts_with,
    slice_range, string_of, strip_prefix, trim, trim_chars, trim_start,
};
use crate::types::{
    string_views, import_views, opt_view, DefinitionView, TypeImportSpec, UndeclaredView, UsageView,
};

verus! {

/// The parameter insertion for a fixture `name` (with annotation `suffix`)
/// into the signature on line `l`: the byte offset where it goes and the text.
/// The signature must close on this line with `):` after an opening `(`;
/// with parameters already there the new one goes before `)` after a comma,
/// else right after `(`.
pub open spec fn param_insertion(l: Seq<char>, name: Seq<char>, suffix: Seq<char>) -> Option<(nat, Seq<char>)> {
    match find_spec(l, "):"@) {
        None => None,
        Some(p) => if !seq_has_char(l.take(p), '(') {
            None
        } else {
            let q = char_index(l, '(');
            if trim(l.subrange(q + 1, p)).len() > 0 {
                Some((utf8_len(l.take(p)), ", "@ + name + suffix))
            } else {
                Some((utf8_len(l.take(q + 1)), name + suffix))
            }
        },
    }
}

pub(crate) fn byte_len(v: &[char]) -> (n: Option<usize>)
    ensures
        match n {
            Some(k) => k == utf8_len(v@),
            None => utf8_len(v@) > usize::MAX,
        },
{
    let mut k: usize = 0;
    let mut sum: usize = 0;
    while k < v.len()
        invariant
            k <= v@.len(),
            sum == utf8_len(v@.take(k as int)),
        decreases v@.len() - k,
    {
        let w = crate::lsp::char_width(v[k]);
        assert(v@.take(k + 1).drop_last() =~= v@.take(k as int));
        match sum.checked_add(w) {
            Some(s) => {
                sum = s;
            },
            None => {
                proof {
                    lemma_utf8_len_prefix(v@, k + 1);
                }
                return None;
            },
        }
        k = k + 1;
    }
    assert(v@.take(k as int) =~= v@);
    Some(sum)
}

pub(crate) proof fn lemma_utf8_len_prefix(v: Seq<char>, k: int)
    requires
        0 <= k <= v.len(),
    ensures
        utf8_len(v.take(k)) <= utf8_len(v),
    decreases v.len() - k,
{
    if k < v.len() {
        lemma_utf8_len_prefix(v, k + 1);
        assert(v.take(k + 1).drop_last() =~= v.take(k));
    } else {
        assert(v.take(k) =~= v);
    }
}

/// The parameter insertion for `name` into the signature line `l`.
pub fn param_insertion_exec(l: &[char], name: &[char], suffix: &[char]) -> (r: Option<(usize, Vec<char>)>)
    ensures
        match r {
            Some((b, t)) => param_insertion(l@, name@, suffix@) == Some((b as nat, t@)),
            None => param_insertion(l@, name@, suffix@) is None || utf8_len(l@) > usize::MAX,
        },
{
    proof {
        reveal_strlit("):");
        reveal_strlit(", ");
    }
    let p = match find_first(l, &chars_of("):")) {
        Some(p) => p,
        None => {
            return None;
        },
    };
    let head = slice_range(l, 0, p);
    assert(head@ =~= l@.take(p as int));
    if !has_char(&head, '(') {
        return None;
    }
    let q = match crate::text::find_char_from(l, '(', 0) {
        Some(q) => q,
        None => {
            return None;
        },
    };
    proof {
        crate::text::lemma_char_index_of_first(l@, '(', q as int);
        let w = choose|w: int| 0 <= w < head@.len() && head@[w] == '(';
        assert(l@[w] == '(');
        if q > w {
            assert(l@[w] != '(');
        }
    }
    let inner = slice_range(l, q + 1, p);
    let t = trim_chars(&inner);
    if t.len() > 0 {
        let before = slice_range(l, 0, p);
        let b = match byte_len(&before) {
            Some(b) => b,
            None => {
                proof {
                    lemma_utf8_len_prefix(l@, p as int);
                    assert(before@ =~= l@.take(p as int));
                }
                return None;
            },
        };
        assert(before@ =~= l@.take(p as int));
        let text = concat(&concat(&chars_of(", "), name), suffix);
        Some((b, text))
    } else {
        let before = slice_range(l, 0, q + 1);
        let b = match byte_len(&before) {
            Some(b) => b,
            None => {
                proof {
                    lemma_utf8_len_prefix(l@, q + 1);
                    assert(before@ =~= l@.take(q + 1));
                }
                return None;
            },
        };
        assert(before@ =~= l@.take(q + 1));
        let text = concat(name, suffix);
        Some((b, text))
    }
}

/// The index of the first line, from `i` on, that holds a `)`.
pub open spec fn first_close_from(lines: Seq<Seq<char>>, i: int) -> Option<int>
    decreases lines.len() - i,
{
    if i < 0 || i >= lines.len() {
        None
    } else if seq_has_char(lines[i], ')') {
        Some(i)
    } else {
        first_close_from(lines, i + 1)
    }
}

/// Lines `a` up to (not including) `k`, joined.
pub open spec fn joined_lines(lines: Seq<Seq<char>>, a: int, k: int) -> Seq<char>
    decreases k - a,
{
    if a >= k {
        Seq::empty()
    } else {
        joined_lines(lines, a, k - 1) + lines[k - 1]
    }
}

/// The parameter insertion into a signature that opens with `(` on line `fl`
/// (which holds no `)`) and closes with `):` on the first later line that
/// holds a `)`: the line, the byte offset before that `)`, and the text. The
/// new parameter follows the others after a comma, unless there are none or
/// the last one already ends with a comma.
pub open spec fn multiline_insertion(lines: Seq<Seq<char>>, fl: int, name: Seq<char>, suffix: Seq<char>) -> Option<
    (int, nat, Seq<char>),
> {
    let l = lines[fl];
    if !seq_has_char(l, '(') || seq_has_char(l, ')') {
        None
    } else {
        match first_close_from(lines, fl + 1) {
            None => None,
            Some(k) => match find_spec(lines[k], "):"@) {
                None => None,
                Some(p) => {
                    let q = char_index(l, '(');
                    let t = trim(l.skip(q + 1) + joined_lines(lines, fl + 1, k) + lines[k].take(p));
                    let text = if t.len() > 0 && t.last() != ',' {
                        ", "@ + name + suffix
                    } else {
                        name + suffix
                    };
                    Some((k, utf8_len(lines[k].take(p)), text))
                },
            },
        }
    }
}

/// The parameter insertion for the function whose `def` is on line `fl`: on
/// that line when its signature closes there (`param_insertion`), else on
/// the line that closes a multi-line signature.
#[verifier::opaque]
pub open spec fn signature_insertion(lines: Seq<Seq<char>>, fl: int, name: Seq<char>, suffix: Seq<char>) -> Option<
    (int, nat, Seq<char>),
> {
    match find_spec(lines[fl], "):"@) {
        Some(_) => match param_insertion(lines[fl], name, suffix) {
            Some((b, t)) => Some((fl, b, t)),
            None => None,
        },
        None => multiline_insertion(lines, fl, name, suffix),
    }
}

fn first_close_exec(lines: &[&str], i: usize) -> (r: Option<usize>)
    ensures
        match r {
            Some(k) => first_close_from(str_views(lines@), i as int) == Some(k as int) && i <= k < lines@.len(),
            None => first_close_from(str_views(lines@), i as int) is None,
        },
{
    let ghost ls = str_views(lines@);
    let mut j: usize = i;
    while j < lines.len()
        invariant
            i <= j,
            ls == str_views(lines@),
            first_close_from(ls, i as int) == first_close_from(ls, j as int),
        decreases lines@.len() - j,
    {
        let l = chars_of(lines[j]);
        assert(ls[j as int] == l@);
        if has_char(&l, ')') {
            return Some(j);
        }
        j = j + 1;
    }
    None
}

/// The parameter insertion for `name` into the signature of the function
/// whose `def` is on line `fl`: the line, the byte offset and the text.
pub fn signature_insertion_exec(lines: &[&str], fl: usize, name: &[char], suffix: &[char]) -> (r: Option<
    (usize, usize, Vec<char>),
>)
    requires
        fl < lines@.len(),
        lines_fit(str_views(lines@)),
    ensures
        match r {
            Some((k, b, t)) => signature_insertion(str_views(lines@), fl as int, name@, suffix@) == Some(
                (k as int, b as nat, t@),
            ),
            None => signature_insertion(str_views(lines@), fl as int, name@, suffix@) is None,
        },
{
    proof {
        reveal_strlit("):");
        reveal_strlit(", ");
        reveal(signature_insertion);
    }
    let ghost ls = str_views(lines@);
    let l = chars_of(lines[fl]);
    assert(ls[fl as int] == l@);
    let close = chars_of("):");
    if find_first(&l, &close).is_some() {
        return match param_insertion_exec(&l, name, suffix) {
            Some((b, t)) => Some((fl, b, t)),
            None => None,
        };
    }
    if !has_char(&l, '(') || has_char(&l, ')') {
        return None;
    }
    let k = match first_close_exec(lines, fl + 1) {
        Some(k) => k,
        None => {
            return None;
        },
    };
    let lk = chars_of(lines[k]);
    assert(ls[k as int] == lk@);
    let p = match find_first(&lk, &close) {
        Some(p) => p,
        None => {
            return None;
        },
    };
    let q = match crate::text::find_char_from(&l, '(', 0) {
        Some(q) => q,
        None => {
            return None;
        },
    };
    proof {
        crate::text::lemma_char_index_of_first(l@, '(', q as int);
    }
    let n = l.len();
    assert(q < n);
    let mut acc = slice_range(&l, q + 1, n);
    assert(acc@ =~= l@.skip(q + 1) + joined_lines(ls, fl + 1, fl + 1));
    let mut j: usize = fl + 1;
    while j < k
        invariant
            fl + 1 <= j <= k,
            k < lines@.len(),
            ls == str_views(lines@),
            acc@ == l@.skip(q + 1) + joined_lines(ls, fl + 1, j as int),
        decreases k - j,
    {
        let lj = chars_of(lines[j]);
        assert(ls[j as int] == lj@);
        let ghost before = acc@;
        acc = concat(&acc, &lj);
        assert(joined_lines(ls, fl + 1, j + 1) == joined_lines(ls, fl + 1, j as int) + ls[j as int]);
        assert(acc@ =~= l@.skip(q + 1) + joined_lines(ls, fl + 1, j + 1));
        j = j + 1;
    }
    let head = slice_range(&lk, 0, p);
    assert(head@ =~= lk@.take(p as int));
    let all = concat(&acc, &head);
    let t = trim_chars(&all);
    let text = if t.len() > 0 && t[t.len() - 1] != ',' {
        concat(&concat(&chars_of(", "), name), suffix)
    } else {
        concat(name, suffix)
    };
    let b = match byte_len(&head) {
        Some(b) => b,
        None => {
            proof {
                lemma_utf8_len_prefix(lk@, p as int);
                assert(utf8_len(ls[k as int]) <= usize::MAX);
            }
            return None;
        },
    };
    Some((k, b, text))
}

/// Whether the parameter ending at byte `end_char` of (1-based) line `line`
/// already has an annotation: the rest of the line, after leading
/// whitespace, starts with `:`.
pub open spec fn has_annotation(lines: Seq<Seq<char>>, line: usize, end_char: usize) -> bool {
    let idx = if line == 0 {
        0
    } else {
        line - 1
    };
    idx < lines.len() && match char_at_byte(lines[idx], end_char as int) {
        Some(k) => seq_starts_with(trim_start(lines[idx].skip(k)), ":"@),
        None => false,
    }
}

/// Whether the fixture parameter ending at byte `end_char` of (1-based) line
/// `line` is already annotated.
pub fn parameter_has_annotation(lines: &[&str], line: usize, end_char: usize) -> (b: bool)
    ensures
        b == has_annotation(str_views(lines@), line, end_char),
{
    proof {
        reveal_strlit(":");
    }
    let idx = if line == 0 {
        0
    } else {
        line - 1
    };
    if idx >= lines.len() {
        return false;
    }
    let l = chars_of(lines[idx]);
    assert(str_views(lines@)[idx as int] == l@);
    match char_index_at_byte(&l, end_char) {
        Some(k) => {
            let rest = slice_range(&l, k, l.len());
            assert(rest@ =~= l@.skip(k as int));
            let t = crate::text::trim_start_chars(&rest);
            crate::text::starts_with(&t, &chars_of(":"))
        },
        None => false,
    }
}

/// A diagnostic the editor sends with a code-action request: its code and
/// where it starts.
#[derive(Debug)]
pub struct DiagnosticInfo {
    pub code: Option<String>,
    pub line: u32,
    pub character: u32,
}

/// A code action to offer: its title, kind, the diagnostic it fixes (an index
/// into the request's diagnostics), its edits, and whether it is preferred.
#[derive(Debug)]
pub struct CodeActionInfo {
    pub title: String,
    pub kind: String,
    pub diagnostic: Option<usize>,
    pub edits: Vec<TextEdit>,
    pub is_preferred: bool,
}

pub struct ActionView {
    pub title: Seq<char>,
    pub kind: Seq<char>,
    pub diagnostic: Option<usize>,
    pub edits: Seq<(Range, Seq<char>)>,
    pub is_preferred: bool,
}

pub open spec fn action_views(v: Seq<CodeActionInfo>) -> Seq<ActionView> {
    v.map_values(
        |a: CodeActionInfo|
            ActionView {
                title: a.title@,
                kind: a.kind@,
                diagnostic: a.diagnostic,
                edits: edit_views(a.edits@),
                is_preferred: a.is_preferred,
            },
    )
}

/// Everything a code-action request is answered from.
pub struct ActionContext {
    pub defs: Seq<DefinitionView>,
    pub fimports: Seq<(Seq<char>, Seq<Seq<char>>)>,
    pub file: Seq<char>,
    pub lines: Seq<Seq<char>>,
    /// The names the file already imports.
    pub existing: Seq<Seq<char>>,
    /// The file's imports, as (bound name, statement).
    pub consumer: Seq<(Seq<char>, Seq<char>)>,
}

/// The empty range at a position.
pub open spec fn point(line: u32, character: u32) -> Range {
    Range { start: Position { line: line, character: character }, end: Position { line: line, character: character } }
}

/// A recorded (1-based) line as an editor line.
pub open spec fn editor_line(line: usize) -> u32 {
    (if line == 0 {
        0
    } else {
        line - 1
    }) as u32
}

/// The first undeclared-fixture record, from index `i` on, at (1-based) line
/// `line` and byte `ch`.
pub open spec fn undeclared_at(us: Seq<UndeclaredView>, line: int, ch: int, i: int) -> Option<UndeclaredView>
    decreases us.len() - i,
{
    if i < 0 || i >= us.len() {
        None
    } else if us[i].line == line && us[i].start_char == ch {
        Some(us[i])
    } else {
        undeclared_at(us, line, ch, i + 1)
    }
}

/// The annotation suffix (`: <type>`) for a definition and the imports it
/// needs in the consumer; nothing when there is no definition or no type.
pub open spec fn annotation_of(def: Option<DefinitionView>, consumer: Seq<(Seq<char>, Seq<char>)>) -> (
    Seq<char>,
    Seq<(Seq<char>, Seq<char>)>,
) {
    match def {
        Some(d) => match d.return_type {
            Some(rt) => {
                let ad = adapt_all(rt, d.return_type_imports, consumer);
                (": "@ + ad.0, ad.1)
            },
            None => (Seq::empty(), Seq::empty()),
        },
        None => (Seq::empty(), Seq::empty()),
    }
}

pub open spec fn quickfix_title(name: Seq<char>, suffix: Seq<char>) -> Seq<char> {
    let display = match strip_prefix(suffix, ": "@) {
        Some(d) => d,
        None => Seq::empty(),
    };
    if display.len() > 0 {
        "pytest-lsp: Add '"@ + name + "' fixture parameter ("@ + display + ")"@
    } else {
        "pytest-lsp: Add '"@ + name + "' fixture parameter"@
    }
}

/// The definition that file `ctx.file` sees for fixture `n`.
pub open spec fn resolved_def(ctx: ActionContext, n: Seq<char>) -> Option<DefinitionView> {
    match resolve_for_file(named(ctx.defs, n), ctx.file) {
        Some(i) => Some(named(ctx.defs, n)[i]),
        None => None,
    }
}

/// The quickfix for diagnostic `k`: an `undeclared-fixture` diagnostic on an
/// undeclared fixture of the file gets the fixture added as a parameter of
/// its function (annotated when its definition has a type), with the imports
/// the annotation needs.
#[verifier::opaque]
pub open spec fn quickfix_action(
    ctx: ActionContext,
    undeclared: Seq<UndeclaredView>,
    k: int,
    code: Option<Seq<char>>,
    line: u32,
    character: u32,
) -> Option<ActionView> {
    if code != Some("undeclared-fixture"@) {
        None
    } else {
        match undeclared_at(undeclared, line + 1, character as int, 0) {
            None => None,
            Some(u) => {
                let ann = annotation_of(resolved_def(ctx, u.name), ctx.consumer);
                let fl = editor_line(u.function_line);
                if fl >= ctx.lines.len() {
                    None
                } else {
                    match signature_insertion(ctx.lines, fl as int, u.name, ann.0) {
                        None => None,
                        Some((sl, b, text)) => if sl > u32::MAX { None } else { Some(
                            ActionView {
                                title: quickfix_title(u.name, ann.0),
                                kind: "quickfix"@,
                                diagnostic: Some(k as usize),
                                edits: import_edits(ctx.lines, ann.1, ctx.existing).push(
                                    (point(sl as u32, b as u32), text),
                                ),
                                is_preferred: true,
                            },
                        ) },
                    }
                }
            },
        }
    }
}

pub open spec fn diag_views(v: Seq<DiagnosticInfo>) -> Seq<(Option<Seq<char>>, u32, u32)> {
    v.map_values(|d: DiagnosticInfo| (opt_view(d.code), d.line, d.character))
}

/// The quickfixes for the first `n` diagnostics, in order.
pub open spec fn quickfixes(
    ctx: ActionContext,
    undeclared: Seq<UndeclaredView>,
    diags: Seq<(Option<Seq<char>>, u32, u32)>,
    n: int,
) -> Seq<ActionView>
    decreases n,
{
    if n <= 0 {
        Seq::empty()
    } else {
        let prev = quickfixes(ctx, undeclared, diags, n - 1);
        let d = diags[n - 1];
        match quickfix_action(ctx, undeclared, n - 1, d.0, d.1, d.2) {
            Some(a) => prev.push(a),
            None => prev,
        }
    }
}

/// The definition with a return type that completion offers for `n` in the file.
pub open spec fn typed_fixture(ctx: ActionContext, n: Seq<char>) -> Option<DefinitionView> {
    match available_for(ctx.defs, ctx.fimports, ctx.file, n) {
        Some(d) => if d.return_type is Some {
            Some(d)
        } else {
            None
        },
        None => None,
    }
}

/// The adapted annotation and imports for a parameter usage that has no
/// annotation yet and whose fixture has a return type.
pub open spec fn annotation_for_usage(ctx: ActionContext, u: UsageView) -> Option<(Seq<char>, Seq<(Seq<char>, Seq<char>)>)> {
    if !u.is_parameter || has_annotation(ctx.lines, u.line, u.end_char) {
        None
    } else {
        match typed_fixture(ctx, u.name) {
            Some(d) => Some(adapt_all(d.return_type->0, d.return_type_imports, ctx.consumer)),
            None => None,
        }
    }
}

/// The edit that annotates usage `u` with `adapted`.
pub open spec fn annotation_edit(u: UsageView, adapted: Seq<char>) -> (Range, Seq<char>) {
    (point(editor_line(u.line), u.end_char as u32), ": "@ + adapted)
}

/// The `source.pytest-lsp` actions: one for each unannotated fixture
/// parameter under the cursor (line `cline`, 1-based; byte `cchar`).
pub open spec fn source_actions(ctx: ActionContext, us: Seq<UsageView>, cline: int, cchar: int) -> Seq<ActionView>
    decreases us.len(),
{
    if us.len() == 0 {
        Seq::empty()
    } else {
        let prev = source_actions(ctx, us.drop_last(), cline, cchar);
        let u = us.last();
        if u.line == cline && u.start_char <= cchar <= u.end_char {
            match annotation_for_usage(ctx, u) {
                Some((a, imps)) => prev.push(
                    ActionView {
                        title: "pytest-lsp: Add type annotation for fixture '"@ + u.name + "'"@,
                        kind: "source.pytest-lsp"@,
                        diagnostic: None,
                        edits: import_edits(ctx.lines, imps, ctx.existing).push(annotation_edit(u, a)),
                        is_preferred: true,
                    },
                ),
                None => prev,
            }
        } else {
            prev
        }
    }
}

/// For `source.fixAll.pytest-lsp`: the imports and annotation edits of every
/// unannotated fixture parameter of the file, and their number.
pub open spec fn fix_all_parts(ctx: ActionContext, us: Seq<UsageView>) -> (
    Seq<(Seq<char>, Seq<char>)>,
    Seq<(Range, Seq<char>)>,
    nat,
)
    decreases us.len(),
{
    if us.len() == 0 {
        (Seq::empty(), Seq::empty(), 0)
    } else {
        let prev = fix_all_parts(ctx, us.drop_last());
        let u = us.last();
        match annotation_for_usage(ctx, u) {
            Some((a, imps)) => (prev.0 + imps, prev.1.push(annotation_edit(u, a)), prev.2 + 1),
            None => prev,
        }
    }
}

/// The digit for `d` (below ten).
pub open spec fn digit_char(d: nat) -> char {
    if d == 0 {
        '0'
    } else if d == 1 {
        '1'
    } else if d == 2 {
        '2'
    } else if d == 3 {
        '3'
    } else if d == 4 {
        '4'
    } else if d == 5 {
        '5'
    } else if d == 6 {
        '6'
    } else if d == 7 {
        '7'
    } else if d == 8 {
        '8'
    } else {
        '9'
    }
}

/// The decimal digits of `n`.
pub open spec fn decimal(n: nat) -> Seq<char>
    decreases n,
{
    if n < 10 {
        seq![digit_char(n)]
    } else {
        decimal(n / 10) + seq![digit_char(n % 10)]
    }
}

pub open spec fn fix_all_title(n: nat) -> Seq<char> {
    "pytest-lsp: Add all fixture type annotations ("@ + decimal(n) + " fixture"@ + (if n == 1 {
        ""@
    } else {
        "s"@
    }) + ")"@
}

/// The `source.fixAll.pytest-lsp` action, when some parameter needs an annotation.
pub open spec fn fix_all_action(ctx: ActionContext, us: Seq<UsageView>) -> Option<ActionView> {
    let p = fix_all_parts(ctx, us);
    if p.1.len() == 0 {
        None
    } else {
        Some(
            ActionView {
                title: fix_all_title(p.2),
                kind: "source.fixAll.pytest-lsp"@,
                diagnostic: None,
                edits: import_edits(ctx.lines, p.0, ctx.existing) + p.1,
                is_preferred: false,
            },
        )
    }
}

/// Whether the `only` filter admits kind `k`.
pub open spec fn admits(only: Option<Seq<Seq<char>>>, k: Seq<char>) -> bool {
    match only {
        None => true,
        Some(ks) => exists|i: int| 0 <= i < ks.len() && kind_matches(k, #[trigger] ks[i]),
    }
}

/// All the code actions for a request: quickfixes for the diagnostics, then
/// the annotation actions for the cursor, then the file-wide action, each
/// kind only when the `only` filter admits it.
pub open spec fn code_actions_for(
    ctx: ActionContext,
    undeclared: Seq<UndeclaredView>,
    usages: Seq<UsageView>,
    only: Option<Seq<Seq<char>>>,
    cline: int,
    cchar: int,
    diags: Seq<(Option<Seq<char>>, u32, u32)>,
) -> Seq<ActionView> {
    (if admits(only, "quickfix"@) {
        quickfixes(ctx, undeclared, diags, diags.len() as int)
    } else {
        Seq::empty()
    }) + (if admits(only, "source.pytest-lsp"@) {
        source_actions(ctx, usages, cline, cchar)
    } else {
        Seq::empty()
    }) + (if admits(only, "source.fixAll.pytest-lsp"@) {
        match fix_all_action(ctx, usages) {
            Some(a) => seq![a],
            None => Seq::empty(),
        }
    } else {
        Seq::empty()
    })
}

/// The import edits for `imports` (as owned specs) in a file with lines `lines`.
fn edits_for_imports(lines: &[&str], imports: &Vec<TypeImportSpec>, existing: &Vec<String>) -> (r: Vec<TextEdit>)
    ensures
        edit_views(r@) == import_edits(str_views(lines@), import_views(imports@), string_views(existing@)),
{
    let mut refs: Vec<&TypeImportSpec> = Vec::new();
    let mut i: usize = 0;
    while i < imports.len()
        invariant
            i <= imports@.len(),
            refs@.len() == i,
            forall|k: int| 0 <= k < i ==> (#[trigger] refs@[k]).view_pair() == imports@[k].view_pair(),
        decreases imports@.len() - i,
    {
        refs.push(&imports[i]);
        i = i + 1;
    }
    assert(spec_views(refs@) =~= import_views(imports@));
    proof {
    }
    build_import_edits(lines, refs.as_slice(), existing.as_slice())
}

/// The decimal digits of `n`.
pub fn decimal_chars(n: usize) -> (r: Vec<char>)
    ensures
        r@ == decimal(n as nat),
    decreases n,
{
    let d = n % 10;
    let c = if d == 0 {
        '0'
    } else if d == 1 {
        '1'
    } else if d == 2 {
        '2'
    } else if d == 3 {
        '3'
    } else if d == 4 {
        '4'
    } else if d == 5 {
        '5'
    } else if d == 6 {
        '6'
    } else if d == 7 {
        '7'
    } else if d == 8 {
        '8'
    } else {
        '9'
    };
    if n < 10 {
        let mut r: Vec<char> = Vec::new();
        r.push(c);
        assert(r@ =~= seq![c]);
        r
    } else {
        let mut r = decimal_chars(n / 10);
        r.push(c);
        r
    }
}

fn undeclared_at_exec(us: &Vec<UndeclaredFixture>, line: usize, ch: usize) -> (r: Option<usize>)
    ensures
        match r {
            Some(i) => i < us@.len() && undeclared_at(undeclared_views(us@), line as int, ch as int, 0)
                == Some(us@[i as int]@),
            None => undeclared_at(undeclared_views(us@), line as int, ch as int, 0) is None,
        },
{
    let ghost uv = undeclared_views(us@);
    let mut i: usize = 0;
    while i < us.len()
        invariant
            i <= us@.len(),
            uv == undeclared_views(us@),
            undeclared_at(uv, line as int, ch as int, 0) == undeclared_at(uv, line as int, ch as int, i as int),
        decreases us@.len() - i,
    {
        assert(uv[i as int] == us@[i as int]@);
        if us[i].line == line && us[i].start_char == ch {
            return Some(i);
        }
        i = i + 1;
    }
    None
}

/// The annotation suffix and needed imports for a resolved definition.
fn annotation_exec(def: &Option<FixtureDefinition>, consumer: &[TypeImportSpec]) -> (r: (Vec<char>, Vec<TypeImportSpec>))
    ensures
        (r.0@, import_views(r.1@)) == annotation_of(
            match def {
                Some(d) => Some(d@),
                None => None,
            },
            import_views(consumer@),
        ),
{
    proof {
        reveal_strlit(": ");
    }
    match def {
        Some(d) => match &d.return_type {
            Some(rt) => {
                let (adapted, remaining) = adapt_type_for_consumer(
                    rt.as_str(),
                    d.return_type_imports.as_slice(),
                    consumer,
                );
                let suffix = concat(&chars_of(": "), &chars_of(adapted.as_str()));
                (suffix, remaining)
            },
            None => {
                let v: Vec<TypeImportSpec> = Vec::new();
                assert(import_views(v@) =~= Seq::<(Seq<char>, Seq<char>)>::empty());
                (Vec::new(), v)
            },
        },
        None => {
            let v: Vec<TypeImportSpec> = Vec::new();
            assert(import_views(v@) =~= Seq::<(Seq<char>, Seq<char>)>::empty());
            (Vec::new(), v)
        },
    }
}

fn quickfix_title_exec(name: &[char], suffix: &[char]) -> (r: Vec<char>)
    ensures
        r@ == quickfix_title(name@, suffix@),
{
    proof {
        reveal_strlit(": ");
        reveal_strlit("pytest-lsp: Add '");
        reveal_strlit("' fixture parameter (");
        reveal_strlit(")");
        reveal_strlit("' fixture parameter");
    }
    let display = match crate::text::strip_prefix_chars(suffix, &chars_of(": ")) {
        Some(d) => d,
        None => Vec::new(),
    };
    let head = concat(&chars_of("pytest-lsp: Add '"), name);
    if display.len() > 0 {
        let t = concat(&head, &chars_of("' fixture parameter ("));
        let t = concat(&t, &display);
        concat(&t, &chars_of(")"))
    } else {
        concat(&head, &chars_of("' fixture parameter"))
    }
}

/// Every line's UTF-8 encoding fits in memory (byte offsets fit a `usize`).
pub open spec fn lines_fit(lines: Seq<Seq<char>>) -> bool {
    forall|i: int| 0 <= i < lines.len() ==> utf8_len(#[trigger] lines[i]) <= usize::MAX
}

pub open spec fn context_of(
    db: &FixtureDatabase,
    file: Seq<char>,
    lines: Seq<&str>,
    existing: Seq<Seq<char>>,
    consumer: Seq<TypeImportSpec>,
) -> ActionContext {
    ActionContext {
        defs: db.defs(),
        fimports: db.fimports(),
        file: file,
        lines: str_views(lines),
        existing: existing,
        consumer: import_views(consumer),
    }
}

pub open spec fn view_of(a: CodeActionInfo) -> ActionView {
    ActionView {
        title: a.title@,
        kind: a.kind@,
        diagnostic: a.diagnostic,
        edits: edit_views(a.edits@),
        is_preferred: a.is_preferred,
    }
}

impl FixtureDatabase {
    fn quickfix_exec(
        &self,
        file_path: &str,
        lines: &[&str],
        existing: &Vec<String>,
        consumer: &[TypeImportSpec],
        undeclared: &Vec<UndeclaredFixture>,
        k: usize,
        d: &DiagnosticInfo,
    ) -> (r: Option<CodeActionInfo>)
        requires
            lines_fit(str_views(lines@)),
            d.line < u32::MAX,
        ensures
            match r {
                Some(a) => quickfix_action(
                    context_of(self, file_path@, lines@, string_views(existing@), consumer@),
                    undeclared_views(undeclared@),
                    k as int,
                    opt_view(d.code),
                    d.line,
                    d.character,
                ) == Some(view_of(a)),
                None => quickfix_action(
                    context_of(self, file_path@, lines@, string_views(existing@), consumer@),
                    undeclared_views(undeclared@),
                    k as int,
                    opt_view(d.code),
                    d.line,
                    d.character,
                ) is None,
            },
    {
        proof {
            reveal_strlit("undeclared-fixture");
            reveal(quickfix_action);
            reveal_strlit("quickfix");
        }
        let ghost ctx = context_of(self, file_path@, lines@, string_views(existing@), consumer@);
        let code_ok = match &d.code {
            Some(c) => {
                let cc = chars_of(c.as_str());
                chars_eq(&cc, &chars_of("undeclared-fixture"))
            },
            None => false,
        };
        if !code_ok {
            return None;
        }
        let diag_line = crate::lsp::lsp_line_to_internal(d.line);
        let diag_char = d.character as usize;
        let ui = match undeclared_at_exec(undeclared, diag_line, diag_char) {
            Some(i) => i,
            None => {
                return None;
            },
        };
        let u = &undeclared[ui];
        let def = self.resolve_fixture_for_file(file_path, u.name.as_str());
        let (suffix, imps) = annotation_exec(&def, consumer);
        proof {
            assert(resolved_def(ctx, u.name@) == match def {
                Some(x) => Some(x@),
                None => None,
            });
        }
        let fl = crate::lsp::internal_line_to_lsp(u.function_line);
        if fl as usize >= lines.len() {
            return None;
        }
        let name = chars_of(u.name.as_str());
        let (sl, b, text) = match signature_insertion_exec(lines, fl as usize, &name, &suffix) {
            Some(x) => x,
            None => {
                return None;
            },
        };
        if sl > u32::MAX as usize {
            return None;
        }
        let sline = sl as u32;
        let mut edits = edits_for_imports(lines, &imps, existing);
        let ghost before = edit_views(edits@);
        let col = #[verifier::truncate] (b as u32);
        edits.push(TextEdit { range: crate::lsp::create_point_range(sline, col), new_text: string_of(&text) });
        assert(edit_views(edits@) =~= before.push((point(sline, b as u32), text@)));
        let title = quickfix_title_exec(&name, &suffix);
        Some(
            CodeActionInfo {
                title: string_of(&title),
                kind: string_of(&chars_of("quickfix")),
                diagnostic: Some(k),
                edits: edits,
                is_preferred: true,
            },
        )
    }
}

/// The available fixtures of the file, as `get_available_fixtures` returns them.
pub open spec fn is_available_list(ctx: ActionContext, v: Seq<FixtureDefinition>) -> bool {
    &&& forall|k: int|
        0 <= k < v.len() ==> available_for(ctx.defs, ctx.fimports, ctx.file, (#[trigger] v[k]).name@)
            == Some(v[k]@)
    &&& forall|n: Seq<char>|
        (#[trigger] available_for(ctx.defs, ctx.fimports, ctx.file, n)) is Some ==> def_names(v).contains(n)
}

fn typed_fixture_exec(available: &Vec<FixtureDefinition>, name: &[char], Ghost(ctx): Ghost<ActionContext>) -> (r: Option<usize>)
    requires
        is_available_list(ctx, available@),
    ensures
        match r {
            Some(k) => k < available@.len() && typed_fixture(ctx, name@) == Some(available@[k as int]@),
            None => typed_fixture(ctx, name@) is None,
        },
{
    let mut k: usize = 0;
    while k < available.len()
        invariant
            k <= available@.len(),
            is_available_list(ctx, available@),
            forall|j: int| 0 <= j < k ==> (#[trigger] available@[j]).name@ != name@,
        decreases available@.len() - k,
    {
        let n = chars_of(available[k].name.as_str());
        if chars_eq(&n, name) {
            assert(available_for(ctx.defs, ctx.fimports, ctx.file, available@[k as int].name@) == Some(
                available@[k as int]@,
            ));
            if available[k].return_type.is_some() {
                return Some(k);
            } else {
                return None;
            }
        }
        k = k + 1;
    }
    proof {
        if available_for(ctx.defs, ctx.fimports, ctx.file, name@) is Some {
            assert(def_names(available@).contains(name@));
            let j = choose|j: int| 0 <= j < def_names(available@).len() && def_names(available@)[j] == name@;
            assert(available@[j].name@ == name@);
        }
    }
    None
}

fn annotation_for_usage_exec(
    lines: &[&str],
    consumer: &[TypeImportSpec],
    available: &Vec<FixtureDefinition>,
    u: &FixtureUsage,
    Ghost(ctx): Ghost<ActionContext>,
) -> (r: Option<(String, Vec<TypeImportSpec>)>)
    requires
        is_available_list(ctx, available@),
        ctx.lines == str_views(lines@),
        ctx.consumer == import_views(consumer@),
    ensures
        match r {
            Some((a, imps)) => annotation_for_usage(ctx, u@) == Some((a@, import_views(imps@))),
            None => annotation_for_usage(ctx, u@) is None,
        },
{
    if !u.is_parameter || parameter_has_annotation(lines, u.line, u.end_char) {
        return None;
    }
    let name = chars_of(u.name.as_str());
    match typed_fixture_exec(available, &name, Ghost(ctx)) {
        Some(k) => {
            let d = &available[k];
            match &d.return_type {
                Some(rt) => {
                    let (a, imps) = adapt_type_for_consumer(rt.as_str(), d.return_type_imports.as_slice(), consumer);
                    Some((a, imps))
                },
                None => None,
            }
        },
        None => None,
    }
}

fn annotation_edit_exec(u: &FixtureUsage, adapted: &String) -> (e: TextEdit)
    ensures
        (e.range, e.new_text@) == annotation_edit(u@, adapted@),
{
    proof {
        reveal_strlit(": ");
    }
    let line = crate::lsp::internal_line_to_lsp(u.line);
    let col = #[verifier::truncate] (u.end_char as u32);
    let text = concat(&chars_of(": "), &chars_of(adapted.as_str()));
    TextEdit { range: crate::lsp::create_point_range(line, col), new_text: string_of(&text) }
}

fn source_actions_exec(
    lines: &[&str],
    existing: &Vec<String>,
    consumer: &[TypeImportSpec],
    available: &Vec<FixtureDefinition>,
    usages: &Vec<FixtureUsage>,
    cline: usize,
    cchar: usize,
    Ghost(ctx): Ghost<ActionContext>,
) -> (r: Vec<CodeActionInfo>)
    requires
        is_available_list(ctx, available@),
        ctx.lines == str_views(lines@),
        ctx.consumer == import_views(consumer@),
        ctx.existing == string_views(existing@),
    ensures
        action_views(r@) == source_actions(ctx, usage_views(usages@), cline as int, cchar as int),
{
    proof {
        reveal_strlit("pytest-lsp: Add type annotation for fixture '");
        reveal_strlit("'");
        reveal_strlit("source.pytest-lsp");
    }
    let ghost uv = usage_views(usages@);
    let mut r: Vec<CodeActionInfo> = Vec::new();
    let mut i: usize = 0;
    while i < usages.len()
        invariant
            i <= usages@.len(),
            uv == usage_views(usages@),
            is_available_list(ctx, available@),
            ctx.lines == str_views(lines@),
            ctx.consumer == import_views(consumer@),
            ctx.existing == string_views(existing@),
            action_views(r@) == source_actions(ctx, uv.take(i as int), cline as int, cchar as int),
        decreases usages@.len() - i,
    {
        let u = &usages[i];
        assert(uv.take(i + 1).drop_last() =~= uv.take(i as int));
        assert(uv.take(i + 1).last() == u@);
        if u.line == cline && u.start_char <= cchar && cchar <= u.end_char {
            if let Some((a, imps)) = annotation_for_usage_exec(lines, consumer, available, u, Ghost(ctx)) {
                let mut edits = edits_for_imports(lines, &imps, existing);
                let ghost before = edit_views(edits@);
                edits.push(annotation_edit_exec(u, &a));
                assert(edit_views(edits@) =~= before.push(annotation_edit(u@, a@)));
                let t = concat(&chars_of("pytest-lsp: Add type annotation for fixture '"), &chars_of(u.name.as_str()));
                let t = concat(&t, &chars_of("'"));
                let action = CodeActionInfo {
                    title: string_of(&t),
                    kind: string_of(&chars_of("source.pytest-lsp")),
                    diagnostic: None,
                    edits: edits,
                    is_preferred: true,
                };
                let ghost before_r = action_views(r@);
                let ghost av = view_of(action);
                r.push(action);
                assert(action_views(r@) =~= before_r.push(av));
            }
        }
        i = i + 1;
    }
    assert(uv.take(uv.len() as int) =~= uv);
    r
}

fn fix_all_exec(
    lines: &[&str],
    existing: &Vec<String>,
    consumer: &[TypeImportSpec],
    available: &Vec<FixtureDefinition>,
    usages: &Vec<FixtureUsage>,
    Ghost(ctx): Ghost<ActionContext>,
) -> (r: Option<CodeActionInfo>)
    requires
        is_available_list(ctx, available@),
        ctx.lines == str_views(lines@),
        ctx.consumer == import_views(consumer@),
        ctx.existing == string_views(existing@),
    ensures
        match r {
            Some(a) => fix_all_action(ctx, usage_views(usages@)) == Some(view_of(a)),
            None => fix_all_action(ctx, usage_views(usages@)) is None,
        },
{
    proof {
        reveal_strlit("pytest-lsp: Add all fixture type annotations (");
        reveal_strlit(" fixture");
        reveal_strlit("");
        reveal_strlit("s");
        reveal_strlit(")");
        reveal_strlit("source.fixAll.pytest-lsp");
    }
    let ghost uv = usage_views(usages@);
    let mut all_imports: Vec<TypeImportSpec> = Vec::new();
    let mut annotation_edits: Vec<TextEdit> = Vec::new();
    let mut count: usize = 0;
    let mut i: usize = 0;
    while i < usages.len()
        invariant
            i <= usages@.len(),
            uv == usage_views(usages@),
            is_available_list(ctx, available@),
            ctx.lines == str_views(lines@),
            ctx.consumer == import_views(consumer@),
            count <= i,
            ({
                let p = fix_all_parts(ctx, uv.take(i as int));
                &&& import_views(all_imports@) == p.0
                &&& edit_views(annotation_edits@) == p.1
                &&& count == p.2
            }),
        decreases usages@.len() - i,
    {
        let u = &usages[i];
        assert(uv.take(i + 1).drop_last() =~= uv.take(i as int));
        assert(uv.take(i + 1).last() == u@);
        if let Some((a, imps)) = annotation_for_usage_exec(lines, consumer, available, u, Ghost(ctx)) {
            let ghost before_i = import_views(all_imports@);
            let mut j: usize = 0;
            while j < imps.len()
                invariant
                    j <= imps@.len(),
                    import_views(all_imports@) == before_i + import_views(imps@).take(j as int),
                decreases imps@.len() - j,
            {
                let ghost prev = import_views(all_imports@);
                all_imports.push(imps[j].duplicate());
                assert(import_views(all_imports@) =~= prev.push(imps@[j as int].view_pair()));
                assert(import_views(imps@).take(j + 1) =~= import_views(imps@).take(j as int).push(
                    imps@[j as int].view_pair(),
                ));
                assert(import_views(all_imports@) =~= before_i + import_views(imps@).take(j + 1));
                j = j + 1;
            }
            assert(import_views(imps@).take(imps@.len() as int) =~= import_views(imps@));
            let ghost before_e = edit_views(annotation_edits@);
            annotation_edits.push(annotation_edit_exec(u, &a));
            assert(edit_views(annotation_edits@) =~= before_e.push(annotation_edit(u@, a@)));
            count = count + 1;
        }
        i = i + 1;
    }
    assert(uv.take(uv.len() as int) =~= uv);
    if annotation_edits.len() == 0 {
        return None;
    }
    let mut edits = edits_for_imports(lines, &all_imports, existing);
    let ghost e0 = edit_views(edits@);
    let ghost ann = edit_views(annotation_edits@);
    let mut k: usize = 0;
    while k < annotation_edits.len()
        invariant
            k <= annotation_edits@.len(),
            ann == edit_views(annotation_edits@),
            edit_views(edits@) == e0 + ann.take(k as int),
        decreases annotation_edits@.len() - k,
    {
        let e = &annotation_edits[k];
        let ghost prev = edit_views(edits@);
        edits.push(TextEdit { range: e.range, new_text: e.new_text.clone() });
        assert(ann[k as int] == (e.range, e.new_text@));
        assert(edit_views(edits@) =~= prev.push(ann[k as int]));
        assert(ann.take(k + 1) =~= ann.take(k as int).push(ann[k as int]));
        assert(edit_views(edits@) =~= e0 + ann.take(k + 1));
        k = k + 1;
    }
    assert(ann.take(ann.len() as int) =~= ann);
    let t = concat(&chars_of("pytest-lsp: Add all fixture type annotations ("), &decimal_chars(count));
    let t = concat(&t, &chars_of(" fixture"));
    let t = if count == 1 {
        concat(&t, &chars_of(""))
    } else {
        concat(&t, &chars_of("s"))
    };
    let t = concat(&t, &chars_of(")"));
    Some(
        CodeActionInfo {
            title: string_of(&t),
            kind: string_of(&chars_of("source.fixAll.pytest-lsp")),
            diagnostic: None,
            edits: edits,
            is_preferred: false,
        },
    )
}

pub open spec fn only_view(only: Option<Vec<String>>) -> Option<Seq<Seq<char>>> {
    match only {
        Some(ks) => Some(string_views(ks@)),
        None => None,
    }
}

fn admits_exec(only: &Option<Vec<String>>, kind: &str) -> (b: bool)
    ensures
        b == admits(only_view(*only), kind@),
{
    let b = kind_requested(only, kind);
    proof {
        match only {
            Some(ks) => {
                let sv = string_views(ks@);
                if b {
                    let i = choose|i: int| 0 <= i < ks@.len() && kind_matches(kind@, #[trigger] ks@[i]@);
                    assert(sv[i] == ks@[i]@);
                } else {
                    assert forall|i: int| 0 <= i < sv.len() implies !kind_matches(kind@, #[trigger] sv[i]) by {
                        assert(sv[i] == ks@[i]@);
                    }
                }
            },
            None => {},
        }
    }
    b
}

impl FixtureDatabase {
    fn quickfixes_exec(
        &self,
        file_path: &str,
        lines: &[&str],
        existing: &Vec<String>,
        consumer_imports: &[TypeImportSpec],
        diagnostics: &[DiagnosticInfo],
    ) -> (r: Vec<CodeActionInfo>)
        requires
            lines_fit(str_views(lines@)),
            forall|k: int| 0 <= k < diagnostics@.len() ==> (#[trigger] diagnostics@[k]).line < u32::MAX,
        ensures
            action_views(r@) == quickfixes(
                context_of(self, file_path@, lines@, string_views(existing@), consumer_imports@),
                undeclared_in(undeclared_views(self.undeclared_fixtures@), file_path@),
                diag_views(diagnostics@),
                diagnostics@.len() as int,
            ),
    {
        let ghost ctx = context_of(self, file_path@, lines@, string_views(existing@), consumer_imports@);
        let undeclared = self.get_undeclared_fixtures(file_path);
        let ghost dv = diag_views(diagnostics@);
        let mut actions: Vec<CodeActionInfo> = Vec::new();
        let mut k: usize = 0;
        while k < diagnostics.len()
            invariant
                k <= diagnostics@.len(),
                dv == diag_views(diagnostics@),
                lines_fit(str_views(lines@)),
                forall|q: int| 0 <= q < diagnostics@.len() ==> (#[trigger] diagnostics@[q]).line < u32::MAX,
                ctx == context_of(self, file_path@, lines@, string_views(existing@), consumer_imports@),
                action_views(actions@) == quickfixes(ctx, undeclared_views(undeclared@), dv, k as int),
            decreases diagnostics@.len() - k,
        {
            let d = &diagnostics[k];
            assert(dv[k as int] == (opt_view(d.code), d.line, d.character));
            match self.quickfix_exec(file_path, lines, existing, consumer_imports, &undeclared, k, d) {
                Some(a) => {
                    let ghost before = action_views(actions@);
                    let ghost av = view_of(a);
                    actions.push(a);
                    assert(action_views(actions@) =~= before.push(av));
                },
                None => {},
            }
            k = k + 1;
        }
        actions
    }

    fn annotation_actions_exec(
        &self,
        file_path: &str,
        lines: &[&str],
        existing: &Vec<String>,
        consumer_imports: &[TypeImportSpec],
        want_source: bool,
        want_fix_all: bool,
        cursor_line: u32,
        cursor_character: u32,
    ) -> (r: Vec<CodeActionInfo>)
        requires
            cursor_line < u32::MAX,
        ensures
            ({
                let ctx = context_of(self, file_path@, lines@, string_views(existing@), consumer_imports@);
                let us = usages_in(self.uses(), file_path@);
                action_views(r@) == (if want_source {
                    source_actions(ctx, us, cursor_line + 1, cursor_character as int)
                } else {
                    Seq::empty()
                }) + (if want_fix_all {
                    match fix_all_action(ctx, us) {
                        Some(a) => seq![a],
                        None => Seq::empty(),
                    }
                } else {
                    Seq::empty()
                })
            }),
    {
        let ghost ctx = context_of(self, file_path@, lines@, string_views(existing@), consumer_imports@);
        let mut actions: Vec<CodeActionInfo> = Vec::new();
        if !(want_source || want_fix_all) {
            assert(action_views(actions@) =~= Seq::<ActionView>::empty());
            return actions;
        }
        let usages = self.usages_for_file(file_path);
        let available = self.get_available_fixtures(file_path);
        assert(is_available_list(ctx, available@));
        if want_source {
            let cline = crate::lsp::lsp_line_to_internal(cursor_line);
            actions = source_actions_exec(
                lines,
                existing,
                consumer_imports,
                &available,
                &usages,
                cline,
                cursor_character as usize,
                Ghost(ctx),
            );
        }
        let ghost after_src = action_views(actions@);
        if want_fix_all {
            match fix_all_exec(lines, existing, consumer_imports, &available, &usages, Ghost(ctx)) {
                Some(a) => {
                    let ghost av = view_of(a);
                    actions.push(a);
                    assert(action_views(actions@) =~= after_src.push(av));
                },
                None => {},
            }
        }
        proof {
            let us = usages_in(self.uses(), file_path@);
            let src_part = if want_source {
                source_actions(ctx, us, cursor_line + 1, cursor_character as int)
            } else {
                Seq::<ActionView>::empty()
            };
            let fix_part = if want_fix_all {
                match fix_all_action(ctx, us) {
                    Some(a) => seq![a],
                    None => Seq::<ActionView>::empty(),
                }
            } else {
                Seq::<ActionView>::empty()
            };
            assert(after_src =~= src_part);
            assert(action_views(actions@) =~= src_part + fix_part);
        }
        actions
    }

    /// The code actions for a request on file `file_path` (with lines `lines`
    /// and imports `consumer_imports`): quickfixes adding an undeclared
    /// fixture as a parameter (for the `undeclared-fixture` diagnostics among
    /// `diagnostics`), the annotation of the unannotated fixture parameter at
    /// the cursor, and the annotation of all of them; each kind only when the
    /// `only` filter admits it.
    pub fn code_actions(
        &self,
        file_path: &str,
        lines: &[&str],
        consumer_imports: &[TypeImportSpec],
        only: &Option<Vec<String>>,
        cursor_line: u32,
        cursor_character: u32,
        diagnostics: &[DiagnosticInfo],
    ) -> (r: Vec<CodeActionInfo>)
        requires
            lines_fit(str_views(lines@)),
            cursor_line < u32::MAX,
            forall|k: int| 0 <= k < diagnostics@.len() ==> (#[trigger] diagnostics@[k]).line < u32::MAX,
        ensures
            action_views(r@) == code_actions_for(
                context_of(
                    self,
                    file_path@,
                    lines@,
                    names_for(self.module_names(), file_path@, 0),
                    consumer_imports@,
                ),
                undeclared_in(undeclared_views(self.undeclared_fixtures@), file_path@),
                usages_in(self.uses(), file_path@),
                only_view(*only),
                cursor_line + 1,
                cursor_character as int,
                diag_views(diagnostics@),
            ),
    {
        proof {
            reveal_strlit("quickfix");
            reveal_strlit("source.pytest-lsp");
            reveal_strlit("source.fixAll.pytest-lsp");
        }
        let existing = self.imports_for_file(file_path);
        let want_quick = admits_exec(only, "quickfix");
        let want_source = admits_exec(only, "source.pytest-lsp");
        let want_fix_all = admits_exec(only, "source.fixAll.pytest-lsp");
        let mut actions: Vec<CodeActionInfo> = if want_quick {
            self.quickfixes_exec(file_path, lines, &existing, consumer_imports, diagnostics)
        } else {
            Vec::new()
        };
        let ghost q = action_views(actions@);
        let mut more = self.annotation_actions_exec(
            file_path,
            lines,
            &existing,
            consumer_imports,
            want_source,
            want_fix_all,
            cursor_line,
            cursor_character,
        );
        let ghost m = action_views(more@);
        actions.append(&mut more);
        assert(action_views(actions@) =~= q + m);
        actions
    }
}

} // verus!
