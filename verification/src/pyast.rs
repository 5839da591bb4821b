//! A Python syntax tree, as far as fixture analysis reads it, and what the
//! analysis reads off it: pytest decorators, the names an expression or a
//! statement refers to, and the local variables a function body binds.
//!
//! Positions are byte offsets into the module's text; an expression the
//! analysis does not look into is `Other`, with its subexpressions in source
//! order.
use crate::text::{chars_eq, chars_of, concat, split_chars, split_on, string_of, trim, trim_chars, views};
use crate::lsp::utf8_len;
use crate::text::{find_spec, lines_of};
use crate::types::{FixtureScope, TypeImportSpec};
use vstd::prelude::*;

verus! {

#[allow(inconsistent_fields)]
pub enum PyExpr {
    Name { id: String, start: usize, end: usize },
    Attribute { value: Box<PyExpr>, attr: String },
    Call { func: Box<PyExpr>, args: Vec<PyExpr>, keywords: Vec<PyKeyword> },
    Str { value: String, start: usize, end: usize },
    Bool { value: bool },
    List { elts: Vec<PyExpr> },
    Tuple { elts: Vec<PyExpr> },
    Starred { value: Box<PyExpr> },
    Yield { value: Option<Box<PyExpr>> },
    YieldFrom { value: Box<PyExpr> },
    Await { value: Box<PyExpr> },
    NamedExpr { value: Box<PyExpr> },
    Other { children: Vec<PyExpr> },
}

/// A keyword argument `arg=value` (`arg` is `None` for `**value`).
pub struct PyKeyword {
    pub arg: Option<String>,
    pub value: PyExpr,
}


/// A statement of a function body, as the analysis reads it. `For` and
/// `With` stand for their `async` forms too; `Import` stands for both import
/// forms (`from` holds the module of `from <module> import`, with its leading
/// dots).
#[allow(inconsistent_fields)]
pub enum PyStmt {
    Expr { value: PyExpr, start: usize },
    Assign { targets: Vec<PyExpr>, value: PyExpr, start: usize },
    AnnAssign { target: PyExpr, value: Option<PyExpr>, start: usize },
    AugAssign { target: PyExpr, value: PyExpr },
    Return { value: Option<PyExpr>, start: usize },
    If { test: PyExpr, body: Vec<PyStmt>, orelse: Vec<PyStmt> },
    While { test: PyExpr, body: Vec<PyStmt>, orelse: Vec<PyStmt> },
    For { target: PyExpr, iter: PyExpr, body: Vec<PyStmt>, orelse: Vec<PyStmt> },
    With { items: Vec<PyWithItem>, body: Vec<PyStmt> },
    Assert { test: PyExpr, msg: Option<PyExpr> },
    Raise { exc: Option<PyExpr> },
    Try { body: Vec<PyStmt>, handlers: Vec<PyHandler>, orelse: Vec<PyStmt>, finalbody: Vec<PyStmt> },
    Import { aliases: Vec<PyAlias>, from: Option<String>, start: usize },
    FunctionDef {
        name: String,
        decorators: Vec<PyExpr>,
        params: Vec<PyParam>,
        return_annotation: Option<PyAnnotation>,
        body: Vec<PyStmt>,
        start: usize,
        end: usize,
    },
    ClassDef { name: String, decorators: Vec<PyExpr>, body: Vec<PyStmt>, start: usize },
    Other,
}

/// A parameter of a function: its name and where it starts.
pub struct PyParam {
    pub name: String,
    pub start: usize,
}

/// A return annotation: its byte range and, when it is a subscript
/// (`Generator[T, ...]`), that of its slice.
pub struct PyAnnotation {
    pub start: usize,
    pub end: usize,
    pub slice: Option<PySlice>,
}

/// The slice of a subscript annotation: its byte range and, when it is a
/// tuple, the range of its first item.
pub struct PySlice {
    pub start: usize,
    pub end: usize,
    pub is_tuple: bool,
    pub first: Option<(usize, usize)>,
}

/// `<name> as <asname>` of an import.
pub struct PyAlias {
    pub name: String,
    pub asname: Option<String>,
}

/// The name an import alias binds.
pub open spec fn bound_name(a: PyAlias) -> Seq<char> {
    match a.asname {
        Some(x) => x@,
        None => a.name@,
    }
}

fn bound_name_exec(a: &PyAlias) -> (r: &String)
    ensures
        r@ == bound_name(*a),
{
    match &a.asname {
        Some(x) => x,
        None => &a.name,
    }
}

/// `with <context> as <vars>`.
pub struct PyWithItem {
    pub context: PyExpr,
    pub vars: Option<PyExpr>,
}

/// `except ... as <name>:` and its body; `start` is where the clause starts.
pub struct PyHandler {
    pub name: Option<String>,
    pub start: usize,
    pub body: Vec<PyStmt>,
}

/// A name occurrence, or a string literal read as a fixture name: the text
/// and its byte range.
pub struct PyName {
    pub id: String,
    pub start: usize,
    pub end: usize,
}

pub open spec fn name_views(v: Seq<PyName>) -> Seq<(Seq<char>, usize, usize)> {
    v.map_values(|n: PyName| (n.id@, n.start, n.end))
}

// ---------------------------------------------------------------------------
// Decorators

/// The dotted name an expression spells (`pytest.mark.usefixtures`), if any.
pub open spec fn dotted(e: PyExpr) -> Option<Seq<char>>
    decreases e,
{
    match e {
        PyExpr::Name { id, .. } => Some(id@),
        PyExpr::Attribute { value, attr } => match dotted(*value) {
            Some(b) => Some(b + "."@ + attr@),
            None => None,
        },
        _ => None,
    }
}

/// `pytest.fixture`, `fixture`, and their called forms.
pub open spec fn fixture_decorator(e: PyExpr) -> bool
    decreases e,
{
    match e {
        PyExpr::Call { func, .. } => fixture_decorator(*func),
        _ => dotted(e) == Some("pytest.fixture"@) || dotted(e) == Some("fixture"@),
    }
}

/// The dotted name spells `pytest.mark.<mark>` or `mark.<mark>`.
pub open spec fn is_mark_spec(e: PyExpr, mark: Seq<char>) -> bool {
    dotted(e) == Some("pytest.mark."@ + mark) || dotted(e) == Some("mark."@ + mark)
}

/// The value of the first keyword argument named `name` among `ks[i..]`.
pub open spec fn keyword_from(ks: Seq<PyKeyword>, name: Seq<char>, i: int) -> Option<PyExpr>
    decreases ks.len() - i,
{
    if i < 0 || i >= ks.len() {
        None
    } else if ks[i].arg matches Some(a) && a@ == name {
        Some(ks[i].value)
    } else {
        keyword_from(ks, name, i + 1)
    }
}

/// The keyword argument `name` of a fixture decorator call.
pub open spec fn fixture_keyword(e: PyExpr, name: Seq<char>) -> Option<PyExpr> {
    match e {
        PyExpr::Call { func, keywords, .. } => if fixture_decorator(*func) {
            keyword_from(keywords@, name, 0)
        } else {
            None
        },
        _ => None,
    }
}

pub open spec fn str_value(e: Option<PyExpr>) -> Option<Seq<char>> {
    match e {
        Some(PyExpr::Str { value, .. }) => Some(value@),
        _ => None,
    }
}

fn dotted_exec(e: &PyExpr) -> (r: Option<Vec<char>>)
    ensures
        match r {
            Some(v) => dotted(*e) == Some(v@),
            None => dotted(*e) is None,
        },
    decreases e,
{
    match e {
        PyExpr::Name { id, .. } => Some(chars_of(id.as_str())),
        PyExpr::Attribute { value, attr } => match dotted_exec(value) {
            Some(b) => {
                proof {
                    reveal_strlit(".");
                }
                Some(concat(&concat(&b, &chars_of(".")), &chars_of(attr.as_str())))
            },
            None => None,
        },
        _ => None,
    }
}

fn dotted_is(e: &PyExpr, s: &str) -> (b: bool)
    ensures
        b == (dotted(*e) == Some(s@)),
{
    match dotted_exec(e) {
        Some(v) => chars_eq(&v, &chars_of(s)),
        None => false,
    }
}

/// Whether `e` is a fixture decorator: `@pytest.fixture`, `@fixture`, or
/// either called with arguments.
pub fn is_fixture_decorator(e: &PyExpr) -> (b: bool)
    ensures
        b == fixture_decorator(*e),
    decreases e,
{
    match e {
        PyExpr::Call { func, .. } => is_fixture_decorator(func),
        _ => dotted_is(e, "pytest.fixture") || dotted_is(e, "fixture"),
    }
}

/// Whether the dotted name of `e` is `pytest.mark.<mark>` or `mark.<mark>`.
pub fn is_mark(e: &PyExpr, mark: &str) -> (b: bool)
    ensures
        b == is_mark_spec(*e, mark@),
{
    proof {
        reveal_strlit("pytest.mark.");
        reveal_strlit("mark.");
    }
    match dotted_exec(e) {
        Some(v) => {
            let m = chars_of(mark);
            chars_eq(&v, &concat(&chars_of("pytest.mark."), &m)) || chars_eq(&v, &concat(&chars_of("mark."), &m))
        },
        None => false,
    }
}

/// `@pytest.mark.usefixtures`, called or not.
pub open spec fn usefixtures_decorator(e: PyExpr) -> bool {
    match e {
        PyExpr::Call { func, .. } => is_mark_spec(*func, "usefixtures"@),
        _ => is_mark_spec(e, "usefixtures"@),
    }
}

/// `@pytest.mark.parametrize`, called or not.
pub open spec fn parametrize_decorator(e: PyExpr) -> bool {
    match e {
        PyExpr::Call { func, .. } => is_mark_spec(*func, "parametrize"@),
        _ => is_mark_spec(e, "parametrize"@),
    }
}

/// Whether `e` is a `usefixtures` mark.
pub fn is_usefixtures_decorator(e: &PyExpr) -> (b: bool)
    ensures
        b == usefixtures_decorator(*e),
{
    match e {
        PyExpr::Call { func, .. } => is_mark(func, "usefixtures"),
        _ => is_mark(e, "usefixtures"),
    }
}

/// Whether `e` is a `parametrize` mark.
pub fn is_parametrize_decorator(e: &PyExpr) -> (b: bool)
    ensures
        b == parametrize_decorator(*e),
{
    match e {
        PyExpr::Call { func, .. } => is_mark(func, "parametrize"),
        _ => is_mark(e, "parametrize"),
    }
}

fn keyword_exec<'a>(ks: &'a Vec<PyKeyword>, name: &str) -> (r: Option<&'a PyExpr>)
    ensures
        match r {
            Some(v) => keyword_from(ks@, name@, 0) == Some(*v),
            None => keyword_from(ks@, name@, 0) is None,
        },
{
    let n = chars_of(name);
    let mut i: usize = 0;
    while i < ks.len()
        invariant
            i <= ks@.len(),
            n@ == name@,
            keyword_from(ks@, name@, 0) == keyword_from(ks@, name@, i as int),
        decreases ks@.len() - i,
    {
        let matches_name = match &ks[i].arg {
            Some(a) => chars_eq(&chars_of(a.as_str()), &n),
            None => false,
        };
        if matches_name {
            return Some(&ks[i].value);
        }
        i = i + 1;
    }
    None
}

fn fixture_keyword_exec<'a>(e: &'a PyExpr, name: &str) -> (r: Option<&'a PyExpr>)
    ensures
        match r {
            Some(v) => fixture_keyword(*e, name@) == Some(*v),
            None => fixture_keyword(*e, name@) is None,
        },
{
    match e {
        PyExpr::Call { func, keywords, .. } => if is_fixture_decorator(func) {
            keyword_exec(keywords, name)
        } else {
            None
        },
        _ => None,
    }
}

/// The `name=` of a fixture decorator, when it is a string literal.
pub fn fixture_name(e: &PyExpr) -> (r: Option<String>)
    ensures
        match r {
            Some(s) => str_value(fixture_keyword(*e, "name"@)) == Some(s@),
            None => str_value(fixture_keyword(*e, "name"@)) is None,
        },
{
    proof {
        reveal_strlit("name");
    }
    match fixture_keyword_exec(e, "name") {
        Some(PyExpr::Str { value, .. }) => Some(string_of(&chars_of(value.as_str()))),
        _ => None,
    }
}

/// The `scope=` of a fixture decorator, when it is a string literal naming a
/// scope.
pub fn fixture_scope(e: &PyExpr) -> (r: Option<FixtureScope>)
    ensures
        r == match str_value(fixture_keyword(*e, "scope"@)) {
            Some(s) => FixtureScope::spec_parse(s),
            None => None,
        },
{
    proof {
        reveal_strlit("scope");
    }
    match fixture_keyword_exec(e, "scope") {
        Some(PyExpr::Str { value, .. }) => FixtureScope::parse(value.as_str()),
        _ => None,
    }
}

/// Whether a fixture decorator says `autouse=True`.
pub fn fixture_autouse(e: &PyExpr) -> (b: bool)
    ensures
        b == (fixture_keyword(*e, "autouse"@) == Some(PyExpr::Bool { value: true })),
{
    proof {
        reveal_strlit("autouse");
    }
    match fixture_keyword_exec(e, "autouse") {
        Some(PyExpr::Bool { value }) => *value,
        _ => false,
    }
}

/// The string literals among `es[..n]`, with their ranges.
pub open spec fn str_items(es: Seq<PyExpr>, n: int) -> Seq<(Seq<char>, usize, usize)>
    decreases n,
{
    if n <= 0 || n > es.len() {
        Seq::empty()
    } else {
        str_items(es, n - 1) + match es[n - 1] {
            PyExpr::Str { value, start, end } => seq![(value@, start, end)],
            _ => Seq::empty(),
        }
    }
}

/// The fixture names a `usefixtures` call lists: its string-literal
/// arguments, with their ranges.
pub open spec fn usefixtures_of(e: PyExpr) -> Seq<(Seq<char>, usize, usize)> {
    match e {
        PyExpr::Call { func, args, .. } => if is_mark_spec(*func, "usefixtures"@) {
            str_items(args@, args@.len() as int)
        } else {
            Seq::empty()
        },
        _ => Seq::empty(),
    }
}

/// The `usefixtures` names of a `pytestmark` value: one mark, or a list or
/// tuple of them (nested ones too).
pub open spec fn marks_usefixtures(e: PyExpr) -> Seq<(Seq<char>, usize, usize)>
    decreases e, 0int,
{
    match e {
        PyExpr::List { elts } => marks_list(elts@, elts@.len() as int),
        PyExpr::Tuple { elts } => marks_list(elts@, elts@.len() as int),
        _ => usefixtures_of(e),
    }
}

pub open spec fn marks_list(es: Seq<PyExpr>, n: int) -> Seq<(Seq<char>, usize, usize)>
    decreases es, n,
{
    if n <= 0 || n > es.len() {
        Seq::empty()
    } else {
        marks_list(es, n - 1) + marks_usefixtures(es[n - 1])
    }
}

fn str_items_exec(es: &Vec<PyExpr>, out: &mut Vec<PyName>)
    ensures
        name_views(final(out)@) == name_views(old(out)@) + str_items(es@, es@.len() as int),
{
    let ghost base = name_views(out@);
    let mut i: usize = 0;
    while i < es.len()
        invariant
            i <= es@.len(),
            name_views(out@) == base + str_items(es@, i as int),
        decreases es@.len() - i,
    {
        let ghost before = name_views(out@);
        match &es[i] {
            PyExpr::Str { value, start, end } => {
                out.push(PyName { id: string_of(&chars_of(value.as_str())), start: *start, end: *end });
                assert(name_views(out@) =~= before.push((value@, *start, *end)));
            },
            _ => {
                assert(name_views(out@) =~= before);
            },
        }
        assert(name_views(out@) =~= base + str_items(es@, i + 1));
        i = i + 1;
    }
}

/// The fixture names (string literals, with their ranges) that a
/// `@pytest.mark.usefixtures(...)` call lists; nothing for any other
/// expression.
pub fn usefixtures_names(e: &PyExpr) -> (r: Vec<PyName>)
    ensures
        name_views(r@) == usefixtures_of(*e),
{
    let mut out: Vec<PyName> = Vec::new();
    match e {
        PyExpr::Call { func, args, .. } => if is_mark(func, "usefixtures") {
            str_items_exec(args, &mut out);
            assert(name_views(out@) =~= usefixtures_of(*e));
        } else {
            assert(name_views(out@) =~= usefixtures_of(*e));
        },
        _ => {
            assert(name_views(out@) =~= usefixtures_of(*e));
        },
    }
    out
}

fn marks_exec(e: &PyExpr, out: &mut Vec<PyName>)
    ensures
        name_views(final(out)@) == name_views(old(out)@) + marks_usefixtures(*e),
    decreases e,
{
    let ghost base = name_views(out@);
    match e {
        PyExpr::List { elts } => {
            let mut i: usize = 0;
            while i < elts.len()
                invariant
                    i <= elts@.len(),
                    marks_usefixtures(*e) == marks_list(elts@, elts@.len() as int),
                    name_views(out@) == base + marks_list(elts@, i as int),
                    *e == (PyExpr::List { elts: *elts }),
                decreases elts@.len() - i,
            {
                proof {
                    assert(decreases_to!(*e => e->List_elts));
                    assert(decreases_to!(e->List_elts => e->List_elts@));
                    assert(decreases_to!(e->List_elts@ => e->List_elts@[i as int]));
                }
                marks_exec(&elts[i], out);
                assert(name_views(out@) =~= base + marks_list(elts@, i + 1));
                i = i + 1;
            }
        },
        PyExpr::Tuple { elts } => {
            let mut i: usize = 0;
            while i < elts.len()
                invariant
                    i <= elts@.len(),
                    marks_usefixtures(*e) == marks_list(elts@, elts@.len() as int),
                    name_views(out@) == base + marks_list(elts@, i as int),
                    *e == (PyExpr::Tuple { elts: *elts }),
                decreases elts@.len() - i,
            {
                proof {
                    assert(decreases_to!(*e => e->Tuple_elts));
                    assert(decreases_to!(e->Tuple_elts => e->Tuple_elts@));
                    assert(decreases_to!(e->Tuple_elts@ => e->Tuple_elts@[i as int]));
                }
                marks_exec(&elts[i], out);
                assert(name_views(out@) =~= base + marks_list(elts@, i + 1));
                i = i + 1;
            }
        },
        PyExpr::Call { func, args, .. } => {
            if is_mark(func, "usefixtures") {
                str_items_exec(args, out);
            }
            assert(name_views(out@) =~= base + marks_usefixtures(*e));
        },
        _ => {
            assert(name_views(out@) =~= base + marks_usefixtures(*e));
        },
    }
}

/// The `usefixtures` names in a `pytestmark` value: a single mark, or a list
/// or tuple of marks.
pub fn usefixtures_from_expr(e: &PyExpr) -> (r: Vec<PyName>)
    ensures
        name_views(r@) == marks_usefixtures(*e),
{
    let mut out: Vec<PyName> = Vec::new();
    marks_exec(e, &mut out);
    assert(name_views(out@) =~= marks_usefixtures(*e));
    out
}

/// The non-blank pieces of `ps[..n]`, trimmed, each with the range `start..end`.
pub open spec fn named_pieces(ps: Seq<Seq<char>>, start: usize, end: usize, n: int) -> Seq<(Seq<char>, usize, usize)>
    decreases n,
{
    if n <= 0 || n > ps.len() {
        Seq::empty()
    } else if trim(ps[n - 1]).len() > 0 {
        named_pieces(ps, start, end, n - 1).push((trim(ps[n - 1]), start, end))
    } else {
        named_pieces(ps, start, end, n - 1)
    }
}

/// The fixtures an indirect `parametrize` feeds: with `indirect=True`, the
/// argument names of its first argument (a comma-separated string, or a list
/// or tuple of strings); with `indirect=[...]` or `indirect=(...)`, the
/// strings listed there.
pub open spec fn indirect_of(e: PyExpr) -> Seq<(Seq<char>, usize, usize)> {
    match e {
        PyExpr::Call { func, args, keywords } => if !is_mark_spec(*func, "parametrize"@) {
            Seq::empty()
        } else {
            match keyword_from(keywords@, "indirect"@, 0) {
                Some(PyExpr::Bool { value: true }) => if args@.len() == 0 {
                    Seq::empty()
                } else {
                    match args@[0] {
                        PyExpr::Str { value, start, end } => {
                            let ps = split_on(value@, ',');
                            named_pieces(ps, start, end, ps.len() as int)
                        },
                        PyExpr::List { elts } => str_items(elts@, elts@.len() as int),
                        PyExpr::Tuple { elts } => str_items(elts@, elts@.len() as int),
                        _ => Seq::empty(),
                    }
                },
                Some(PyExpr::List { elts }) => str_items(elts@, elts@.len() as int),
                Some(PyExpr::Tuple { elts }) => str_items(elts@, elts@.len() as int),
                _ => Seq::empty(),
            }
        },
        _ => Seq::empty(),
    }
}

fn named_pieces_exec(value: &String, start: usize, end: usize, out: &mut Vec<PyName>)
    ensures
        name_views(final(out)@) == name_views(old(out)@) + named_pieces(
            split_on(value@, ','),
            start,
            end,
            split_on(value@, ',').len() as int,
        ),
{
    let ghost base = name_views(out@);
    let pieces = split_chars(&chars_of(value.as_str()), ',');
    let ghost ps = split_on(value@, ',');
    let mut i: usize = 0;
    while i < pieces.len()
        invariant
            i <= pieces@.len(),
            views(pieces@) == ps,
            name_views(out@) == base + named_pieces(ps, start, end, i as int),
        decreases pieces@.len() - i,
    {
        let t = trim_chars(&pieces[i]);
        assert(ps[i as int] == pieces@[i as int]@);
        let ghost before = name_views(out@);
        if t.len() > 0 {
            out.push(PyName { id: string_of(&t), start, end });
            assert(name_views(out@) =~= before.push((t@, start, end)));
        }
        assert(name_views(out@) =~= base + named_pieces(ps, start, end, i + 1));
        i = i + 1;
    }
}

/// The fixtures (names, with the ranges of their literals) that an indirect
/// `@pytest.mark.parametrize(...)` feeds; nothing for any other expression.
pub fn parametrize_indirect(e: &PyExpr) -> (r: Vec<PyName>)
    ensures
        name_views(r@) == indirect_of(*e),
{
    proof {
        reveal_strlit("indirect");
    }
    let mut out: Vec<PyName> = Vec::new();
    if let PyExpr::Call { func, args, keywords } = e {
        if is_mark(func, "parametrize") {
            match keyword_exec(keywords, "indirect") {
                Some(PyExpr::Bool { value }) => {
                    if *value && args.len() > 0 {
                        match &args[0] {
                            PyExpr::Str { value, start, end } => named_pieces_exec(value, *start, *end, &mut out),
                            PyExpr::List { elts } => str_items_exec(elts, &mut out),
                            PyExpr::Tuple { elts } => str_items_exec(elts, &mut out),
                            _ => {},
                        }
                    }
                },
                Some(PyExpr::List { elts }) => str_items_exec(elts, &mut out),
                Some(PyExpr::Tuple { elts }) => str_items_exec(elts, &mut out),
                _ => {},
            }
        }
    }
    assert(name_views(out@) =~= indirect_of(*e));
    out
}

// ---------------------------------------------------------------------------
// Names an expression refers to

/// The name occurrences in `e`, in source order: a `Name` is one; the
/// function, arguments and keyword values of a call, the value of an
/// attribute, the items of a list or tuple, the operand of `*`, `yield`,
/// `yield from`, `await` and `:=`, and the subexpressions of any other
/// expression are searched in turn; literals hold none.
pub open spec fn expr_names(e: PyExpr) -> Seq<(Seq<char>, usize, usize)>
    decreases e, 0int,
{
    match e {
        PyExpr::Name { id, start, end } => seq![(id@, start, end)],
        PyExpr::Attribute { value, .. } => expr_names(*value),
        PyExpr::Call { func, args, keywords } => expr_names(*func) + exprs_names(args@, args@.len() as int)
            + keywords_names(keywords@, keywords@.len() as int),
        PyExpr::Str { .. } => Seq::empty(),
        PyExpr::Bool { .. } => Seq::empty(),
        PyExpr::List { elts } => exprs_names(elts@, elts@.len() as int),
        PyExpr::Tuple { elts } => exprs_names(elts@, elts@.len() as int),
        PyExpr::Starred { value } => expr_names(*value),
        PyExpr::Yield { value } => match value {
            Some(v) => expr_names(*v),
            None => Seq::empty(),
        },
        PyExpr::YieldFrom { value } => expr_names(*value),
        PyExpr::Await { value } => expr_names(*value),
        PyExpr::NamedExpr { value } => expr_names(*value),
        PyExpr::Other { children } => exprs_names(children@, children@.len() as int),
    }
}

/// The name occurrences in `es[..n]`, in order.
pub open spec fn exprs_names(es: Seq<PyExpr>, n: int) -> Seq<(Seq<char>, usize, usize)>
    decreases es, n,
{
    if n <= 0 || n > es.len() {
        Seq::empty()
    } else {
        exprs_names(es, n - 1) + expr_names(es[n - 1])
    }
}

/// The name occurrences in the values of `ks[..n]`, in order.
pub open spec fn keywords_names(ks: Seq<PyKeyword>, n: int) -> Seq<(Seq<char>, usize, usize)>
    decreases ks, n,
{
    if n <= 0 || n > ks.len() {
        Seq::empty()
    } else {
        proof {
            assert(decreases_to!(ks => ks[n - 1]));
            assert(decreases_to!(ks[n - 1] => ks[n - 1].value));
        }
        keywords_names(ks, n - 1) + expr_names(ks[n - 1].value)
    }
}

fn push_name(out: &mut Vec<PyName>, id: &String, start: usize, end: usize)
    ensures
        name_views(final(out)@) == name_views(old(out)@).push((id@, start, end)),
{
    out.push(PyName { id: string_of(&chars_of(id.as_str())), start, end });
    assert(name_views(out@) =~= name_views(old(out)@).push((id@, start, end)));
}

/// Appends to `out` the name occurrences of `e`, in source order.
pub fn names_in_expr(e: &PyExpr, out: &mut Vec<PyName>)
    ensures
        name_views(final(out)@) == name_views(old(out)@) + expr_names(*e),
    decreases e,
{
    let ghost base = name_views(out@);
    match e {
        PyExpr::Name { id, start, end } => {
            push_name(out, id, *start, *end);
            assert(name_views(out@) =~= base + expr_names(*e));
        },
        PyExpr::Attribute { value, .. } => {
            names_in_expr(value, out);
        },
        PyExpr::Call { func, args, keywords } => {
            names_in_expr(func, out);
            let ghost b1 = name_views(out@);
            let mut i: usize = 0;
            while i < args.len()
                invariant
                    i <= args@.len(),
                    *e == (PyExpr::Call { func: *func, args: *args, keywords: *keywords }),
                    name_views(out@) == b1 + exprs_names(args@, i as int),
                decreases args@.len() - i,
            {
                proof {
                    assert(decreases_to!(*e => e->args));
                    assert(decreases_to!(e->args => e->args@));
                    assert(decreases_to!(e->args@ => e->args@[i as int]));
                }
                names_in_expr(&args[i], out);
                assert(name_views(out@) =~= b1 + exprs_names(args@, i + 1));
                i = i + 1;
            }
            let ghost b2 = name_views(out@);
            let mut k: usize = 0;
            while k < keywords.len()
                invariant
                    k <= keywords@.len(),
                    *e == (PyExpr::Call { func: *func, args: *args, keywords: *keywords }),
                    name_views(out@) == b2 + keywords_names(keywords@, k as int),
                decreases keywords@.len() - k,
            {
                proof {
                    assert(decreases_to!(*e => e->keywords));
                    assert(decreases_to!(e->keywords => e->keywords@));
                    assert(decreases_to!(e->keywords@ => e->keywords@[k as int]));
                    assert(decreases_to!(e->keywords@[k as int] => e->keywords@[k as int].value));
                }
                names_in_expr(&keywords[k].value, out);
                assert(name_views(out@) =~= b2 + keywords_names(keywords@, k + 1));
                k = k + 1;
            }
            assert(name_views(out@) =~= base + expr_names(*e));
        },
        PyExpr::List { elts } => {
            names_in_exprs_of(e, elts, out);
        },
        PyExpr::Tuple { elts } => {
            names_in_exprs_of(e, elts, out);
        },
        PyExpr::Other { children } => {
            names_in_exprs_of(e, children, out);
        },
        PyExpr::Starred { value } => {
            names_in_expr(value, out);
        },
        PyExpr::Yield { value } => {
            match value {
                Some(v) => {
                    names_in_expr(v, out);
                },
                None => {
                    assert(name_views(out@) =~= base + expr_names(*e));
                },
            }
        },
        PyExpr::YieldFrom { value } => {
            names_in_expr(value, out);
        },
        PyExpr::Await { value } => {
            names_in_expr(value, out);
        },
        PyExpr::NamedExpr { value } => {
            names_in_expr(value, out);
        },
        _ => {
            assert(name_views(out@) =~= base + expr_names(*e));
        },
    }
}

/// Appends the name occurrences of the items `es` of the list, tuple or
/// other expression `e`.
fn names_in_exprs_of(e: &PyExpr, es: &Vec<PyExpr>, out: &mut Vec<PyName>)
    requires
        *e == (PyExpr::List { elts: *es }) || *e == (PyExpr::Tuple { elts: *es }) || *e == (PyExpr::Other {
            children: *es,
        }),
    ensures
        name_views(final(out)@) == name_views(old(out)@) + expr_names(*e),
    decreases e, 1int,
{
    let ghost base = name_views(out@);
    let mut i: usize = 0;
    while i < es.len()
        invariant
            i <= es@.len(),
            *e == (PyExpr::List { elts: *es }) || *e == (PyExpr::Tuple { elts: *es }) || *e == (PyExpr::Other {
                children: *es,
            }),
            name_views(out@) == base + exprs_names(es@, i as int),
        decreases es@.len() - i,
    {
        proof {
            if *e == (PyExpr::List { elts: *es }) {
                assert(decreases_to!(*e => e->List_elts));
                assert(decreases_to!(e->List_elts => e->List_elts@));
                assert(decreases_to!(e->List_elts@ => e->List_elts@[i as int]));
            } else if *e == (PyExpr::Tuple { elts: *es }) {
                assert(decreases_to!(*e => e->Tuple_elts));
                assert(decreases_to!(e->Tuple_elts => e->Tuple_elts@));
                assert(decreases_to!(e->Tuple_elts@ => e->Tuple_elts@[i as int]));
            } else {
                assert(decreases_to!(*e => e->children));
                assert(decreases_to!(e->children => e->children@));
                assert(decreases_to!(e->children@ => e->children@[i as int]));
            }
        }
        names_in_expr(&es[i], out);
        assert(name_views(out@) =~= base + exprs_names(es@, i + 1));
        i = i + 1;
    }
}

// ---------------------------------------------------------------------------
// Names a statement refers to

pub open spec fn opt_names(o: Option<PyExpr>) -> Seq<(Seq<char>, usize, usize)> {
    match o {
        Some(v) => expr_names(v),
        None => Seq::empty(),
    }
}

/// The name occurrences of a statement that the undeclared-fixture search
/// reads, in order: the expressions of the statement, then its nested
/// bodies (a nested `def` or `class` is not searched).
pub open spec fn stmt_names(s: PyStmt) -> Seq<(Seq<char>, usize, usize)>
    decreases s, 0int,
{
    match s {
        PyStmt::Expr { value, .. } => expr_names(value),
        PyStmt::Assign { value, .. } => expr_names(value),
        PyStmt::AnnAssign { value, .. } => opt_names(value),
        PyStmt::AugAssign { value, .. } => expr_names(value),
        PyStmt::Return { value, .. } => opt_names(value),
        PyStmt::If { test, body, orelse } => expr_names(test) + body_names(body@, body@.len() as int) + body_names(
            orelse@,
            orelse@.len() as int,
        ),
        PyStmt::While { test, body, orelse } => expr_names(test) + body_names(body@, body@.len() as int)
            + body_names(orelse@, orelse@.len() as int),
        PyStmt::For { iter, body, orelse, .. } => expr_names(iter) + body_names(body@, body@.len() as int)
            + body_names(orelse@, orelse@.len() as int),
        PyStmt::With { items, body } => items_names(items@, items@.len() as int) + body_names(
            body@,
            body@.len() as int,
        ),
        PyStmt::Assert { test, msg } => expr_names(test) + opt_names(msg),
        PyStmt::Raise { exc } => opt_names(exc),
        PyStmt::Try { body, handlers, orelse, finalbody } => body_names(body@, body@.len() as int)
            + handlers_names(handlers@, handlers@.len() as int) + body_names(orelse@, orelse@.len() as int)
            + body_names(finalbody@, finalbody@.len() as int),
        _ => Seq::empty(),
    }
}

/// The name occurrences of the statements `ss[..n]`, in order.
pub open spec fn body_names(ss: Seq<PyStmt>, n: int) -> Seq<(Seq<char>, usize, usize)>
    decreases ss, n,
{
    if n <= 0 || n > ss.len() {
        Seq::empty()
    } else {
        body_names(ss, n - 1) + stmt_names(ss[n - 1])
    }
}

/// The name occurrences of the bodies of the handlers `hs[..n]`, in order.
pub open spec fn handlers_names(hs: Seq<PyHandler>, n: int) -> Seq<(Seq<char>, usize, usize)>
    decreases hs, n,
{
    if n <= 0 || n > hs.len() {
        Seq::empty()
    } else {
        proof {
            assert(decreases_to!(hs => hs[n - 1]));
            assert(decreases_to!(hs[n - 1] => hs[n - 1].body));
            assert(decreases_to!(hs[n - 1].body => hs[n - 1].body@));
        }
        handlers_names(hs, n - 1) + body_names(hs[n - 1].body@, hs[n - 1].body@.len() as int)
    }
}

/// The name occurrences of the context expressions of `its[..n]`.
pub open spec fn items_names(its: Seq<PyWithItem>, n: int) -> Seq<(Seq<char>, usize, usize)>
    decreases n,
{
    if n <= 0 || n > its.len() {
        Seq::empty()
    } else {
        items_names(its, n - 1) + expr_names(its[n - 1].context)
    }
}

fn names_in_opt(o: &Option<PyExpr>, out: &mut Vec<PyName>)
    ensures
        name_views(final(out)@) == name_views(old(out)@) + opt_names(*o),
{
    match o {
        Some(v) => names_in_expr(v, out),
        None => {
            assert(name_views(out@) =~= name_views(old(out)@) + opt_names(*o));
        },
    }
}

fn names_in_items(its: &Vec<PyWithItem>, out: &mut Vec<PyName>)
    ensures
        name_views(final(out)@) == name_views(old(out)@) + items_names(its@, its@.len() as int),
{
    let ghost base = name_views(out@);
    let mut i: usize = 0;
    while i < its.len()
        invariant
            i <= its@.len(),
            name_views(out@) == base + items_names(its@, i as int),
        decreases its@.len() - i,
    {
        names_in_expr(&its[i].context, out);
        assert(name_views(out@) =~= base + items_names(its@, i + 1));
        i = i + 1;
    }
}

/// Appends to `out` the name occurrences of `s` that the undeclared-fixture
/// search reads, in order.
pub fn names_in_stmt(s: &PyStmt, out: &mut Vec<PyName>)
    ensures
        name_views(final(out)@) == name_views(old(out)@) + stmt_names(*s),
    decreases s, 2int,
{
    let ghost base = name_views(out@);
    match s {
        PyStmt::Expr { value, .. } => names_in_expr(value, out),
        PyStmt::Assign { value, .. } => names_in_expr(value, out),
        PyStmt::AnnAssign { value, .. } => names_in_opt(value, out),
        PyStmt::AugAssign { value, .. } => names_in_expr(value, out),
        PyStmt::Return { value, .. } => names_in_opt(value, out),
        PyStmt::If { test, body, orelse } => {
            names_in_expr(test, out);
            names_in_body_of(s, body, out);
            names_in_body_of(s, orelse, out);
            assert(name_views(out@) =~= base + stmt_names(*s));
        },
        PyStmt::While { test, body, orelse } => {
            names_in_expr(test, out);
            names_in_body_of(s, body, out);
            names_in_body_of(s, orelse, out);
            assert(name_views(out@) =~= base + stmt_names(*s));
        },
        PyStmt::For { iter, body, orelse, .. } => {
            names_in_expr(iter, out);
            names_in_body_of(s, body, out);
            names_in_body_of(s, orelse, out);
            assert(name_views(out@) =~= base + stmt_names(*s));
        },
        PyStmt::With { items, body } => {
            names_in_items(items, out);
            names_in_body_of(s, body, out);
            assert(name_views(out@) =~= base + stmt_names(*s));
        },
        PyStmt::Assert { test, msg } => {
            names_in_expr(test, out);
            names_in_opt(msg, out);
            assert(name_views(out@) =~= base + stmt_names(*s));
        },
        PyStmt::Raise { exc } => names_in_opt(exc, out),
        PyStmt::Try { body, handlers, orelse, finalbody } => {
            names_in_body_of(s, body, out);
            names_in_handlers_of(s, handlers, out);
            names_in_body_of(s, orelse, out);
            names_in_body_of(s, finalbody, out);
            assert(name_views(out@) =~= base + stmt_names(*s));
        },
        _ => {
            assert(name_views(out@) =~= base + stmt_names(*s));
        },
    }
}

fn names_in_handlers_of(s: &PyStmt, hs: &Vec<PyHandler>, out: &mut Vec<PyName>)
    requires
        decreases_to!(*s => hs@),
    ensures
        name_views(final(out)@) == name_views(old(out)@) + handlers_names(hs@, hs@.len() as int),
    decreases s, 1int,
{
    let ghost base = name_views(out@);
    let mut k: usize = 0;
    while k < hs.len()
        invariant
            k <= hs@.len(),
            decreases_to!(*s => hs@),
            name_views(out@) == base + handlers_names(hs@, k as int),
        decreases hs@.len() - k,
    {
        proof {
            assert(decreases_to!(hs@ => hs@[k as int]));
            assert(decreases_to!(hs@[k as int] => hs@[k as int].body));
            assert(decreases_to!(hs@[k as int].body => hs@[k as int].body@));
        }
        names_in_body_of(s, &hs[k].body, out);
        assert(name_views(out@) =~= base + handlers_names(hs@, k + 1));
        k = k + 1;
    }
}

fn names_in_body_of(s: &PyStmt, ss: &Vec<PyStmt>, out: &mut Vec<PyName>)
    requires
        decreases_to!(*s => ss@),
    ensures
        name_views(final(out)@) == name_views(old(out)@) + body_names(ss@, ss@.len() as int),
    decreases s, 0int,
{
    let ghost base = name_views(out@);
    let mut i: usize = 0;
    while i < ss.len()
        invariant
            i <= ss@.len(),
            decreases_to!(*s => ss@),
            name_views(out@) == base + body_names(ss@, i as int),
        decreases ss@.len() - i,
    {
        proof {
            assert(decreases_to!(ss@ => ss@[i as int]));
        }
        names_in_stmt(&ss[i], out);
        assert(name_views(out@) =~= base + body_names(ss@, i + 1));
        i = i + 1;
    }
}

/// The name occurrences of a function body, in order, as the
/// undeclared-fixture search reads them.
pub fn names_in_body(body: &Vec<PyStmt>) -> (r: Vec<PyName>)
    ensures
        name_views(r@) == body_names(body@, body@.len() as int),
{
    let mut out: Vec<PyName> = Vec::new();
    let mut i: usize = 0;
    while i < body.len()
        invariant
            i <= body@.len(),
            name_views(out@) == body_names(body@, i as int),
        decreases body@.len() - i,
    {
        names_in_stmt(&body[i], &mut out);
        assert(name_views(out@) =~= body_names(body@, i + 1));
        i = i + 1;
    }
    out
}

// ---------------------------------------------------------------------------
// Local variables

/// A name a function body binds, and the byte offset where the binding is.
pub struct PyBinding {
    pub name: String,
    pub at: usize,
}

pub open spec fn binding_views(v: Seq<PyBinding>) -> Seq<(Seq<char>, usize)> {
    v.map_values(|b: PyBinding| (b.name@, b.at))
}

/// The names an assignment target binds: a name, the items of a tuple or
/// list target, the operand of a starred target.
pub open spec fn target_binds(e: PyExpr) -> Seq<(Seq<char>, usize)>
    decreases e, 0int,
{
    match e {
        PyExpr::Name { id, start, .. } => seq![(id@, start)],
        PyExpr::Tuple { elts } => targets_binds(elts@, elts@.len() as int),
        PyExpr::List { elts } => targets_binds(elts@, elts@.len() as int),
        PyExpr::Starred { value } => target_binds(*value),
        _ => Seq::empty(),
    }
}

pub open spec fn targets_binds(es: Seq<PyExpr>, n: int) -> Seq<(Seq<char>, usize)>
    decreases es, n,
{
    if n <= 0 || n > es.len() {
        Seq::empty()
    } else {
        targets_binds(es, n - 1) + target_binds(es[n - 1])
    }
}

pub open spec fn items_binds(its: Seq<PyWithItem>, n: int) -> Seq<(Seq<char>, usize)>
    decreases n,
{
    if n <= 0 || n > its.len() {
        Seq::empty()
    } else {
        items_binds(its, n - 1) + match its[n - 1].vars {
            Some(v) => target_binds(v),
            None => Seq::empty(),
        }
    }
}

pub open spec fn import_binds(aliases: Seq<PyAlias>, at: usize, n: int) -> Seq<(Seq<char>, usize)>
    decreases n,
{
    if n <= 0 || n > aliases.len() {
        Seq::empty()
    } else {
        import_binds(aliases, at, n - 1).push((bound_name(aliases[n - 1]), at))
    }
}

/// The local variables a statement binds, in order: assignment targets, loop
/// targets, `with ... as` targets, `except ... as` names, imported names and
/// nested `def` and `class` names, and those of its nested bodies.
pub open spec fn stmt_locals(s: PyStmt) -> Seq<(Seq<char>, usize)>
    decreases s, 0int,
{
    match s {
        PyStmt::Assign { targets, .. } => targets_binds(targets@, targets@.len() as int),
        PyStmt::AnnAssign { target, .. } => target_binds(target),
        PyStmt::AugAssign { target, .. } => target_binds(target),
        PyStmt::For { target, body, orelse, .. } => target_binds(target) + body_locals(body@, body@.len() as int)
            + body_locals(orelse@, orelse@.len() as int),
        PyStmt::While { body, orelse, .. } => body_locals(body@, body@.len() as int) + body_locals(
            orelse@,
            orelse@.len() as int,
        ),
        PyStmt::If { body, orelse, .. } => body_locals(body@, body@.len() as int) + body_locals(
            orelse@,
            orelse@.len() as int,
        ),
        PyStmt::With { items, body } => items_binds(items@, items@.len() as int) + body_locals(
            body@,
            body@.len() as int,
        ),
        PyStmt::Try { body, handlers, orelse, finalbody } => body_locals(body@, body@.len() as int)
            + handlers_locals(handlers@, handlers@.len() as int) + body_locals(orelse@, orelse@.len() as int)
            + body_locals(finalbody@, finalbody@.len() as int),
        PyStmt::Import { aliases, start, .. } => import_binds(aliases@, start, aliases@.len() as int),
        PyStmt::FunctionDef { name, start, .. } => seq![(name@, start)],
        PyStmt::ClassDef { name, start, .. } => seq![(name@, start)],
        _ => Seq::empty(),
    }
}

pub open spec fn body_locals(ss: Seq<PyStmt>, n: int) -> Seq<(Seq<char>, usize)>
    decreases ss, n,
{
    if n <= 0 || n > ss.len() {
        Seq::empty()
    } else {
        body_locals(ss, n - 1) + stmt_locals(ss[n - 1])
    }
}

pub open spec fn handlers_locals(hs: Seq<PyHandler>, n: int) -> Seq<(Seq<char>, usize)>
    decreases hs, n,
{
    if n <= 0 || n > hs.len() {
        Seq::empty()
    } else {
        proof {
            assert(decreases_to!(hs => hs[n - 1]));
            assert(decreases_to!(hs[n - 1] => hs[n - 1].body));
            assert(decreases_to!(hs[n - 1].body => hs[n - 1].body@));
        }
        handlers_locals(hs, n - 1) + match hs[n - 1].name {
            Some(nm) => seq![(nm@, hs[n - 1].start)],
            None => Seq::empty(),
        } + body_locals(hs[n - 1].body@, hs[n - 1].body@.len() as int)
    }
}

fn push_binding(out: &mut Vec<PyBinding>, name: &String, at: usize)
    ensures
        binding_views(final(out)@) == binding_views(old(out)@).push((name@, at)),
{
    out.push(PyBinding { name: string_of(&chars_of(name.as_str())), at });
    assert(binding_views(out@) =~= binding_views(old(out)@).push((name@, at)));
}

fn bind_target(e: &PyExpr, out: &mut Vec<PyBinding>)
    ensures
        binding_views(final(out)@) == binding_views(old(out)@) + target_binds(*e),
    decreases e, 1int,
{
    let ghost base = binding_views(out@);
    match e {
        PyExpr::Name { id, start, .. } => {
            push_binding(out, id, *start);
            assert(binding_views(out@) =~= base + target_binds(*e));
        },
        PyExpr::Tuple { elts } => {
            bind_targets_of(e, elts, out);
        },
        PyExpr::List { elts } => {
            bind_targets_of(e, elts, out);
        },
        PyExpr::Starred { value } => {
            bind_target(value, out);
        },
        _ => {
            assert(binding_views(out@) =~= base + target_binds(*e));
        },
    }
}

fn bind_targets_of(e: &PyExpr, es: &Vec<PyExpr>, out: &mut Vec<PyBinding>)
    requires
        decreases_to!(*e => es@),
    ensures
        binding_views(final(out)@) == binding_views(old(out)@) + targets_binds(es@, es@.len() as int),
    decreases e, 0int,
{
    let ghost base = binding_views(out@);
    let mut i: usize = 0;
    while i < es.len()
        invariant
            i <= es@.len(),
            decreases_to!(*e => es@),
            binding_views(out@) == base + targets_binds(es@, i as int),
        decreases es@.len() - i,
    {
        proof {
            assert(decreases_to!(es@ => es@[i as int]));
        }
        bind_target(&es[i], out);
        assert(binding_views(out@) =~= base + targets_binds(es@, i + 1));
        i = i + 1;
    }
}

fn bind_items(its: &Vec<PyWithItem>, out: &mut Vec<PyBinding>)
    ensures
        binding_views(final(out)@) == binding_views(old(out)@) + items_binds(its@, its@.len() as int),
{
    let ghost base = binding_views(out@);
    let mut i: usize = 0;
    while i < its.len()
        invariant
            i <= its@.len(),
            binding_views(out@) == base + items_binds(its@, i as int),
        decreases its@.len() - i,
    {
        let ghost before = binding_views(out@);
        match &its[i].vars {
            Some(v) => bind_target(v, out),
            None => {},
        }
        assert(binding_views(out@) =~= base + items_binds(its@, i + 1));
        i = i + 1;
    }
}

fn bind_all_targets(ts: &Vec<PyExpr>, out: &mut Vec<PyBinding>)
    ensures
        binding_views(final(out)@) == binding_views(old(out)@) + targets_binds(ts@, ts@.len() as int),
{
    let ghost base = binding_views(out@);
    let mut i: usize = 0;
    while i < ts.len()
        invariant
            i <= ts@.len(),
            binding_views(out@) == base + targets_binds(ts@, i as int),
        decreases ts@.len() - i,
    {
        bind_target(&ts[i], out);
        assert(binding_views(out@) =~= base + targets_binds(ts@, i + 1));
        i = i + 1;
    }
}

fn locals_of_stmt(s: &PyStmt, out: &mut Vec<PyBinding>)
    ensures
        binding_views(final(out)@) == binding_views(old(out)@) + stmt_locals(*s),
    decreases s, 2int,
{
    let ghost base = binding_views(out@);
    match s {
        PyStmt::Assign { targets, .. } => bind_all_targets(targets, out),
        PyStmt::AnnAssign { target, .. } => bind_target(target, out),
        PyStmt::AugAssign { target, .. } => bind_target(target, out),
        PyStmt::For { target, body, orelse, .. } => {
            bind_target(target, out);
            locals_of_body(s, body, out);
            locals_of_body(s, orelse, out);
            assert(binding_views(out@) =~= base + stmt_locals(*s));
        },
        PyStmt::While { body, orelse, .. } => {
            locals_of_body(s, body, out);
            locals_of_body(s, orelse, out);
            assert(binding_views(out@) =~= base + stmt_locals(*s));
        },
        PyStmt::If { body, orelse, .. } => {
            locals_of_body(s, body, out);
            locals_of_body(s, orelse, out);
            assert(binding_views(out@) =~= base + stmt_locals(*s));
        },
        PyStmt::With { items, body } => {
            bind_items(items, out);
            locals_of_body(s, body, out);
            assert(binding_views(out@) =~= base + stmt_locals(*s));
        },
        PyStmt::Try { body, handlers, orelse, finalbody } => {
            locals_of_body(s, body, out);
            locals_of_handlers(s, handlers, out);
            locals_of_body(s, orelse, out);
            locals_of_body(s, finalbody, out);
            assert(binding_views(out@) =~= base + stmt_locals(*s));
        },
        PyStmt::Import { aliases, start, .. } => {
            let mut i: usize = 0;
            while i < aliases.len()
                invariant
                    i <= aliases@.len(),
                    binding_views(out@) == base + import_binds(aliases@, *start, i as int),
                decreases aliases@.len() - i,
            {
                push_binding(out, bound_name_exec(&aliases[i]), *start);
                assert(binding_views(out@) =~= base + import_binds(aliases@, *start, i + 1));
                i = i + 1;
            }
        },
        PyStmt::FunctionDef { name, start, .. } => {
            push_binding(out, name, *start);
            assert(binding_views(out@) =~= base + stmt_locals(*s));
        },
        PyStmt::ClassDef { name, start, .. } => {
            push_binding(out, name, *start);
            assert(binding_views(out@) =~= base + stmt_locals(*s));
        },
        _ => {
            assert(binding_views(out@) =~= base + stmt_locals(*s));
        },
    }
}

fn locals_of_handlers(s: &PyStmt, hs: &Vec<PyHandler>, out: &mut Vec<PyBinding>)
    requires
        decreases_to!(*s => hs@),
    ensures
        binding_views(final(out)@) == binding_views(old(out)@) + handlers_locals(hs@, hs@.len() as int),
    decreases s, 1int,
{
    let ghost base = binding_views(out@);
    let mut k: usize = 0;
    while k < hs.len()
        invariant
            k <= hs@.len(),
            decreases_to!(*s => hs@),
            binding_views(out@) == base + handlers_locals(hs@, k as int),
        decreases hs@.len() - k,
    {
        proof {
            assert(decreases_to!(hs@ => hs@[k as int]));
            assert(decreases_to!(hs@[k as int] => hs@[k as int].body));
            assert(decreases_to!(hs@[k as int].body => hs@[k as int].body@));
        }
        let ghost b0 = binding_views(out@);
        match &hs[k].name {
            Some(n) => push_binding(out, n, hs[k].start),
            None => {},
        }
        locals_of_body(s, &hs[k].body, out);
        assert(binding_views(out@) =~= base + handlers_locals(hs@, k + 1));
        k = k + 1;
    }
}

fn locals_of_body(s: &PyStmt, ss: &Vec<PyStmt>, out: &mut Vec<PyBinding>)
    requires
        decreases_to!(*s => ss@),
    ensures
        binding_views(final(out)@) == binding_views(old(out)@) + body_locals(ss@, ss@.len() as int),
    decreases s, 0int,
{
    let ghost base = binding_views(out@);
    let mut i: usize = 0;
    while i < ss.len()
        invariant
            i <= ss@.len(),
            decreases_to!(*s => ss@),
            binding_views(out@) == base + body_locals(ss@, i as int),
        decreases ss@.len() - i,
    {
        proof {
            assert(decreases_to!(ss@ => ss@[i as int]));
        }
        locals_of_stmt(&ss[i], out);
        assert(binding_views(out@) =~= base + body_locals(ss@, i + 1));
        i = i + 1;
    }
}

/// The local variables a function body binds, with the byte offsets of
/// their bindings, in order.
pub fn collect_local_variables(body: &Vec<PyStmt>) -> (r: Vec<PyBinding>)
    ensures
        binding_views(r@) == body_locals(body@, body@.len() as int),
{
    let mut out: Vec<PyBinding> = Vec::new();
    let mut i: usize = 0;
    while i < body.len()
        invariant
            i <= body@.len(),
            binding_views(out@) == body_locals(body@, i as int),
        decreases body@.len() - i,
    {
        locals_of_stmt(&body[i], &mut out);
        assert(binding_views(out@) =~= body_locals(body@, i + 1));
        i = i + 1;
    }
    out
}

// ---------------------------------------------------------------------------
// Yield and docstring

/// Whether an expression statement's value yields: a `yield` or
/// `yield from`, or one awaited or bound with `:=`.
pub open spec fn expr_yields(e: PyExpr) -> bool
    decreases e,
{
    match e {
        PyExpr::Yield { .. } => true,
        PyExpr::YieldFrom { .. } => true,
        PyExpr::Await { value } => expr_yields(*value),
        PyExpr::NamedExpr { value } => expr_yields(*value),
        _ => false,
    }
}

pub open spec fn opt_yields(o: Option<PyExpr>) -> bool {
    match o {
        Some(v) => expr_yields(v),
        None => false,
    }
}

/// Where the first yielding statement of `s` starts: `s` itself when its
/// value yields, else the first one in its bodies, in order.
pub open spec fn stmt_yield(s: PyStmt) -> Option<usize>
    decreases s, 0int,
{
    match s {
        PyStmt::Expr { value, start } => if expr_yields(value) {
            Some(start)
        } else {
            None
        },
        PyStmt::Assign { value, start, .. } => if expr_yields(value) {
            Some(start)
        } else {
            None
        },
        PyStmt::AnnAssign { value, start, .. } => if opt_yields(value) {
            Some(start)
        } else {
            None
        },
        PyStmt::Return { value, start } => if opt_yields(value) {
            Some(start)
        } else {
            None
        },
        PyStmt::If { body, orelse, .. } => first_some(body_yield(body@, 0), body_yield(orelse@, 0)),
        PyStmt::While { body, orelse, .. } => first_some(body_yield(body@, 0), body_yield(orelse@, 0)),
        PyStmt::For { body, orelse, .. } => first_some(body_yield(body@, 0), body_yield(orelse@, 0)),
        PyStmt::With { body, .. } => body_yield(body@, 0),
        PyStmt::Try { body, handlers, orelse, finalbody } => first_some(
            first_some(body_yield(body@, 0), handlers_yield(handlers@, 0)),
            first_some(body_yield(orelse@, 0), body_yield(finalbody@, 0)),
        ),
        _ => None,
    }
}

pub open spec fn first_some(a: Option<usize>, b: Option<usize>) -> Option<usize> {
    if a is Some {
        a
    } else {
        b
    }
}

/// The first yielding statement among `ss[i..]`.
pub open spec fn body_yield(ss: Seq<PyStmt>, i: int) -> Option<usize>
    decreases ss, ss.len() - i,
{
    if i < 0 || i >= ss.len() {
        None
    } else {
        first_some(stmt_yield(ss[i]), body_yield(ss, i + 1))
    }
}

/// The first yielding statement in the bodies of `hs[i..]`.
pub open spec fn handlers_yield(hs: Seq<PyHandler>, i: int) -> Option<usize>
    decreases hs, hs.len() - i,
{
    if i < 0 || i >= hs.len() {
        None
    } else {
        proof {
            assert(decreases_to!(hs => hs[i]));
            assert(decreases_to!(hs[i] => hs[i].body));
            assert(decreases_to!(hs[i].body => hs[i].body@));
        }
        first_some(body_yield(hs[i].body@, 0), handlers_yield(hs, i + 1))
    }
}

fn expr_yields_exec(e: &PyExpr) -> (b: bool)
    ensures
        b == expr_yields(*e),
    decreases e,
{
    match e {
        PyExpr::Yield { .. } => true,
        PyExpr::YieldFrom { .. } => true,
        PyExpr::Await { value } => expr_yields_exec(value),
        PyExpr::NamedExpr { value } => expr_yields_exec(value),
        _ => false,
    }
}

fn opt_yields_exec(o: &Option<PyExpr>) -> (b: bool)
    ensures
        b == opt_yields(*o),
{
    match o {
        Some(v) => expr_yields_exec(v),
        None => false,
    }
}

fn yield_in_stmt(s: &PyStmt) -> (r: Option<usize>)
    ensures
        r == stmt_yield(*s),
    decreases s, 2int,
{
    match s {
        PyStmt::Expr { value, start } => if expr_yields_exec(value) {
            Some(*start)
        } else {
            None
        },
        PyStmt::Assign { value, start, .. } => if expr_yields_exec(value) {
            Some(*start)
        } else {
            None
        },
        PyStmt::AnnAssign { value, start, .. } => if opt_yields_exec(value) {
            Some(*start)
        } else {
            None
        },
        PyStmt::Return { value, start } => if opt_yields_exec(value) {
            Some(*start)
        } else {
            None
        },
        PyStmt::If { body, orelse, .. } => match yield_in_body_of(s, body) {
            Some(x) => Some(x),
            None => yield_in_body_of(s, orelse),
        },
        PyStmt::While { body, orelse, .. } => match yield_in_body_of(s, body) {
            Some(x) => Some(x),
            None => yield_in_body_of(s, orelse),
        },
        PyStmt::For { body, orelse, .. } => match yield_in_body_of(s, body) {
            Some(x) => Some(x),
            None => yield_in_body_of(s, orelse),
        },
        PyStmt::With { body, .. } => yield_in_body_of(s, body),
        PyStmt::Try { body, handlers, orelse, finalbody } => {
            let a = yield_in_body_of(s, body);
            if a.is_some() {
                return a;
            }
            let b = yield_in_handlers_of(s, handlers);
            if b.is_some() {
                return b;
            }
            let c = yield_in_body_of(s, orelse);
            if c.is_some() {
                return c;
            }
            yield_in_body_of(s, finalbody)
        },
        _ => None,
    }
}

fn yield_in_handlers_of(s: &PyStmt, hs: &Vec<PyHandler>) -> (r: Option<usize>)
    requires
        decreases_to!(*s => hs@),
    ensures
        r == handlers_yield(hs@, 0),
    decreases s, 1int,
{
    let mut k: usize = 0;
    while k < hs.len()
        invariant
            k <= hs@.len(),
            decreases_to!(*s => hs@),
            handlers_yield(hs@, 0) == handlers_yield(hs@, k as int),
        decreases hs@.len() - k,
    {
        proof {
            assert(decreases_to!(hs@ => hs@[k as int]));
            assert(decreases_to!(hs@[k as int] => hs@[k as int].body));
            assert(decreases_to!(hs@[k as int].body => hs@[k as int].body@));
        }
        let r = yield_in_body_of(s, &hs[k].body);
        if r.is_some() {
            return r;
        }
        k = k + 1;
    }
    None
}

fn yield_in_body_of(s: &PyStmt, ss: &Vec<PyStmt>) -> (r: Option<usize>)
    requires
        decreases_to!(*s => ss@),
    ensures
        r == body_yield(ss@, 0),
    decreases s, 0int,
{
    let mut i: usize = 0;
    while i < ss.len()
        invariant
            i <= ss@.len(),
            decreases_to!(*s => ss@),
            body_yield(ss@, 0) == body_yield(ss@, i as int),
        decreases ss@.len() - i,
    {
        proof {
            assert(decreases_to!(ss@ => ss@[i as int]));
        }
        let r = yield_in_stmt(&ss[i]);
        if r.is_some() {
            return r;
        }
        i = i + 1;
    }
    None
}

/// The byte offset where the first statement of a function body that
/// yields starts (searching nested bodies in order), if any.
pub fn find_yield(body: &Vec<PyStmt>) -> (r: Option<usize>)
    ensures
        r == body_yield(body@, 0),
{
    let mut i: usize = 0;
    while i < body.len()
        invariant
            i <= body@.len(),
            body_yield(body@, 0) == body_yield(body@, i as int),
        decreases body@.len() - i,
    {
        let r = yield_in_stmt(&body[i]);
        if r.is_some() {
            return r;
        }
        i = i + 1;
    }
    None
}

/// The docstring of a body: its first statement, when that is a string
/// literal on its own.
pub open spec fn docstring_of(body: Seq<PyStmt>) -> Option<Seq<char>> {
    if body.len() > 0 {
        match body[0] {
            PyStmt::Expr { value: PyExpr::Str { value, .. }, .. } => Some(value@),
            _ => None,
        }
    } else {
        None
    }
}

/// The raw docstring of a function body, if it has one.
pub fn raw_docstring(body: &Vec<PyStmt>) -> (r: Option<String>)
    ensures
        match r {
            Some(d) => docstring_of(body@) == Some(d@),
            None => docstring_of(body@) is None,
        },
{
    if body.len() == 0 {
        return None;
    }
    match &body[0] {
        PyStmt::Expr { value: PyExpr::Str { value, .. }, .. } => Some(string_of(&chars_of(value.as_str()))),
        _ => None,
    }
}

// ---------------------------------------------------------------------------
// Module level

/// `acc` with `x` added unless it is there already.
pub open spec fn push_unique(acc: Seq<Seq<char>>, x: Seq<char>) -> Seq<Seq<char>> {
    if acc.contains(x) {
        acc
    } else {
        acc.push(x)
    }
}

/// `acc` with the items of `xs` added in order, each unless it is there already.
pub open spec fn add_unique(acc: Seq<Seq<char>>, xs: Seq<Seq<char>>) -> Seq<Seq<char>>
    decreases xs.len(),
{
    if xs.len() == 0 {
        acc
    } else {
        push_unique(add_unique(acc, xs.drop_last()), xs.last())
    }
}

/// The plain names an assignment target spells: a name, and those of the
/// items of a tuple or list target.
pub open spec fn plain_names(e: PyExpr) -> Seq<Seq<char>>
    decreases e, 0int,
{
    match e {
        PyExpr::Name { id, .. } => seq![id@],
        PyExpr::Tuple { elts } => plain_list(elts@, elts@.len() as int),
        PyExpr::List { elts } => plain_list(elts@, elts@.len() as int),
        _ => Seq::empty(),
    }
}

pub open spec fn plain_list(es: Seq<PyExpr>, n: int) -> Seq<Seq<char>>
    decreases es, n,
{
    if n <= 0 || n > es.len() {
        Seq::empty()
    } else {
        plain_list(es, n - 1) + plain_names(es[n - 1])
    }
}

pub open spec fn alias_names(aliases: Seq<PyAlias>, n: int, skip_star: bool) -> Seq<Seq<char>>
    decreases n,
{
    if n <= 0 || n > aliases.len() {
        Seq::empty()
    } else if skip_star && aliases[n - 1].name@ == "*"@ {
        alias_names(aliases, n - 1, skip_star)
    } else {
        alias_names(aliases, n - 1, skip_star).push(bound_name(aliases[n - 1]))
    }
}

pub open spec fn has_fixture_decorator(ds: Seq<PyExpr>) -> bool {
    exists|i: int| 0 <= i < ds.len() && fixture_decorator(#[trigger] ds[i])
}

/// The names a module-level statement defines: imported names, functions
/// that are not fixtures, classes, and plain assignment targets.
pub open spec fn stmt_module_names(s: PyStmt) -> Seq<Seq<char>> {
    match s {
        PyStmt::Import { aliases, .. } => alias_names(aliases@, aliases@.len() as int, false),
        PyStmt::FunctionDef { name, decorators, .. } => if has_fixture_decorator(decorators@) {
            Seq::empty()
        } else {
            seq![name@]
        },
        PyStmt::ClassDef { name, .. } => seq![name@],
        PyStmt::Assign { targets, .. } => plain_list(targets@, targets@.len() as int),
        PyStmt::AnnAssign { target, .. } => plain_names(target),
        _ => Seq::empty(),
    }
}

/// The names the statements `body[..n]` define at module level, each once,
/// in order of first appearance.
pub open spec fn module_names(body: Seq<PyStmt>, n: int) -> Seq<Seq<char>>
    decreases n,
{
    if n <= 0 || n > body.len() {
        Seq::empty()
    } else {
        add_unique(module_names(body, n - 1), stmt_module_names(body[n - 1]))
    }
}

/// The names bound by the `from ... import` statements among `body[..n]`
/// (a star import binds none), each once, in order of first appearance.
pub open spec fn from_imported_names(body: Seq<PyStmt>, n: int) -> Seq<Seq<char>>
    decreases n,
{
    if n <= 0 || n > body.len() {
        Seq::empty()
    } else {
        add_unique(
            from_imported_names(body, n - 1),
            match body[n - 1] {
                PyStmt::Import { aliases, from: Some(_), .. } => alias_names(aliases@, aliases@.len() as int, true),
                _ => Seq::empty(),
            },
        )
    }
}

fn contains_string(v: &Vec<String>, x: &String) -> (b: bool)
    ensures
        b == v@.map_values(|s: String| s@).contains(x@),
{
    let ghost vs = v@.map_values(|s: String| s@);
    let xc = chars_of(x.as_str());
    let mut i: usize = 0;
    while i < v.len()
        invariant
            i <= v@.len(),
            vs == v@.map_values(|s: String| s@),
            xc@ == x@,
            forall|k: int| 0 <= k < i ==> vs[k] != x@,
        decreases v@.len() - i,
    {
        if chars_eq(&chars_of(v[i].as_str()), &xc) {
            assert(vs[i as int] == x@);
            return true;
        }
        i = i + 1;
    }
    false
}

fn add_unique_exec(out: &mut Vec<String>, xs: &Vec<String>)
    ensures
        final(out)@.map_values(|s: String| s@) == add_unique(
            old(out)@.map_values(|s: String| s@),
            xs@.map_values(|s: String| s@),
        ),
{
    let ghost acc0 = out@.map_values(|s: String| s@);
    let ghost xv = xs@.map_values(|s: String| s@);
    let mut k: usize = 0;
    while k < xs.len()
        invariant
            k <= xs@.len(),
            xv == xs@.map_values(|s: String| s@),
            out@.map_values(|s: String| s@) == add_unique(acc0, xv.take(k as int)),
        decreases xs@.len() - k,
    {
        assert(xv.take(k + 1).drop_last() =~= xv.take(k as int));
        assert(xv.take(k + 1).last() == xs@[k as int]@);
        let ghost before = out@.map_values(|s: String| s@);
        if !contains_string(out, &xs[k]) {
            out.push(string_of(&chars_of(xs[k].as_str())));
            assert(out@.map_values(|s: String| s@) =~= before.push(xs@[k as int]@));
        }
        k = k + 1;
    }
    assert(xv.take(k as int) =~= xv);
}

fn push_string(out: &mut Vec<String>, x: &String)
    ensures
        final(out)@.map_values(|s: String| s@) == old(out)@.map_values(|s: String| s@).push(x@),
{
    out.push(string_of(&chars_of(x.as_str())));
    assert(out@.map_values(|s: String| s@) =~= old(out)@.map_values(|s: String| s@).push(x@));
}

fn plain_names_exec(e: &PyExpr, out: &mut Vec<String>)
    ensures
        final(out)@.map_values(|s: String| s@) == old(out)@.map_values(|s: String| s@) + plain_names(*e),
    decreases e, 1int,
{
    let ghost base = out@.map_values(|s: String| s@);
    match e {
        PyExpr::Name { id, .. } => {
            push_string(out, id);
            assert(out@.map_values(|s: String| s@) =~= base + plain_names(*e));
        },
        PyExpr::Tuple { elts } => plain_list_exec(e, elts, out),
        PyExpr::List { elts } => plain_list_exec(e, elts, out),
        _ => {
            assert(out@.map_values(|s: String| s@) =~= base + plain_names(*e));
        },
    }
}

fn plain_list_exec(e: &PyExpr, es: &Vec<PyExpr>, out: &mut Vec<String>)
    requires
        decreases_to!(*e => es@),
    ensures
        final(out)@.map_values(|s: String| s@) == old(out)@.map_values(|s: String| s@) + plain_list(
            es@,
            es@.len() as int,
        ),
    decreases e, 0int,
{
    let ghost base = out@.map_values(|s: String| s@);
    let mut i: usize = 0;
    while i < es.len()
        invariant
            i <= es@.len(),
            decreases_to!(*e => es@),
            out@.map_values(|s: String| s@) == base + plain_list(es@, i as int),
        decreases es@.len() - i,
    {
        proof {
            assert(decreases_to!(es@ => es@[i as int]));
        }
        plain_names_exec(&es[i], out);
        assert(out@.map_values(|s: String| s@) =~= base + plain_list(es@, i + 1));
        i = i + 1;
    }
}

fn alias_names_exec(aliases: &Vec<PyAlias>, skip_star: bool, out: &mut Vec<String>)
    ensures
        final(out)@.map_values(|s: String| s@) == old(out)@.map_values(|s: String| s@) + alias_names(
            aliases@,
            aliases@.len() as int,
            skip_star,
        ),
{
    proof {
        reveal_strlit("*");
    }
    let ghost base = out@.map_values(|s: String| s@);
    let star = chars_of("*");
    let mut i: usize = 0;
    while i < aliases.len()
        invariant
            i <= aliases@.len(),
            star@ == "*"@,
            out@.map_values(|s: String| s@) == base + alias_names(aliases@, i as int, skip_star),
        decreases aliases@.len() - i,
    {
        let is_star = chars_eq(&chars_of(aliases[i].name.as_str()), &star);
        if !(skip_star && is_star) {
            push_string(out, bound_name_exec(&aliases[i]));
        }
        assert(out@.map_values(|s: String| s@) =~= base + alias_names(aliases@, i + 1, skip_star));
        i = i + 1;
    }
}

fn any_fixture_decorator(ds: &Vec<PyExpr>) -> (b: bool)
    ensures
        b == has_fixture_decorator(ds@),
{
    let mut i: usize = 0;
    while i < ds.len()
        invariant
            i <= ds@.len(),
            forall|k: int| 0 <= k < i ==> !fixture_decorator(#[trigger] ds@[k]),
        decreases ds@.len() - i,
    {
        if is_fixture_decorator(&ds[i]) {
            return true;
        }
        i = i + 1;
    }
    false
}

fn stmt_module_names_exec(s: &PyStmt) -> (r: Vec<String>)
    ensures
        r@.map_values(|x: String| x@) == stmt_module_names(*s),
{
    let mut out: Vec<String> = Vec::new();
    assert(out@.map_values(|x: String| x@) =~= Seq::<Seq<char>>::empty());
    match s {
        PyStmt::Import { aliases, .. } => alias_names_exec(aliases, false, &mut out),
        PyStmt::FunctionDef { name, decorators, .. } => {
            if !any_fixture_decorator(decorators) {
                push_string(&mut out, name);
            }
        },
        PyStmt::ClassDef { name, .. } => push_string(&mut out, name),
        PyStmt::Assign { targets, .. } => {
            let mut i: usize = 0;
            while i < targets.len()
                invariant
                    i <= targets@.len(),
                    out@.map_values(|x: String| x@) == plain_list(targets@, i as int),
                decreases targets@.len() - i,
            {
                plain_names_exec(&targets[i], &mut out);
                assert(out@.map_values(|x: String| x@) =~= plain_list(targets@, i + 1));
                i = i + 1;
            }
        },
        PyStmt::AnnAssign { target, .. } => plain_names_exec(target, &mut out),
        _ => {},
    }
    assert(out@.map_values(|x: String| x@) =~= stmt_module_names(*s));
    out
}

/// The names a module defines at its top level (imports, functions that are
/// not fixtures, classes, plain assignment targets), each once, in order of
/// first appearance.
pub fn collect_module_level_names(body: &Vec<PyStmt>) -> (r: Vec<String>)
    ensures
        r@.map_values(|x: String| x@) == module_names(body@, body@.len() as int),
{
    let mut out: Vec<String> = Vec::new();
    assert(out@.map_values(|x: String| x@) =~= module_names(body@, 0));
    let mut i: usize = 0;
    while i < body.len()
        invariant
            i <= body@.len(),
            out@.map_values(|x: String| x@) == module_names(body@, i as int),
        decreases body@.len() - i,
    {
        let xs = stmt_module_names_exec(&body[i]);
        add_unique_exec(&mut out, &xs);
        i = i + 1;
    }
    out
}

/// The names a module binds with `from ... import` (a star import binds
/// none), each once, in order of first appearance.
pub fn imported_names(body: &Vec<PyStmt>) -> (r: Vec<String>)
    ensures
        r@.map_values(|x: String| x@) == from_imported_names(body@, body@.len() as int),
{
    let mut out: Vec<String> = Vec::new();
    assert(out@.map_values(|x: String| x@) =~= from_imported_names(body@, 0));
    let mut i: usize = 0;
    while i < body.len()
        invariant
            i <= body@.len(),
            out@.map_values(|x: String| x@) == from_imported_names(body@, i as int),
        decreases body@.len() - i,
    {
        let mut xs: Vec<String> = Vec::new();
        match &body[i] {
            PyStmt::Import { aliases, from: Some(_), .. } => alias_names_exec(aliases, true, &mut xs),
            _ => {},
        }
        assert(xs@.map_values(|x: String| x@) =~= match body@[i as int] {
            PyStmt::Import { aliases, from: Some(_), .. } => alias_names(aliases@, aliases@.len() as int, true),
            _ => Seq::empty(),
        });
        add_unique_exec(&mut out, &xs);
        i = i + 1;
    }
    out
}

/// An import map entry: the name an alias binds, the name to check, and the
/// statement that imports it (`import a`, `import a as b`,
/// `from m import a`, `from m import a as b`).
pub open spec fn alias_entry(a: PyAlias, from: Option<Seq<char>>) -> (Seq<char>, Seq<char>, Seq<char>) {
    let head = match from {
        Some(m) => "from "@ + m + " import "@ + a.name@,
        None => "import "@ + a.name@,
    };
    let statement = match a.asname {
        Some(x) => head + " as "@ + x@,
        None => head,
    };
    (bound_name(a), bound_name(a), statement)
}

pub open spec fn opt_str(o: Option<String>) -> Option<Seq<char>> {
    match o {
        Some(x) => Some(x@),
        None => None,
    }
}

/// The entries of the aliases `aliases[..n]` of one import (a star import
/// of a `from` statement has none).
pub open spec fn alias_entries(aliases: Seq<PyAlias>, from: Option<Seq<char>>, n: int) -> Seq<
    (Seq<char>, Seq<char>, Seq<char>),
>
    decreases n,
{
    if n <= 0 || n > aliases.len() {
        Seq::empty()
    } else if from is Some && aliases[n - 1].name@ == "*"@ {
        alias_entries(aliases, from, n - 1)
    } else {
        alias_entries(aliases, from, n - 1).push(alias_entry(aliases[n - 1], from))
    }
}

/// The import map of the statements `body[..n]`: one entry per imported
/// name, in order.
pub open spec fn import_entries(body: Seq<PyStmt>, n: int) -> Seq<(Seq<char>, Seq<char>, Seq<char>)>
    decreases n,
{
    if n <= 0 || n > body.len() {
        Seq::empty()
    } else {
        import_entries(body, n - 1) + match body[n - 1] {
            PyStmt::Import { aliases, from, .. } => alias_entries(aliases@, opt_str(from), aliases@.len() as int),
            _ => Seq::empty(),
        }
    }
}

pub open spec fn entry_views(v: Seq<(String, TypeImportSpec)>) -> Seq<(Seq<char>, Seq<char>, Seq<char>)> {
    v.map_values(|e: (String, TypeImportSpec)| (e.0@, e.1.check_name@, e.1.import_statement@))
}

fn alias_entry_exec(a: &PyAlias, from: &Option<String>) -> (r: (String, TypeImportSpec))
    ensures
        (r.0@, r.1.check_name@, r.1.import_statement@) == alias_entry(*a, opt_str(*from)),
{
    proof {
        reveal_strlit("from ");
        reveal_strlit(" import ");
        reveal_strlit("import ");
        reveal_strlit(" as ");
    }
    let name = chars_of(a.name.as_str());
    let head = match from {
        Some(m) => concat(&concat(&concat(&chars_of("from "), &chars_of(m.as_str())), &chars_of(" import ")), &name),
        None => concat(&chars_of("import "), &name),
    };
    let statement = match &a.asname {
        Some(x) => concat(&concat(&head, &chars_of(" as ")), &chars_of(x.as_str())),
        None => head,
    };
    let bound = bound_name_exec(a);
    (
        string_of(&chars_of(bound.as_str())),
        TypeImportSpec { check_name: string_of(&chars_of(bound.as_str())), import_statement: string_of(&statement) },
    )
}

/// Each name the module's imports bind, with the statement that binds it,
/// in order (star imports are left out).
pub fn build_import_map(body: &Vec<PyStmt>) -> (r: Vec<(String, TypeImportSpec)>)
    ensures
        entry_views(r@) == import_entries(body@, body@.len() as int),
{
    proof {
        reveal_strlit("*");
    }
    let star = chars_of("*");
    let mut out: Vec<(String, TypeImportSpec)> = Vec::new();
    assert(entry_views(out@) =~= import_entries(body@, 0));
    let mut i: usize = 0;
    while i < body.len()
        invariant
            i <= body@.len(),
            star@ == "*"@,
            entry_views(out@) == import_entries(body@, i as int),
        decreases body@.len() - i,
    {
        let ghost b0 = entry_views(out@);
        match &body[i] {
            PyStmt::Import { aliases, from, .. } => {
                let mut k: usize = 0;
                while k < aliases.len()
                    invariant
                        k <= aliases@.len(),
                        star@ == "*"@,
                        entry_views(out@) == b0 + alias_entries(aliases@, opt_str(*from), k as int),
                    decreases aliases@.len() - k,
                {
                    let skip = from.is_some() && chars_eq(&chars_of(aliases[k].name.as_str()), &star);
                    if !skip {
                        let ghost before = entry_views(out@);
                        let e = alias_entry_exec(&aliases[k], from);
                        out.push(e);
                        assert(entry_views(out@) =~= before.push(alias_entry(aliases@[k as int], opt_str(*from))));
                    }
                    assert(entry_views(out@) =~= b0 + alias_entries(aliases@, opt_str(*from), k + 1));
                    k = k + 1;
                }
            },
            _ => {},
        }
        assert(entry_views(out@) =~= import_entries(body@, i + 1));
        i = i + 1;
    }
    out
}

// ---------------------------------------------------------------------------
// Modules a file imports

/// Where the leading dots of a `from` module end, from index `i` on.
pub open spec fn dots_end(f: Seq<char>, i: int) -> int
    decreases f.len() - i,
{
    if i < 0 || i >= f.len() || f[i] != '.' {
        i
    } else {
        dots_end(f, i + 1)
    }
}

/// The submodules `from <module> import a, b` may name: `<module>.a`, or just
/// `a` for a module of dots alone; a star names none.
pub open spec fn sub_entries(aliases: Seq<PyAlias>, module: Seq<char>, level: int, n: int) -> Seq<(Seq<char>, int)>
    decreases n,
{
    if n <= 0 || n > aliases.len() {
        Seq::empty()
    } else if aliases[n - 1].name@ == "*"@ {
        sub_entries(aliases, module, level, n - 1)
    } else {
        sub_entries(aliases, module, level, n - 1).push(
            (
                if module.len() == 0 {
                    aliases[n - 1].name@
                } else {
                    module + "."@ + aliases[n - 1].name@
                },
                level,
            ),
        )
    }
}

pub open spec fn plain_import_entries(aliases: Seq<PyAlias>, n: int) -> Seq<(Seq<char>, int)>
    decreases n,
{
    if n <= 0 || n > aliases.len() {
        Seq::empty()
    } else {
        plain_import_entries(aliases, n - 1).push((aliases[n - 1].name@, 0int))
    }
}

pub open spec fn str_modules(es: Seq<PyExpr>, n: int) -> Seq<(Seq<char>, int)>
    decreases n,
{
    if n <= 0 || n > es.len() {
        Seq::empty()
    } else {
        str_modules(es, n - 1) + match es[n - 1] {
            PyExpr::Str { value, .. } => seq![(value@, 0int)],
            _ => Seq::empty(),
        }
    }
}

pub open spec fn names_pytest_plugins(targets: Seq<PyExpr>) -> bool {
    exists|i: int|
        0 <= i < targets.len() && (#[trigger] targets[i] matches PyExpr::Name { id, .. } && id@
            == "pytest_plugins"@)
}

/// The modules (with their relative-import level) a module-level statement
/// names: a `from` import's module and the submodules it may import, a plain
/// import's modules, and the strings a `pytest_plugins` assignment lists.
pub open spec fn stmt_modules(s: PyStmt) -> Seq<(Seq<char>, int)> {
    match s {
        PyStmt::Import { aliases, from: Some(f), .. } => {
            let l = dots_end(f@, 0);
            seq![(f@.skip(l), l)] + sub_entries(aliases@, f@.skip(l), l, aliases@.len() as int)
        },
        PyStmt::Import { aliases, from: None, .. } => plain_import_entries(aliases@, aliases@.len() as int),
        PyStmt::Assign { targets, value, .. } => if names_pytest_plugins(targets@) {
            match value {
                PyExpr::List { elts } => str_modules(elts@, elts@.len() as int),
                PyExpr::Tuple { elts } => str_modules(elts@, elts@.len() as int),
                _ => str_modules(seq![value], 1),
            }
        } else {
            Seq::empty()
        },
        _ => Seq::empty(),
    }
}

pub open spec fn body_modules(body: Seq<PyStmt>, n: int) -> Seq<(Seq<char>, int)>
    decreases n,
{
    if n <= 0 || n > body.len() {
        Seq::empty()
    } else {
        body_modules(body, n - 1) + stmt_modules(body[n - 1])
    }
}

pub open spec fn module_views(v: Seq<(String, usize)>) -> Seq<(Seq<char>, int)> {
    v.map_values(|e: (String, usize)| (e.0@, e.1 as int))
}

fn push_module(out: &mut Vec<(String, usize)>, m: Vec<char>, level: usize)
    ensures
        module_views(final(out)@) == module_views(old(out)@).push((m@, level as int)),
{
    out.push((string_of(&m), level));
    assert(module_views(out@) =~= module_views(old(out)@).push((m@, level as int)));
}

fn str_modules_exec(es: &Vec<PyExpr>, out: &mut Vec<(String, usize)>)
    ensures
        module_views(final(out)@) == module_views(old(out)@) + str_modules(es@, es@.len() as int),
{
    let ghost base = module_views(out@);
    let mut i: usize = 0;
    while i < es.len()
        invariant
            i <= es@.len(),
            module_views(out@) == base + str_modules(es@, i as int),
        decreases es@.len() - i,
    {
        match &es[i] {
            PyExpr::Str { value, .. } => push_module(out, chars_of(value.as_str()), 0),
            _ => {},
        }
        assert(module_views(out@) =~= base + str_modules(es@, i + 1));
        i = i + 1;
    }
}

fn is_pytest_plugins_target(targets: &Vec<PyExpr>) -> (b: bool)
    ensures
        b == names_pytest_plugins(targets@),
{
    proof {
        reveal_strlit("pytest_plugins");
    }
    let key = chars_of("pytest_plugins");
    let mut i: usize = 0;
    while i < targets.len()
        invariant
            i <= targets@.len(),
            key@ == "pytest_plugins"@,
            forall|k: int|
                0 <= k < i ==> !(#[trigger] targets@[k] matches PyExpr::Name { id, .. } && id@ == "pytest_plugins"@),
        decreases targets@.len() - i,
    {
        match &targets[i] {
            PyExpr::Name { id, .. } => {
                if chars_eq(&chars_of(id.as_str()), &key) {
                    return true;
                }
            },
            _ => {},
        }
        i = i + 1;
    }
    false
}

fn stmt_modules_exec(s: &PyStmt, out: &mut Vec<(String, usize)>)
    ensures
        module_views(final(out)@) == module_views(old(out)@) + stmt_modules(*s),
{
    proof {
        reveal_strlit("*");
        reveal_strlit(".");
    }
    let ghost base = module_views(out@);
    match s {
        PyStmt::Import { aliases, from: Some(f), .. } => {
            let fc = chars_of(f.as_str());
            let mut l: usize = 0;
            while l < fc.len() && fc[l] == '.'
                invariant
                    l <= fc@.len(),
                    dots_end(fc@, 0) == dots_end(fc@, l as int),
                decreases fc@.len() - l,
            {
                l = l + 1;
            }
            assert(dots_end(fc@, l as int) == l as int);
            assert(fc@ == f@);
            let module = crate::text::slice_range(&fc, l, fc.len());
            assert(module@ =~= f@.skip(l as int));
            let mcopy = crate::text::slice_range(&module, 0, module.len());
            assert(mcopy@ =~= module@);
            push_module(out, mcopy, l);
            let ghost b1 = module_views(out@);
            let star = chars_of("*");
            let mut k: usize = 0;
            while k < aliases.len()
                invariant
                    k <= aliases@.len(),
                    star@ == "*"@,
                    module@ == f@.skip(l as int),
                    module_views(out@) == b1 + sub_entries(aliases@, module@, l as int, k as int),
                decreases aliases@.len() - k,
            {
                let name = chars_of(aliases[k].name.as_str());
                if !chars_eq(&name, &star) {
                    let sub = if module.len() == 0 {
                        name
                    } else {
                        concat(&concat(&module, &chars_of(".")), &name)
                    };
                    push_module(out, sub, l);
                }
                assert(module_views(out@) =~= b1 + sub_entries(aliases@, module@, l as int, k + 1));
                k = k + 1;
            }
            proof {
                let le = dots_end(f@, 0);
                assert(le == l as int);
                let sub = sub_entries(aliases@, f@.skip(le), le, aliases@.len() as int);
                assert(b1 == base.push((f@.skip(le), le)));
                assert(stmt_modules(*s) == seq![(f@.skip(le), le)] + sub);
                assert(module_views(out@) =~= base + (seq![(f@.skip(le), le)] + sub));
            }
        },
        PyStmt::Import { aliases, from: None, .. } => {
            let mut k: usize = 0;
            while k < aliases.len()
                invariant
                    k <= aliases@.len(),
                    module_views(out@) == base + plain_import_entries(aliases@, k as int),
                decreases aliases@.len() - k,
            {
                push_module(out, chars_of(aliases[k].name.as_str()), 0);
                assert(module_views(out@) =~= base + plain_import_entries(aliases@, k + 1));
                k = k + 1;
            }
        },
        PyStmt::Assign { targets, value, .. } => {
            assert(str_modules(seq![*value], 0) =~= Seq::empty());
            if is_pytest_plugins_target(targets) {
                match value {
                    PyExpr::List { elts } => str_modules_exec(elts, out),
                    PyExpr::Tuple { elts } => str_modules_exec(elts, out),
                    PyExpr::Str { value: v, .. } => {
                        push_module(out, chars_of(v.as_str()), 0);
                        assert(module_views(out@) =~= base + stmt_modules(*s));
                    },
                    _ => {
                        assert(module_views(out@) =~= base + stmt_modules(*s));
                    },
                }
            } else {
                assert(module_views(out@) =~= base + stmt_modules(*s));
            }
        },
        _ => {
            assert(module_views(out@) =~= base + stmt_modules(*s));
        },
    }
}

/// The modules a module names at its top level, with their relative-import
/// levels, in order: `from` imports (the module, then each submodule it may
/// import), plain imports, and the strings listed in `pytest_plugins`.
pub fn imported_modules(body: &Vec<PyStmt>) -> (r: Vec<(String, usize)>)
    ensures
        module_views(r@) == body_modules(body@, body@.len() as int),
{
    let mut out: Vec<(String, usize)> = Vec::new();
    assert(module_views(out@) =~= body_modules(body@, 0));
    let mut i: usize = 0;
    while i < body.len()
        invariant
            i <= body@.len(),
            module_views(out@) == body_modules(body@, i as int),
        decreases body@.len() - i,
    {
        stmt_modules_exec(&body[i], &mut out);
        i = i + 1;
    }
    out
}

// ---------------------------------------------------------------------------
// Module-level assignments

pub open spec fn names_target(targets: Seq<PyExpr>, name: Seq<char>) -> bool {
    exists|i: int| 0 <= i < targets.len() && (#[trigger] targets[i] matches PyExpr::Name { id, .. } && id@ == name)
}

/// The value assigned to `pytestmark` by a module- or class-level statement.
pub open spec fn pytestmark_of(s: PyStmt) -> Option<PyExpr> {
    match s {
        PyStmt::Assign { targets, value, .. } => if names_target(targets@, "pytestmark"@) {
            Some(value)
        } else {
            None
        },
        PyStmt::AnnAssign { target: PyExpr::Name { id, .. }, value: Some(v), .. } => if id@ == "pytestmark"@ {
            Some(v)
        } else {
            None
        },
        _ => None,
    }
}

fn names_target_exec(targets: &Vec<PyExpr>, name: &str) -> (b: bool)
    ensures
        b == names_target(targets@, name@),
{
    let key = chars_of(name);
    let mut i: usize = 0;
    while i < targets.len()
        invariant
            i <= targets@.len(),
            key@ == name@,
            forall|k: int| 0 <= k < i ==> !(#[trigger] targets@[k] matches PyExpr::Name { id, .. } && id@ == name@),
        decreases targets@.len() - i,
    {
        match &targets[i] {
            PyExpr::Name { id, .. } => {
                if chars_eq(&chars_of(id.as_str()), &key) {
                    return true;
                }
            },
            _ => {},
        }
        i = i + 1;
    }
    false
}

/// The value a statement assigns to `pytestmark`, if it is such an assignment.
pub fn pytestmark_value(s: &PyStmt) -> (r: Option<&PyExpr>)
    ensures
        match r {
            Some(v) => pytestmark_of(*s) == Some(*v),
            None => pytestmark_of(*s) is None,
        },
{
    proof {
        reveal_strlit("pytestmark");
    }
    match s {
        PyStmt::Assign { targets, value, .. } => if names_target_exec(targets, "pytestmark") {
            Some(value)
        } else {
            None
        },
        PyStmt::AnnAssign { target: PyExpr::Name { id, .. }, value: Some(v), .. } => {
            if chars_eq(&chars_of(id.as_str()), &chars_of("pytestmark")) {
                Some(v)
            } else {
                None
            }
        },
        _ => None,
    }
}

/// The fixture decorator call that `name = pytest.fixture(...)(func)` applies:
/// the value is a call whose callee is itself a call of a fixture decorator.
pub open spec fn assigned_fixture_call(s: PyStmt) -> Option<PyExpr> {
    match s {
        PyStmt::Assign { value: PyExpr::Call { func, .. }, .. } => match *func {
            PyExpr::Call { func: inner, .. } => if fixture_decorator(*inner) {
                Some(*func)
            } else {
                None
            },
            _ => None,
        },
        _ => None,
    }
}

/// The plain names among `targets[..n]`, with their ranges.
pub open spec fn name_targets(targets: Seq<PyExpr>, n: int) -> Seq<(Seq<char>, usize, usize)>
    decreases n,
{
    if n <= 0 || n > targets.len() {
        Seq::empty()
    } else {
        name_targets(targets, n - 1) + match targets[n - 1] {
            PyExpr::Name { id, start, end } => seq![(id@, start, end)],
            _ => Seq::empty(),
        }
    }
}

/// The fixtures `name = pytest.fixture(...)(func)` defines: each plain
/// target name with its range, and the decorator call (whose `scope=` the
/// fixture takes); nothing for any other statement.
pub fn assignment_fixtures(s: &PyStmt) -> (r: (Vec<PyName>, Option<&PyExpr>))
    ensures
        match assigned_fixture_call(*s) {
            Some(c) => (r.1 matches Some(x) && *x == c) && (s matches PyStmt::Assign { targets, .. } && name_views(r.0@)
                == name_targets(targets@, targets@.len() as int)),
            None => r.1 is None && r.0@.len() == 0,
        },
{
    let mut out: Vec<PyName> = Vec::new();
    if let PyStmt::Assign { targets, value: PyExpr::Call { func, .. }, .. } = s {
        if let PyExpr::Call { func: inner, .. } = &**func {
            if is_fixture_decorator(inner) {
                let mut i: usize = 0;
                while i < targets.len()
                    invariant
                        i <= targets@.len(),
                        name_views(out@) == name_targets(targets@, i as int),
                    decreases targets@.len() - i,
                {
                    let ghost before = name_views(out@);
                    match &targets[i] {
                        PyExpr::Name { id, start, end } => push_name(&mut out, id, *start, *end),
                        _ => {},
                    }
                    assert(name_views(out@) =~= name_targets(targets@, i + 1));
                    i = i + 1;
                }
                return (out, Some(&**func));
            }
        }
    }
    (out, None)
}

// ---------------------------------------------------------------------------
// Where a function's name is

/// The byte range of `name` in the first of the lines `ls[i..end]` that
/// holds `def <name>`: it starts four bytes after that `def`; when no line
/// holds it, the range `0..` the name's length.
pub open spec fn name_position_from(ls: Seq<Seq<char>>, name: Seq<char>, i: int, end: int) -> (int, int)
    decreases end - i,
{
    if i < 0 || i >= end || i >= ls.len() {
        (0, utf8_len(name) as int)
    } else {
        match find_spec(ls[i], "def "@ + name) {
            Some(p) => (utf8_len(ls[i].take(p)) + 4int, utf8_len(ls[i].take(p)) + 4int + utf8_len(name)),
            None => name_position_from(ls, name, i + 1, end),
        }
    }
}

/// The byte range of the function name `name`, searched for as `def <name>`
/// on the (1-based) line `line` of `content` and the 19 lines after it.
pub open spec fn function_name_range(content: Seq<char>, line: usize, name: Seq<char>) -> (int, int) {
    let d: int = if line >= 1 {
        line - 1
    } else {
        0
    };
    name_position_from(lines_of(content), name, d, d + 20)
}

/// The byte range of the name of the function defined on (1-based) line
/// `line` of `content`; `None` only where a byte offset would not fit in a
/// `usize`.
pub fn function_name_position(content: &str, line: usize, name: &str) -> (r: Option<(usize, usize)>)
    ensures
        match r {
            Some((a, b)) => function_name_range(content@, line, name@) == (a as int, b as int),
            None => function_name_range(content@, line, name@).1 > usize::MAX,
        },
{
    proof {
        reveal_strlit("def ");
    }
    let ls = crate::text::lines(&chars_of(content));
    let nm = chars_of(name);
    let pat = concat(&chars_of("def "), &nm);
    let ghost lv = lines_of(content@);
    let d: usize = if line >= 1 {
        line - 1
    } else {
        0
    };
    let end: usize = if d <= usize::MAX - 20 {
        d + 20
    } else {
        usize::MAX
    };
    let ghost spec_end: int = d + 20;
    assert(function_name_range(content@, line, name@) == name_position_from(lv, name@, d as int, spec_end));
    let mut i: usize = d;
    while i < end && i < ls.len()
        invariant
            d <= i <= end,
            end <= spec_end,
            spec_end == d + 20,
            end == spec_end || end == usize::MAX,
            views(ls@) == lv,
            lv == lines_of(content@),
            nm@ == name@,
            pat@ == "def "@ + name@,
            name_position_from(lv, name@, d as int, spec_end) == name_position_from(lv, name@, i as int, spec_end),
            function_name_range(content@, line, name@) == name_position_from(lv, name@, d as int, spec_end),
        decreases end - i,
    {
        let li = &ls[i];
        assert(lv[i as int] == li@);
        match crate::text::find_first(li, &pat) {
            Some(p) => {
                let head = crate::text::slice_range(li, 0, p);
                assert(head@ =~= li@.take(p as int));
                assert(name_position_from(lv, name@, i as int, spec_end) == (
                    utf8_len(head@) + 4int,
                    utf8_len(head@) + 4int + utf8_len(name@),
                ));
                let hb = match crate::actions::byte_len(&head) {
                    Some(h) => h,
                    None => {
                        return None;
                    },
                };
                let nb = match crate::actions::byte_len(&nm) {
                    Some(n) => n,
                    None => {
                        return None;
                    },
                };
                if hb > usize::MAX - 4 || hb + 4 > usize::MAX - nb {
                    return None;
                }
                return Some((hb + 4, hb + 4 + nb));
            },
            None => {},
        }
        i = i + 1;
    }
    proof {
        if i < spec_end && i < lv.len() {
            assert(i == usize::MAX);
            assert(false);
        }
    }
    match crate::actions::byte_len(&nm) {
        Some(n) => Some((0, n)),
        None => None,
    }
}

} // verus!
