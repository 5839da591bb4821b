//! Analyzing a parsed module: what its statements record in the database —
//! fixture definitions, fixture usages, undeclared fixtures, module-level
//! names and imported fixtures.
use vstd::prelude::*;

use crate::analysis::{
    function_usages, marks_fit, mark_usages, param_usages, params_fit, FixtureMark, FunctionFacts, MarkedName,
    ParamFacts,
};
use crate::db::{usages_without_file, without_file, FixtureDatabase};
use crate::docs::can_format_docstring;
use crate::lsp::{char_at_byte, char_index_at_byte};
use crate::offsets::increasing;
use crate::pyast::{
    assignment_fixtures, collect_local_variables, collect_module_level_names, find_yield, fixture_autouse,
    fixture_name, fixture_scope, from_imported_names, function_name_position, imported_names, is_fixture_decorator,
    module_names, names_in_body, parametrize_indirect, pytestmark_value, raw_docstring, usefixtures_from_expr,
    usefixtures_names, build_import_map, PyAnnotation, PyExpr, PyName, PyParam, PyStmt,
};
use crate::records::{names_without_file, undeclared_without_file};
use crate::text::{chars_of, slice_range, string_of};
use crate::types::{undeclared_views, string_views, DefinitionView, TypeImportSpec, UndeclaredView, UsageView};

verus! {

/// Where a module comes from: an installed package, a pytest plugin, and
/// its dotted module path when it has one.
pub struct ModuleOrigin {
    pub third_party: bool,
    pub plugin: bool,
    pub module: Option<String>,
}

/// `b` is `a` followed by definitions made in file `f`.
pub open spec fn defs_grow_in(a: Seq<DefinitionView>, b: Seq<DefinitionView>, f: Seq<char>) -> bool {
    &&& a.len() <= b.len()
    &&& b.take(a.len() as int) == a
    &&& forall|i: int| a.len() <= i < b.len() ==> (#[trigger] b[i]).file_path == f
}

/// `b` is `a` followed by usages in file `f`.
pub open spec fn uses_grow_in(a: Seq<UsageView>, b: Seq<UsageView>, f: Seq<char>) -> bool {
    &&& a.len() <= b.len()
    &&& b.take(a.len() as int) == a
    &&& forall|i: int| a.len() <= i < b.len() ==> (#[trigger] b[i]).file_path == f
}

/// `b` is `a` followed by undeclared fixtures of file `f`.
pub open spec fn undeclared_grow_in(a: Seq<UndeclaredView>, b: Seq<UndeclaredView>, f: Seq<char>) -> bool {
    &&& a.len() <= b.len()
    &&& b.take(a.len() as int) == a
    &&& forall|i: int| a.len() <= i < b.len() ==> (#[trigger] b[i]).file_path == f
}

proof fn lemma_defs_trans(a: Seq<DefinitionView>, b: Seq<DefinitionView>, c: Seq<DefinitionView>, f: Seq<char>)
    requires
        defs_grow_in(a, b, f),
        defs_grow_in(b, c, f),
    ensures
        defs_grow_in(a, c, f),
{
    assert(c.take(a.len() as int) =~= c.take(b.len() as int).take(a.len() as int));
    assert forall|i: int| a.len() <= i < c.len() implies (#[trigger] c[i]).file_path == f by {
        if i < b.len() {
            assert(c[i] == c.take(b.len() as int)[i]);
            assert(b[i].file_path == f);
        }
    }
}

proof fn lemma_uses_trans(a: Seq<UsageView>, b: Seq<UsageView>, c: Seq<UsageView>, f: Seq<char>)
    requires
        uses_grow_in(a, b, f),
        uses_grow_in(b, c, f),
    ensures
        uses_grow_in(a, c, f),
{
    assert(c.take(a.len() as int) =~= c.take(b.len() as int).take(a.len() as int));
    assert forall|i: int| a.len() <= i < c.len() implies (#[trigger] c[i]).file_path == f by {
        if i < b.len() {
            assert(c[i] == c.take(b.len() as int)[i]);
            assert(b[i].file_path == f);
        }
    }
}

proof fn lemma_undeclared_trans(a: Seq<UndeclaredView>, b: Seq<UndeclaredView>, c: Seq<UndeclaredView>, f: Seq<char>)
    requires
        undeclared_grow_in(a, b, f),
        undeclared_grow_in(b, c, f),
    ensures
        undeclared_grow_in(a, c, f),
{
    assert(c.take(a.len() as int) =~= c.take(b.len() as int).take(a.len() as int));
    assert forall|i: int| a.len() <= i < c.len() implies (#[trigger] c[i]).file_path == f by {
        if i < b.len() {
            assert(c[i] == c.take(b.len() as int)[i]);
            assert(b[i].file_path == f);
        }
    }
}

proof fn lemma_uses_append(a: Seq<UsageView>, d: Seq<UsageView>, f: Seq<char>)
    requires
        forall|i: int| 0 <= i < d.len() ==> (#[trigger] d[i]).file_path == f,
    ensures
        uses_grow_in(a, a + d, f),
{
    assert((a + d).take(a.len() as int) =~= a);
    assert forall|i: int| a.len() <= i < (a + d).len() implies (#[trigger] (a + d)[i]).file_path == f by {
        assert((a + d)[i] == d[i - a.len()]);
    }
}

proof fn lemma_defs_append(a: Seq<DefinitionView>, d: Seq<DefinitionView>, f: Seq<char>)
    requires
        forall|i: int| 0 <= i < d.len() ==> (#[trigger] d[i]).file_path == f,
    ensures
        defs_grow_in(a, a + d, f),
{
    assert((a + d).take(a.len() as int) =~= a);
    assert forall|i: int| a.len() <= i < (a + d).len() implies (#[trigger] (a + d)[i]).file_path == f by {
        assert((a + d)[i] == d[i - a.len()]);
    }
}

proof fn lemma_param_usages_in(ps: Seq<ParamFacts>, f: Seq<char>)
    ensures
        forall|i: int| 0 <= i < param_usages(ps, f).len() ==> (#[trigger] param_usages(ps, f)[i]).file_path == f,
    decreases ps.len(),
{
    if ps.len() > 0 {
        lemma_param_usages_in(ps.drop_last(), f);
        let r = param_usages(ps.drop_last(), f);
        assert forall|i: int| 0 <= i < param_usages(ps, f).len() implies (#[trigger] param_usages(ps, f)[i]).file_path
            == f by {
            if i < r.len() {
                assert(param_usages(ps, f)[i] == r[i]);
            }
        }
    }
}

proof fn lemma_function_usages_in(fx: FunctionFacts, f: Seq<char>)
    ensures
        forall|i: int| 0 <= i < function_usages(fx, f).len() ==> (#[trigger] function_usages(fx, f)[i]).file_path
            == f,
{
    lemma_param_usages_in(fx.params@, f);
    let a = mark_usages(fx.usefixtures@, f);
    let b = mark_usages(fx.indirect@, f);
    let p = param_usages(fx.params@, f);
    let c = if fx.fixture is Some {
        p
    } else {
        Seq::empty()
    };
    let d = if crate::analysis::is_test_function(fx.name@) {
        p
    } else {
        Seq::empty()
    };
    assert(function_usages(fx, f) == a + b + c + d);
    assert forall|i: int| 0 <= i < (a + b + c + d).len() implies (#[trigger] (a + b + c + d)[i]).file_path == f by {
        if i < a.len() {
            assert((a + b + c + d)[i] == a[i]);
        } else if i < a.len() + b.len() {
            assert((a + b + c + d)[i] == b[i - a.len()]);
        } else if i < a.len() + b.len() + c.len() {
            assert((a + b + c + d)[i] == c[i - a.len() - b.len()]);
        } else {
            assert((a + b + c + d)[i] == d[i - a.len() - b.len() - c.len()]);
        }
    }
}

/// The text between byte offsets `start` and `end` of `s`, or nothing when
/// they do not fall on character boundaries in order.
pub open spec fn byte_slice(s: Seq<char>, start: usize, end: usize) -> Seq<char> {
    match (char_at_byte(s, start as int), char_at_byte(s, end as int)) {
        (Some(a), Some(b)) => if a <= b {
            s.subrange(a, b)
        } else {
            Seq::empty()
        },
        _ => Seq::empty(),
    }
}

/// The text of `content` between byte offsets `start` and `end`.
pub fn byte_text(content: &Vec<char>, start: usize, end: usize) -> (r: String)
    ensures
        r@ == byte_slice(content@, start, end),
{
    match (char_index_at_byte(content, start), char_index_at_byte(content, end)) {
        (Some(a), Some(b)) => if a <= b {
            string_of(&slice_range(content, a, b))
        } else {
            string_of(&Vec::new())
        },
        _ => string_of(&Vec::new()),
    }
}

/// The return type a fixture declares: its annotation, or for a generator
/// (a body that yields) the first argument of a subscript annotation
/// (`Generator[T, ...]` gives `T`).
pub open spec fn return_type_of(content: Seq<char>, annotation: Option<PyAnnotation>, yields: bool) -> Option<Seq<char>> {
    match annotation {
        None => None,
        Some(a) => if yields {
            match a.slice {
                Some(sl) => if sl.is_tuple {
                    match sl.first {
                        Some((x, y)) => Some(byte_slice(content, x, y)),
                        None => None,
                    }
                } else {
                    Some(byte_slice(content, sl.start, sl.end))
                },
                None => None,
            }
        } else {
            Some(byte_slice(content, a.start, a.end))
        },
    }
}

/// The return type text of a function, as [`return_type_of`] states it.
pub fn return_type_text(content: &Vec<char>, annotation: &Option<PyAnnotation>, yields: bool) -> (r: Option<String>)
    ensures
        match r {
            Some(t) => return_type_of(content@, *annotation, yields) == Some(t@),
            None => return_type_of(content@, *annotation, yields) is None,
        },
{
    match annotation {
        None => None,
        Some(a) => if yields {
            match &a.slice {
                Some(sl) => if sl.is_tuple {
                    match sl.first {
                        Some((x, y)) => Some(byte_text(content, x, y)),
                        None => None,
                    }
                } else {
                    Some(byte_text(content, sl.start, sl.end))
                },
                None => None,
            }
        } else {
            Some(byte_text(content, a.start, a.end))
        },
    }
}

pub open spec fn index_ok(index: Seq<usize>) -> bool {
    increasing(index) && index.len() > 0 && index[0] == 0
}

impl FixtureDatabase {
    /// The marks found at the given byte ranges, with their lines and
    /// characters; a mark whose range cannot bound a string is left out.
    fn marks_of(&self, index: &Vec<usize>, found: Vec<PyName>) -> (r: Vec<MarkedName>)
        requires
            index_ok(index@),
        ensures
            marks_fit(r@),
    {
        let mut out: Vec<MarkedName> = Vec::new();
        let mut i: usize = 0;
        while i < found.len()
            invariant
                i <= found@.len(),
                index_ok(index@),
                marks_fit(out@),
            decreases found@.len() - i,
        {
            let n = &found[i];
            let line = self.get_line_from_offset(n.start, index);
            let sc = self.get_char_position_from_offset(n.start, index);
            let ec = self.get_char_position_from_offset(n.end, index);
            if sc < usize::MAX && ec >= 1 {
                let ghost before = out@;
                out.push(MarkedName { name: string_of(&chars_of(n.id.as_str())), line, start_char: sc, end_char: ec });
                assert forall|k: int| 0 <= k < out@.len() implies (#[trigger] out@[k]).start_char < usize::MAX
                    && out@[k].end_char >= 1 by {
                    if k < before.len() {
                        assert(out@[k] == before[k]);
                    }
                }
            }
            i = i + 1;
        }
        out
    }

    fn append_marks(&self, index: &Vec<usize>, acc: &mut Vec<MarkedName>, found: Vec<PyName>)
        requires
            index_ok(index@),
            marks_fit(old(acc)@),
        ensures
            marks_fit(final(acc)@),
    {
        let ms = self.marks_of(index, found);
        let mut k: usize = 0;
        while k < ms.len()
            invariant
                k <= ms@.len(),
                marks_fit(ms@),
                marks_fit(acc@),
            decreases ms@.len() - k,
        {
            let m = &ms[k];
            assert(ms@[k as int].start_char < usize::MAX && ms@[k as int].end_char >= 1);
            let ghost before = acc@;
            acc.push(MarkedName { name: string_of(&chars_of(m.name.as_str())), line: m.line, start_char: m.start_char, end_char: m.end_char });
            assert forall|q: int| 0 <= q < acc@.len() implies (#[trigger] acc@[q]).start_char < usize::MAX
                && acc@[q].end_char >= 1 by {
                if q < before.len() {
                    assert(acc@[q] == before[q]);
                }
            }
            k = k + 1;
        }
    }

    /// What the syntax tree says of a function definition, gathered for
    /// recording: its marks, its fixture decorator, its lines, its
    /// parameters, where its name is, its return type (with aliases expanded
    /// and the imports it needs), its docstring and where it yields. `None`
    /// where a position would not fit in a `usize`.
    fn function_facts(
        &self,
        content: &str,
        cs: &Vec<char>,
        index: &Vec<usize>,
        name: &String,
        decorators: &Vec<PyExpr>,
        params: &Vec<PyParam>,
        annotation: &Option<PyAnnotation>,
        body: &Vec<PyStmt>,
        start: usize,
        end: usize,
        import_map: &Vec<(String, TypeImportSpec)>,
        module_level: &Vec<String>,
        aliases: &[(String, String)],
        fixture_module: Option<&str>,
    ) -> (r: Option<FunctionFacts>)
        requires
            index_ok(index@),
            cs@ == content@,
        ensures
            match r {
                Some(f) => marks_fit(f.usefixtures@) && marks_fit(f.indirect@) && params_fit(f.params@)
                    && f.name@ == name@,
                None => true,
            },
    {
        let mut usefixtures: Vec<MarkedName> = Vec::new();
        let mut indirect: Vec<MarkedName> = Vec::new();
        let mut fixture: Option<FixtureMark> = None;
        let mut i: usize = 0;
        while i < decorators.len()
            invariant
                i <= decorators@.len(),
                index_ok(index@),
                marks_fit(usefixtures@),
                marks_fit(indirect@),
            decreases decorators@.len() - i,
        {
            let d = &decorators[i];
            self.append_marks(index, &mut usefixtures, usefixtures_names(d));
            self.append_marks(index, &mut indirect, parametrize_indirect(d));
            if fixture.is_none() && is_fixture_decorator(d) {
                fixture = Some(FixtureMark { custom_name: fixture_name(d), scope: fixture_scope(d), autouse: fixture_autouse(d) });
            }
            i = i + 1;
        }
        let line = self.get_line_from_offset(start, index);
        let end_line = self.get_line_from_offset(end, index);
        let mut ps: Vec<ParamFacts> = Vec::new();
        let mut k: usize = 0;
        while k < params.len()
            invariant
                k <= params@.len(),
                index_ok(index@),
                params_fit(ps@),
            decreases params@.len() - k,
        {
            let p = &params[k];
            let pl = self.get_line_from_offset(p.start, index);
            let pc = self.get_char_position_from_offset(p.start, index);
            let pn = chars_of(p.name.as_str());
            let nb = match crate::actions::byte_len(&pn) {
                Some(b) => b,
                None => {
                    return None;
                },
            };
            if pc > usize::MAX - nb {
                return None;
            }
            let ghost before = ps@;
            ps.push(ParamFacts { name: string_of(&pn), line: pl, start_char: pc });
            assert forall|q: int| 0 <= q < ps@.len() implies (#[trigger] ps@[q]).start_char + crate::lsp::utf8_len(
                ps@[q].name@,
            ) <= usize::MAX by {
                if q < before.len() {
                    assert(ps@[q] == before[q]);
                }
            }
            k = k + 1;
        }
        let (name_start, name_end) = match function_name_position(content, line, name.as_str()) {
            Some(x) => x,
            None => {
                return None;
            },
        };
        let yield_at = find_yield(body);
        let yield_line = match yield_at {
            Some(off) => Some(self.get_line_from_offset(off, index)),
            None => None,
        };
        let return_type = if fixture.is_some() {
            match return_type_text(cs, annotation, yield_at.is_some()) {
                Some(rt) => if aliases.len() == 0 {
                    Some(rt)
                } else {
                    Some(FixtureDatabase::expand_type_aliases(rt.as_str(), aliases))
                },
                None => None,
            }
        } else {
            None
        };
        let return_type_imports = match &return_type {
            Some(rt) => self.resolve_return_type_imports(rt.as_str(), import_map.as_slice(), module_level.as_slice(), fixture_module),
            None => Vec::new(),
        };
        let docstring = if fixture.is_some() {
            match raw_docstring(body) {
                Some(raw) => if can_format_docstring(raw.as_str()) {
                    Some(self.format_docstring(raw))
                } else {
                    None
                },
                None => None,
            }
        } else {
            None
        };
        Some(
            FunctionFacts {
                name: string_of(&chars_of(name.as_str())),
                line,
                end_line,
                name_start,
                name_end,
                usefixtures,
                indirect,
                fixture,
                params: ps,
                docstring,
                return_type,
                return_type_imports,
                yield_line,
            },
        )
    }
}

impl FixtureDatabase {
    /// Records what one statement of file `file_path` says: the fixtures an
    /// assignment `name = pytest.fixture(...)(func)` defines, the
    /// `usefixtures` marks of a `pytestmark` assignment, a class's
    /// `usefixtures` decorators and its statements, and a function's
    /// definition, usages and the fixtures its body uses undeclared.
    fn visit_statement(
        &mut self,
        file_path: &str,
        content: &str,
        cs: &Vec<char>,
        index: &Vec<usize>,
        import_map: &Vec<(String, TypeImportSpec)>,
        module_level: &Vec<String>,
        aliases: &[(String, String)],
        origin: &ModuleOrigin,
        s: &PyStmt,
    )
        requires
            index_ok(index@),
            cs@ == content@,
        ensures
            defs_grow_in(old(self).defs(), final(self).defs(), file_path@),
            uses_grow_in(old(self).uses(), final(self).uses(), file_path@),
            undeclared_grow_in(
                undeclared_views(old(self).undeclared_fixtures@),
                undeclared_views(final(self).undeclared_fixtures@),
                file_path@,
            ),
            final(self).fimports() == old(self).fimports(),
            final(self).imports == old(self).imports,
        decreases s,
    {
        let ghost d0 = self.defs();
        let ghost u0 = self.uses();
        let ghost n0 = undeclared_views(self.undeclared_fixtures@);
        proof {
            lemma_defs_append(d0, Seq::empty(), file_path@);
            lemma_uses_append(u0, Seq::empty(), file_path@);
            assert(d0 + Seq::<DefinitionView>::empty() =~= d0);
            assert(u0 + Seq::<UsageView>::empty() =~= u0);
            assert(n0.take(n0.len() as int) =~= n0);
        }
        // `name = pytest.fixture(...)(func)`
        let (targets, call) = assignment_fixtures(s);
        if let Some(c) = call {
            let at = match s {
                PyStmt::Assign { start, .. } => *start,
                _ => 0,
            };
            let line = self.get_line_from_offset(at, index);
            let scope = fixture_scope(c);
            let mut k: usize = 0;
            while k < targets.len()
                invariant
                    k <= targets@.len(),
                    index_ok(index@),
                    defs_grow_in(d0, self.defs(), file_path@),
                    self.uses() == u0,
                    undeclared_views(self.undeclared_fixtures@) == n0,
                    self.fimports() == old(self).fimports(),
                    self.imports == old(self).imports,
                decreases targets@.len() - k,
            {
                let t = &targets[k];
                let sc = self.get_char_position_from_offset(t.start, index);
                let ec = self.get_char_position_from_offset(t.end, index);
                let ghost before = self.defs();
                self.record_assignment_fixture(
                    file_path,
                    t.id.as_str(),
                    line,
                    sc,
                    ec,
                    scope,
                    origin.third_party,
                    origin.plugin,
                );
                proof {
                    let d = seq![self.defs().last()];
                    assert(self.defs() =~= before + d);
                    lemma_defs_append(before, d, file_path@);
                    lemma_defs_trans(d0, before, self.defs(), file_path@);
                }
                k = k + 1;
            }
        }
        // `pytestmark = ...`
        if let Some(v) = pytestmark_value(s) {
            let ms = self.marks_of(index, usefixtures_from_expr(v));
            let ghost before = self.uses();
            self.record_marked_usages(file_path, &ms);
            proof {
                lemma_uses_append(before, mark_usages(ms@, file_path@), file_path@);
                lemma_uses_trans(u0, before, self.uses(), file_path@);
            }
        }
        match s {
            PyStmt::ClassDef { decorators, body, .. } => {
                let mut i: usize = 0;
                while i < decorators.len()
                    invariant
                        i <= decorators@.len(),
                        index_ok(index@),
                        defs_grow_in(d0, self.defs(), file_path@),
                        uses_grow_in(u0, self.uses(), file_path@),
                        undeclared_views(self.undeclared_fixtures@) == n0,
                        self.fimports() == old(self).fimports(),
                        self.imports == old(self).imports,
                    decreases decorators@.len() - i,
                {
                    let ms = self.marks_of(index, usefixtures_names(&decorators[i]));
                    let ghost before = self.uses();
                    self.record_marked_usages(file_path, &ms);
                    proof {
                        lemma_uses_append(before, mark_usages(ms@, file_path@), file_path@);
                        lemma_uses_trans(u0, before, self.uses(), file_path@);
                    }
                    i = i + 1;
                }
                let mut j: usize = 0;
                while j < body.len()
                    invariant
                        j <= body@.len(),
                        index_ok(index@),
                        cs@ == content@,
                        *s == (PyStmt::ClassDef { name: s->ClassDef_name, decorators: *decorators, body: *body, start: s->ClassDef_start }),
                        defs_grow_in(d0, self.defs(), file_path@),
                        uses_grow_in(u0, self.uses(), file_path@),
                        undeclared_grow_in(n0, undeclared_views(self.undeclared_fixtures@), file_path@),
                        self.fimports() == old(self).fimports(),
                        self.imports == old(self).imports,
                    decreases body@.len() - j,
                {
                    proof {
                        assert(decreases_to!(*s => s->ClassDef_body));
                        assert(decreases_to!(s->ClassDef_body => s->ClassDef_body@));
                        assert(decreases_to!(s->ClassDef_body@ => s->ClassDef_body@[j as int]));
                    }
                    let ghost (d1, u1, n1) = (self.defs(), self.uses(), undeclared_views(self.undeclared_fixtures@));
                    self.visit_statement(file_path, content, cs, index, import_map, module_level, aliases, origin, &body[j]);
                    proof {
                        lemma_defs_trans(d0, d1, self.defs(), file_path@);
                        lemma_uses_trans(u0, u1, self.uses(), file_path@);
                        lemma_undeclared_trans(n0, n1, undeclared_views(self.undeclared_fixtures@), file_path@);
                    }
                    j = j + 1;
                }
            },
            PyStmt::FunctionDef { name, decorators, params, return_annotation, body, start, end } => {
                let fixture_module: Option<&str> = match &origin.module {
                    Some(m) => Some(m.as_str()),
                    None => None,
                };
                let facts = match self.function_facts(
                    content,
                    cs,
                    index,
                    name,
                    decorators,
                    params,
                    return_annotation,
                    body,
                    *start,
                    *end,
                    import_map,
                    module_level,
                    aliases,
                    fixture_module,
                ) {
                    Some(f) => f,
                    None => {
                        return ;
                    },
                };
                let ghost (d1, u1) = (self.defs(), self.uses());
                let scans = self.record_function(file_path, &facts, origin.third_party, origin.plugin);
                proof {
                    lemma_function_usages_in(facts, file_path@);
                    lemma_uses_append(u1, function_usages(facts, file_path@), file_path@);
                    lemma_uses_trans(u0, u1, self.uses(), file_path@);
                    let added = self.defs().skip(d1.len() as int);
                    assert(self.defs() =~= d1 + added);
                    lemma_defs_append(d1, added, file_path@);
                    lemma_defs_trans(d0, d1, self.defs(), file_path@);
                }
                if scans.len() == 0 {
                    return ;
                }
                let bindings = collect_local_variables(body);
                let mut locals: Vec<(String, usize)> = Vec::new();
                let mut b: usize = 0;
                while b < bindings.len()
                    invariant
                        b <= bindings@.len(),
                        index_ok(index@),
                    decreases bindings@.len() - b,
                {
                    let l = self.get_line_from_offset(bindings[b].at, index);
                    locals.push((string_of(&chars_of(bindings[b].name.as_str())), l));
                    b = b + 1;
                }
                let imported = self.imports_for_file(file_path);
                let mut m: usize = 0;
                while m < imported.len()
                    invariant
                        m <= imported@.len(),
                    decreases imported@.len() - m,
                {
                    locals.push((string_of(&chars_of(imported[m].as_str())), 0));
                    m = m + 1;
                }
                let names = names_in_body(body);
                let ghost n1 = undeclared_views(self.undeclared_fixtures@);
                let mut sc: usize = 0;
                while sc < scans.len()
                    invariant
                        sc <= scans@.len(),
                        index_ok(index@),
                        defs_grow_in(d0, self.defs(), file_path@),
                        uses_grow_in(u0, self.uses(), file_path@),
                        undeclared_grow_in(n0, undeclared_views(self.undeclared_fixtures@), file_path@),
                        self.fimports() == old(self).fimports(),
                        self.imports == old(self).imports,
                    decreases scans@.len() - sc,
                {
                    let scan = &scans[sc];
                    let mut q: usize = 0;
                    while q < names.len()
                        invariant
                            q <= names@.len(),
                            index_ok(index@),
                            defs_grow_in(d0, self.defs(), file_path@),
                            uses_grow_in(u0, self.uses(), file_path@),
                            undeclared_grow_in(n0, undeclared_views(self.undeclared_fixtures@), file_path@),
                            self.fimports() == old(self).fimports(),
                            self.imports == old(self).imports,
                        decreases names@.len() - q,
                    {
                        let n = &names[q];
                        let line = self.get_line_from_offset(n.start, index);
                        let c1 = self.get_char_position_from_offset(n.start, index);
                        let c2 = self.get_char_position_from_offset(n.end, index);
                        let ghost before = undeclared_views(self.undeclared_fixtures@);
                        self.record_name_reference(
                            file_path,
                            n.id.as_str(),
                            line,
                            c1,
                            c2,
                            scan.declared.as_slice(),
                            locals.as_slice(),
                            scan.function_name.as_str(),
                            scan.function_line,
                        );
                        proof {
                            let after = undeclared_views(self.undeclared_fixtures@);
                            assert(undeclared_grow_in(before, after, file_path@)) by {
                                assert(after.take(before.len() as int) =~= before);
                            }
                            lemma_undeclared_trans(n0, before, after, file_path@);
                        }
                        q = q + 1;
                    }
                    sc = sc + 1;
                }
            },
            _ => {},
        }
    }

    /// Analyzes the parsed module `module` of file `file_path` (text
    /// `content`, type aliases `aliases`): forgets what was recorded of the
    /// file (its definitions too when `cleanup`), records its module-level
    /// names and the fixtures it imports, then what each statement says.
    /// Everything recorded is recorded for `file_path`, after what is kept.
    pub fn analyze_module(
        &mut self,
        file_path: &str,
        content: &str,
        module: &Vec<PyStmt>,
        aliases: &[(String, String)],
        origin: &ModuleOrigin,
        cleanup: bool,
    )
        ensures
            defs_grow_in(
                if cleanup {
                    without_file(old(self).defs(), file_path@)
                } else {
                    old(self).defs()
                },
                final(self).defs(),
                file_path@,
            ),
            uses_grow_in(usages_without_file(old(self).uses(), file_path@), final(self).uses(), file_path@),
            undeclared_grow_in(
                undeclared_without_file(undeclared_views(old(self).undeclared_fixtures@), file_path@),
                undeclared_views(final(self).undeclared_fixtures@),
                file_path@,
            ),
            final(self).module_names() == names_without_file(old(self).module_names(), file_path@).push(
                (file_path@, module_names(module@, module@.len() as int)),
            ),
            final(self).fimports() == names_without_file(old(self).fimports(), file_path@).push(
                (file_path@, from_imported_names(module@, module@.len() as int)),
            ),
    {
        self.begin_analysis(file_path, cleanup);
        let module_level = collect_module_level_names(module);
        self.set_module_names(file_path, collect_module_level_names(module));
        self.set_fixture_imports(file_path, imported_names(module));
        let ghost mn = self.module_names();
        let ghost fi = self.fimports();
        let ghost d0 = self.defs();
        let ghost u0 = self.uses();
        let ghost n0 = undeclared_views(self.undeclared_fixtures@);
        proof {
            assert(d0.take(d0.len() as int) =~= d0);
            assert(u0.take(u0.len() as int) =~= u0);
            assert(n0.take(n0.len() as int) =~= n0);
        }
        let index = FixtureDatabase::build_line_index(content);
        let cs = chars_of(content);
        let import_map = build_import_map(module);
        let mut i: usize = 0;
        while i < module.len()
            invariant
                i <= module@.len(),
                index_ok(index@),
                cs@ == content@,
                defs_grow_in(d0, self.defs(), file_path@),
                uses_grow_in(u0, self.uses(), file_path@),
                undeclared_grow_in(n0, undeclared_views(self.undeclared_fixtures@), file_path@),
                self.fimports() == fi,
                self.module_names() == mn,
            decreases module@.len() - i,
        {
            let ghost (d1, u1, n1) = (self.defs(), self.uses(), undeclared_views(self.undeclared_fixtures@));
            self.visit_statement(file_path, content, &cs, &index, &import_map, &module_level, aliases, origin, &module[i]);
            proof {
                lemma_defs_trans(d0, d1, self.defs(), file_path@);
                lemma_uses_trans(u0, u1, self.uses(), file_path@);
                lemma_undeclared_trans(n0, n1, undeclared_views(self.undeclared_fixtures@), file_path@);
            }
            i = i + 1;
        }
    }
}

} // verus!
