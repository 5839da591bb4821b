//! What analyzing a module records: fixture definitions from decorated
//! functions and `name = pytest.fixture()(func)` assignments, and usages from
//! parameters and from `usefixtures` / indirect `parametrize` strings. The
//! syntax tree is read outside; these functions take what was read there.
use vstd::prelude::*;

use crate::db::FixtureDatabase;
use crate::lsp::utf8_len;
use crate::text::{chars_eq, chars_of, seq_starts_with, starts_with, string_from_chars};
use crate::types::{
    duplicate_imports, import_views, opt_view, option_string_dup, string_views, DefinitionView,
    FixtureDefinition, FixtureScope, FixtureUsage, TypeImportSpec, UsageView,
};

verus! {

/// A fixture name written as a string (in `usefixtures`, in `pytestmark`, or
/// as an indirect `parametrize` argument): the literal's line and the
/// character positions of its quotes.
#[derive(Debug)]
pub struct MarkedName {
    pub name: String,
    pub line: usize,
    pub start_char: usize,
    pub end_char: usize,
}

/// A parameter of a function: its name, 1-based line and start character.
#[derive(Debug)]
pub struct ParamFacts {
    pub name: String,
    pub line: usize,
    pub start_char: usize,
}

/// What a `@pytest.fixture` decorator says: a `name=` given, the `scope=`
/// given, and whether `autouse=True`.
#[derive(Debug)]
pub struct FixtureMark {
    pub custom_name: Option<String>,
    pub scope: Option<FixtureScope>,
    pub autouse: bool,
}

/// What the syntax tree says of one function definition.
#[derive(Debug)]
pub struct FunctionFacts {
    pub name: String,
    /// 1-based lines of the start and the end of the definition.
    pub line: usize,
    pub end_line: usize,
    /// Character range of the function's name on its `def` line.
    pub name_start: usize,
    pub name_end: usize,
    /// Names from `@pytest.mark.usefixtures(...)` decorators.
    pub usefixtures: Vec<MarkedName>,
    /// Names from `@pytest.mark.parametrize(..., indirect=...)` decorators.
    pub indirect: Vec<MarkedName>,
    /// The fixture decorator, if the function has one.
    pub fixture: Option<FixtureMark>,
    pub params: Vec<ParamFacts>,
    pub docstring: Option<String>,
    pub return_type: Option<String>,
    pub return_type_imports: Vec<TypeImportSpec>,
    pub yield_line: Option<usize>,
}

/// A function body to search for fixtures used without being declared: the
/// function, its line, and the names it declares.
#[derive(Debug)]
pub struct BodyScan {
    pub function_name: String,
    pub function_line: usize,
    pub declared: Vec<String>,
}

/// The usage a string mark records: between the quotes, not a parameter.
pub open spec fn mark_usage(m: MarkedName, f: Seq<char>) -> UsageView {
    UsageView {
        name: m.name@,
        file_path: f,
        line: m.line,
        start_char: (m.start_char + 1) as usize,
        end_char: (m.end_char - 1) as usize,
        is_parameter: false,
    }
}

pub open spec fn mark_usages(ms: Seq<MarkedName>, f: Seq<char>) -> Seq<UsageView> {
    ms.map_values(|m: MarkedName| mark_usage(m, f))
}

/// The usages the parameters `ps` record: all but `self`, each spanning its
/// name.
pub open spec fn param_usages(ps: Seq<ParamFacts>, f: Seq<char>) -> Seq<UsageView>
    decreases ps.len(),
{
    if ps.len() == 0 {
        Seq::empty()
    } else {
        let r = param_usages(ps.drop_last(), f);
        let p = ps.last();
        if p.name@ == "self"@ {
            r
        } else {
            r.push(
                UsageView {
                    name: p.name@,
                    file_path: f,
                    line: p.line,
                    start_char: p.start_char,
                    end_char: (p.start_char + utf8_len(p.name@)) as usize,
                    is_parameter: true,
                },
            )
        }
    }
}

/// The dependencies a fixture's parameters `ps` declare: all but `self` and
/// `request`.
pub open spec fn param_dependencies(ps: Seq<ParamFacts>) -> Seq<Seq<char>>
    decreases ps.len(),
{
    if ps.len() == 0 {
        Seq::empty()
    } else {
        let r = param_dependencies(ps.drop_last());
        let n = ps.last().name@;
        if n == "self"@ || n == "request"@ {
            r
        } else {
            r.push(n)
        }
    }
}

pub open spec fn param_names(ps: Seq<ParamFacts>) -> Seq<Seq<char>> {
    ps.map_values(|p: ParamFacts| p.name@)
}

/// A function named `test_*`.
pub open spec fn is_test_function(name: Seq<char>) -> bool {
    seq_starts_with(name, "test_"@)
}

/// The definition a fixture function records in file `f`.
pub open spec fn function_definition(
    fx: FunctionFacts,
    mark: FixtureMark,
    f: Seq<char>,
    third_party: bool,
    plugin: bool,
) -> DefinitionView {
    DefinitionView {
        name: match mark.custom_name {
            Some(n) => n@,
            None => fx.name@,
        },
        file_path: f,
        line: fx.line,
        end_line: fx.end_line,
        start_char: fx.name_start,
        end_char: fx.name_end,
        docstring: opt_view(fx.docstring),
        return_type: opt_view(fx.return_type),
        return_type_imports: import_views(fx.return_type_imports@),
        is_third_party: third_party,
        is_plugin: plugin,
        dependencies: param_dependencies(fx.params@),
        scope: match mark.scope {
            Some(s) => s,
            None => FixtureScope::Function,
        },
        yield_line: fx.yield_line,
        autouse: mark.autouse,
    }
}

/// The usages a function records in file `f`: its `usefixtures` strings,
/// its indirect `parametrize` strings, then its parameters once if it is a
/// fixture and once more if it is a test.
pub open spec fn function_usages(fx: FunctionFacts, f: Seq<char>) -> Seq<UsageView> {
    mark_usages(fx.usefixtures@, f) + mark_usages(fx.indirect@, f) + (if fx.fixture is Some {
        param_usages(fx.params@, f)
    } else {
        Seq::empty()
    }) + (if is_test_function(fx.name@) {
        param_usages(fx.params@, f)
    } else {
        Seq::empty()
    })
}

/// The bodies to search for undeclared fixtures: a fixture's (declaring
/// `self`, `request`, its own name and its parameters), then a test's
/// (declaring `self`, `request` and its parameters).
pub open spec fn function_body_scans(fx: FunctionFacts) -> Seq<(Seq<char>, usize, Seq<Seq<char>>)> {
    (if fx.fixture is Some {
        seq![(fx.name@, fx.line, seq!["self"@, "request"@, fx.name@] + param_names(fx.params@))]
    } else {
        Seq::empty()
    }) + (if is_test_function(fx.name@) {
        seq![(fx.name@, fx.line, seq!["self"@, "request"@] + param_names(fx.params@))]
    } else {
        Seq::empty()
    })
}

pub open spec fn scan_views(v: Seq<BodyScan>) -> Seq<(Seq<char>, usize, Seq<Seq<char>>)> {
    v.map_values(|b: BodyScan| (b.function_name@, b.function_line, string_views(b.declared@)))
}

/// The character positions of the marks fit their usages: after the opening
/// quote and before the closing one.
pub open spec fn marks_fit(ms: Seq<MarkedName>) -> bool {
    forall|k: int| 0 <= k < ms.len() ==> (#[trigger] ms[k]).start_char < usize::MAX && ms[k].end_char >= 1
}

/// Each parameter's end (start plus the UTF-8 length of its name) fits in a `usize`.
pub open spec fn params_fit(ps: Seq<ParamFacts>) -> bool {
    forall|k: int| 0 <= k < ps.len() ==> (#[trigger] ps[k]).start_char + utf8_len(ps[k].name@) <= usize::MAX
}

fn is_named(s: &String, lit: &str) -> (b: bool)
    ensures
        b == (s@ == lit@),
{
    chars_eq(&chars_of(s.as_str()), &chars_of(lit))
}

impl FixtureDatabase {
    /// Records the usages that the string marks `marks` in `file_path` make.
    pub fn record_marked_usages(&mut self, file_path: &str, marks: &Vec<MarkedName>)
        requires
            marks_fit(marks@),
        ensures
            final(self).uses() == old(self).uses() + mark_usages(marks@, file_path@),
            final(self).defs() == old(self).defs(),
            final(self).fimports() == old(self).fimports(),
            final(self).imports == old(self).imports,
            final(self).undeclared_fixtures == old(self).undeclared_fixtures,
    {
        let ghost start = self.uses();
        let mut i: usize = 0;
        while i < marks.len()
            invariant
                i <= marks@.len(),
                marks_fit(marks@),
                self.uses() == start + mark_usages(marks@.take(i as int), file_path@),
                self.defs() == old(self).defs(),
                self.fimports() == old(self).fimports(),
                self.imports == old(self).imports,
                self.undeclared_fixtures == old(self).undeclared_fixtures,
            decreases marks@.len() - i,
        {
            let m = &marks[i];
            assert(marks_fit(marks@) ==> marks@[i as int].start_char < usize::MAX);
            let u = FixtureUsage {
                name: m.name.clone(),
                file_path: string_from_chars(&chars_of(file_path)),
                line: m.line,
                start_char: m.start_char + 1,
                end_char: m.end_char - 1,
                is_parameter: false,
            };
            assert(u@ == mark_usage(*m, file_path@));
            self.record_fixture_usage(u);
            assert(marks@.take(i + 1) =~= marks@.take(i as int).push(*m));
            assert(mark_usages(marks@.take(i + 1), file_path@) =~= mark_usages(
                marks@.take(i as int),
                file_path@,
            ).push(mark_usage(*m, file_path@)));
            i = i + 1;
        }
        assert(marks@.take(marks@.len() as int) =~= marks@);
    }

    fn record_param_usages(&mut self, file_path: &str, params: &Vec<ParamFacts>)
        requires
            params_fit(params@),
        ensures
            final(self).uses() == old(self).uses() + param_usages(params@, file_path@),
            final(self).defs() == old(self).defs(),
            final(self).fimports() == old(self).fimports(),
            final(self).imports == old(self).imports,
            final(self).undeclared_fixtures == old(self).undeclared_fixtures,
    {
        let ghost start = self.uses();
        let mut i: usize = 0;
        while i < params.len()
            invariant
                i <= params@.len(),
                params_fit(params@),
                self.uses() == start + param_usages(params@.take(i as int), file_path@),
                self.defs() == old(self).defs(),
                self.fimports() == old(self).fimports(),
                self.imports == old(self).imports,
                self.undeclared_fixtures == old(self).undeclared_fixtures,
            decreases params@.len() - i,
        {
            let p = &params[i];
            assert(params@.take(i + 1).drop_last() =~= params@.take(i as int));
            assert(params@.take(i + 1).last() == *p);
            if !is_named(&p.name, "self") {
                assert(p.start_char + utf8_len(p.name@) <= usize::MAX);
                let w = match crate::actions::byte_len(&chars_of(p.name.as_str())) {
                    Some(w) => w,
                    None => 0,
                };
                let u = FixtureUsage {
                    name: p.name.clone(),
                    file_path: string_from_chars(&chars_of(file_path)),
                    line: p.line,
                    start_char: p.start_char,
                    end_char: p.start_char + w,
                    is_parameter: true,
                };
                let ghost before = self.uses();
                self.record_fixture_usage(u);
                assert(self.uses() =~= start + param_usages(params@.take(i + 1), file_path@));
            } else {
                assert(param_usages(params@.take(i + 1), file_path@) == param_usages(
                    params@.take(i as int),
                    file_path@,
                ));
            }
            i = i + 1;
        }
        assert(params@.take(params@.len() as int) =~= params@);
    }

    /// Records what function `facts` of `file_path` defines and uses, and
    /// returns the bodies to search for undeclared fixtures. `third_party`
    /// and `plugin` say where the file comes from.
    pub fn record_function(&mut self, file_path: &str, facts: &FunctionFacts, third_party: bool, plugin: bool) -> (r:
        Vec<BodyScan>)
        requires
            marks_fit(facts.usefixtures@),
            marks_fit(facts.indirect@),
            params_fit(facts.params@),
        ensures
            final(self).defs() == old(self).defs() + (match facts.fixture {
                Some(mark) => seq![function_definition(*facts, mark, file_path@, third_party, plugin)],
                None => Seq::empty(),
            }),
            final(self).uses() == old(self).uses() + function_usages(*facts, file_path@),
            final(self).fimports() == old(self).fimports(),
            scan_views(r@) == function_body_scans(*facts),
            final(self).imports == old(self).imports,
            final(self).undeclared_fixtures == old(self).undeclared_fixtures,
    {
        proof {
            reveal_strlit("self");
            reveal_strlit("request");
            reveal_strlit("test_");
        }
        self.record_marked_usages(file_path, &facts.usefixtures);
        self.record_marked_usages(file_path, &facts.indirect);
        let mut scans: Vec<BodyScan> = Vec::new();
        let ghost u0 = old(self).uses();
        let ghost d0 = old(self).defs();
        let ghost mid = u0 + mark_usages(facts.usefixtures@, file_path@) + mark_usages(facts.indirect@, file_path@);
        assert(self.uses() =~= mid);
        match &facts.fixture {
            Some(mark) => {
                let def = FixtureDefinition {
                    name: match &mark.custom_name {
                        Some(n) => n.clone(),
                        None => facts.name.clone(),
                    },
                    file_path: string_from_chars(&chars_of(file_path)),
                    line: facts.line,
                    end_line: facts.end_line,
                    start_char: facts.name_start,
                    end_char: facts.name_end,
                    docstring: option_string_dup(&facts.docstring),
                    return_type: option_string_dup(&facts.return_type),
                    return_type_imports: duplicate_imports(&facts.return_type_imports),
                    is_third_party: third_party,
                    is_plugin: plugin,
                    dependencies: dependencies_of(&facts.params),
                    scope: match mark.scope {
                        Some(s) => s,
                        None => FixtureScope::default(),
                    },
                    yield_line: facts.yield_line,
                    autouse: mark.autouse,
                };
                assert(def@ == function_definition(*facts, *mark, file_path@, third_party, plugin));
                self.record_fixture_definition(def);
                self.record_param_usages(file_path, &facts.params);
                let mut declared: Vec<String> = Vec::new();
                declared.push(string_from_chars(&chars_of("self")));
                declared.push(string_from_chars(&chars_of("request")));
                declared.push(facts.name.clone());
                push_names(&mut declared, &facts.params);
                assert(string_views(declared@) =~= seq!["self"@, "request"@, facts.name@] + param_names(
                    facts.params@,
                ));
                scans.push(BodyScan { function_name: facts.name.clone(), function_line: facts.line, declared });
            },
            None => {},
        }
        let ghost mid2 = self.uses();
        if starts_with(&chars_of(facts.name.as_str()), &chars_of("test_")) {
            self.record_param_usages(file_path, &facts.params);
            let mut declared: Vec<String> = Vec::new();
            declared.push(string_from_chars(&chars_of("self")));
            declared.push(string_from_chars(&chars_of("request")));
            push_names(&mut declared, &facts.params);
            assert(string_views(declared@) =~= seq!["self"@, "request"@] + param_names(facts.params@));
            let ghost sb = scan_views(scans@);
            scans.push(BodyScan { function_name: facts.name.clone(), function_line: facts.line, declared });
            assert(scan_views(scans@) =~= sb.push(
                (facts.name@, facts.line, seq!["self"@, "request"@] + param_names(facts.params@)),
            ));
        }
        assert(self.uses() =~= old(self).uses() + function_usages(*facts, file_path@));
        assert(self.defs() =~= old(self).defs() + (match facts.fixture {
            Some(mark) => seq![function_definition(*facts, mark, file_path@, third_party, plugin)],
            None => Seq::empty(),
        }));
        assert(scan_views(scans@) =~= function_body_scans(*facts));
        scans
    }

    /// Records the fixture an assignment `name = pytest.fixture(...)(func)`
    /// on `line` of `file_path` defines: single-line, without docstring,
    /// return type or dependencies, never autouse.
    pub fn record_assignment_fixture(
        &mut self,
        file_path: &str,
        name: &str,
        line: usize,
        start_char: usize,
        end_char: usize,
        scope: Option<FixtureScope>,
        third_party: bool,
        plugin: bool,
    )
        ensures
            final(self).defs() == old(self).defs().push(
                DefinitionView {
                    name: name@,
                    file_path: file_path@,
                    line: line,
                    end_line: line,
                    start_char: start_char,
                    end_char: end_char,
                    docstring: None,
                    return_type: None,
                    return_type_imports: Seq::empty(),
                    is_third_party: third_party,
                    is_plugin: plugin,
                    dependencies: Seq::empty(),
                    scope: match scope {
                        Some(s) => s,
                        None => FixtureScope::Function,
                    },
                    yield_line: None,
                    autouse: false,
                },
            ),
            final(self).uses() == old(self).uses(),
            final(self).fimports() == old(self).fimports(),
            final(self).imports == old(self).imports,
            final(self).undeclared_fixtures == old(self).undeclared_fixtures,
    {
        let def = FixtureDefinition {
            name: string_from_chars(&chars_of(name)),
            file_path: string_from_chars(&chars_of(file_path)),
            line: line,
            end_line: line,
            start_char: start_char,
            end_char: end_char,
            docstring: None,
            return_type: None,
            return_type_imports: Vec::new(),
            is_third_party: third_party,
            is_plugin: plugin,
            dependencies: Vec::new(),
            scope: match scope {
                Some(s) => s,
                None => FixtureScope::default(),
            },
            yield_line: None,
            autouse: false,
        };
        assert(import_views(def.return_type_imports@) =~= Seq::<(Seq<char>, Seq<char>)>::empty());
        assert(string_views(def.dependencies@) =~= Seq::<Seq<char>>::empty());
        self.record_fixture_definition(def);
    }
}

fn push_names(out: &mut Vec<String>, params: &Vec<ParamFacts>)
    ensures
        string_views(final(out)@) == string_views(old(out)@) + param_names(params@),
{
    let ghost start = string_views(out@);
    let mut i: usize = 0;
    while i < params.len()
        invariant
            i <= params@.len(),
            string_views(out@) == start + param_names(params@.take(i as int)),
        decreases params@.len() - i,
    {
        let ghost before = string_views(out@);
        let n = params[i].name.clone();
        out.push(n);
        assert(string_views(out@) =~= before.push(params@[i as int].name@));
        assert(param_names(params@.take(i + 1)) =~= param_names(params@.take(i as int)).push(
            params@[i as int].name@,
        ));
        assert(string_views(out@) =~= start + param_names(params@.take(i + 1)));
        i = i + 1;
    }
    assert(params@.take(params@.len() as int) =~= params@);
}

fn dependencies_of(params: &Vec<ParamFacts>) -> (r: Vec<String>)
    ensures
        string_views(r@) == param_dependencies(params@),
{
    proof {
        reveal_strlit("self");
        reveal_strlit("request");
    }
    let mut r: Vec<String> = Vec::new();
    let mut i: usize = 0;
    while i < params.len()
        invariant
            i <= params@.len(),
            string_views(r@) == param_dependencies(params@.take(i as int)),
        decreases params@.len() - i,
    {
        let p = &params[i];
        assert(params@.take(i + 1).drop_last() =~= params@.take(i as int));
        assert(params@.take(i + 1).last() == *p);
        if !is_named(&p.name, "self") && !is_named(&p.name, "request") {
            let ghost before = string_views(r@);
            r.push(p.name.clone());
            assert(string_views(r@) =~= before.push(p.name@));
        }
        i = i + 1;
    }
    assert(params@.take(params@.len() as int) =~= params@);
    r
}

} // verus!
