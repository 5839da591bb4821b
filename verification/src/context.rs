//! The completion context of a cursor in a file that parses: inside a
//! `usefixtures` or indirect `parametrize` decorator, or in the signature or
//! body of a test or fixture. What the syntax tree says arrives as outlines.
use vstd::prelude::*;

use crate::analysis::is_test_function;
use crate::completion::{context_matches, lines_len, scan_floor, text_completion, text_lines};
use crate::db::FixtureDatabase;
use crate::text::{chars_of, ends_with, lines, lines_of, seq_ends_with, starts_with, trim, trim_chars, views};
use crate::types::{string_views, CompletionContext, FixtureScope};

verus! {

/// What kind of decorator (or `pytestmark` call) a span covers.
#[derive(Debug, Clone, Copy, PartialEq, Eq, Structural)]
pub enum DecoratorKind {
    Usefixtures,
    Parametrize,
    Other,
}

/// The 1-based lines a decorator, or a `usefixtures` call assigned to
/// `pytestmark`, spans.
#[derive(Debug, Clone, Copy)]
pub struct DecoratorSpan {
    pub start_line: usize,
    pub end_line: usize,
    pub kind: DecoratorKind,
}

/// What the syntax tree says of a function, for completion.
#[derive(Debug)]
pub struct FunctionOutline {
    pub name: String,
    /// 1-based lines where the definition starts and ends.
    pub start_line: usize,
    pub end_line: usize,
    pub is_fixture: bool,
    /// The `scope=` of its fixture decorator, if given.
    pub scope: Option<FixtureScope>,
    pub params: Vec<String>,
    /// The line where its last parameter or return annotation ends, if any.
    pub last_signature_line: Option<usize>,
    /// The line of the first statement of its body, if any.
    pub first_body_line: Option<usize>,
}

/// The decorators and functions of a module that parsed, in the order a
/// walk of the module and its class bodies meets them.
#[derive(Debug)]
pub struct ModuleOutline {
    pub decorators: Vec<DecoratorSpan>,
    pub functions: Vec<FunctionOutline>,
}

/// The first index `k` from `i` on below `e` whose line ends with `:` once trimmed.
pub open spec fn first_colon_line(ls: Seq<Seq<char>>, i: int, e: int) -> Option<int>
    decreases e - i,
{
    if i < 0 || i >= e || i >= ls.len() {
        None
    } else if seq_ends_with(trim(ls[i]), ":"@) {
        Some(i)
    } else {
        first_colon_line(ls, i + 1, e)
    }
}

/// The 1-based line where a function's signature ends: the first line
/// ending in `:` from the line of its last signature element (at most ten
/// lines on, and not into the body); failing that, the line before the
/// body, but not above the `def`; failing that, the `def` line.
pub open spec fn signature_end_line(
    start: usize,
    last_sig: Option<usize>,
    first_body: Option<usize>,
    content: Seq<char>,
) -> int {
    let ls = lines_of(content);
    let last: int = match last_sig {
        Some(l) => l as int,
        None => start as int,
    };
    let cap = last + 10;
    let e0: int = match first_body {
        Some(b) => if b < cap {
            b as int
        } else {
            cap
        },
        None => cap,
    };
    let e: int = if e0 < ls.len() {
        e0
    } else {
        ls.len() as int
    };
    let s: int = if last >= 1 {
        last - 1
    } else {
        0
    };
    match first_colon_line(ls, s, e) {
        Some(k) => k + 1,
        None => match first_body {
            Some(b) => {
                let before: int = if b >= 1 {
                    b - 1
                } else {
                    0
                };
                if before > start {
                    before
                } else {
                    start as int
                }
            },
            None => start as int,
        },
    }
}

/// Function `o` offers completions at 1-based line `t`: `t` lies within it,
/// and it is a test or a fixture.
pub open spec fn outline_applies(o: FunctionOutline, t: usize) -> bool {
    o.start_line <= t <= o.end_line && (is_test_function(o.name@) || o.is_fixture)
}

/// `r` is the context that function `o` gives at line `t` of `content`: in
/// its signature up to the line where that ends, else in its body.
pub open spec fn function_context_is(r: Option<CompletionContext>, o: FunctionOutline, content: Seq<char>, t: usize) -> bool {
    let scope = if o.is_fixture {
        Some(
            match o.scope {
                Some(s) => s,
                None => FixtureScope::Function,
            },
        )
    } else {
        None
    };
    let in_sig = t <= signature_end_line(o.start_line, o.last_signature_line, o.first_body_line, content);
    match r {
        Some(
            CompletionContext::FunctionSignature {
                function_name,
                function_line,
                is_fixture,
                declared_params,
                fixture_scope,
            },
        ) => in_sig && function_name@ == o.name@ && function_line == o.start_line && is_fixture
            == o.is_fixture && string_views(declared_params@) == string_views(o.params@) && fixture_scope
            == scope,
        Some(
            CompletionContext::FunctionBody {
                function_name,
                function_line,
                is_fixture,
                declared_params,
                fixture_scope,
            },
        ) => !in_sig && function_name@ == o.name@ && function_line == o.start_line && is_fixture
            == o.is_fixture && string_views(declared_params@) == string_views(o.params@) && fixture_scope
            == scope,
        _ => false,
    }
}

/// The first function of `os`, from index `i` on, that offers completions at line `t`.
pub open spec fn first_applying(os: Seq<FunctionOutline>, t: usize, i: int) -> Option<int>
    decreases os.len() - i,
{
    if i < 0 || i >= os.len() {
        None
    } else if outline_applies(os[i], t) {
        Some(i)
    } else {
        first_applying(os, t, i + 1)
    }
}

/// The first function of `os`, from index `i` on, whose lines include `t`.
pub open spec fn first_containing(os: Seq<FunctionOutline>, t: usize, i: int) -> Option<int>
    decreases os.len() - i,
{
    if i < 0 || i >= os.len() {
        None
    } else if os[i].start_line <= t <= os[i].end_line {
        Some(i)
    } else {
        first_containing(os, t, i + 1)
    }
}

/// The first span of `ds`, from index `i` on, that covers line `t` and is a
/// `usefixtures` or `parametrize` one.
pub open spec fn first_decorator(ds: Seq<DecoratorSpan>, t: usize, i: int) -> Option<int>
    decreases ds.len() - i,
{
    if i < 0 || i >= ds.len() {
        None
    } else if ds[i].start_line <= t <= ds[i].end_line && ds[i].kind != DecoratorKind::Other {
        Some(i)
    } else {
        first_decorator(ds, t, i + 1)
    }
}

/// A signature's last line leaves room for the ten-line scan after it.
pub open spec fn outline_fits(o: FunctionOutline) -> bool {
    match o.last_signature_line {
        Some(l) => l <= usize::MAX - 10,
        None => o.start_line <= usize::MAX - 10,
    }
}

impl FixtureDatabase {
    /// The 1-based line where the signature of a function starting on
    /// `func_start_line` ends, given the line of its last signature element
    /// and of its first body statement.
    pub fn find_signature_end_line(
        &self,
        func_start_line: usize,
        last_signature_line: Option<usize>,
        first_body_line: Option<usize>,
        content: &str,
    ) -> (r: usize)
        requires
            match last_signature_line {
                Some(l) => l <= usize::MAX - 10,
                None => func_start_line <= usize::MAX - 10,
            },
        ensures
            r == signature_end_line(func_start_line, last_signature_line, first_body_line, content@),
    {
        proof {
            reveal_strlit(":");
        }
        let v = chars_of(content);
        let ls = lines(&v);
        let ghost lv = views(ls@);
        assert(lv == lines_of(content@));
        let last = match last_signature_line {
            Some(l) => l,
            None => func_start_line,
        };
        let cap = last + 10;
        let e0 = match first_body_line {
            Some(b) => if b < cap {
                b
            } else {
                cap
            },
            None => cap,
        };
        let e = if e0 < ls.len() {
            e0
        } else {
            ls.len()
        };
        let s = if last >= 1 {
            last - 1
        } else {
            0
        };
        let mut i = s;
        let colon = chars_of(":");
        let ghost fallback: int = match first_body_line {
            Some(b) => {
                let before: int = if b >= 1 {
                    b - 1
                } else {
                    0
                };
                if before > func_start_line {
                    before
                } else {
                    func_start_line as int
                }
            },
            None => func_start_line as int,
        };
        assert(signature_end_line(func_start_line, last_signature_line, first_body_line, content@) == match first_colon_line(lv, s as int, e as int) {
            Some(k) => k + 1,
            None => fallback,
        });
        while i < e
            invariant
                s <= i,
                e <= ls@.len(),
                lv == views(ls@),
                colon@ == ":"@,
                first_colon_line(lv, s as int, e as int) == first_colon_line(lv, i as int, e as int),
                signature_end_line(func_start_line, last_signature_line, first_body_line, content@) == match first_colon_line(lv, s as int, e as int) {
                    Some(k) => k + 1,
                    None => fallback,
                },
            decreases e - i,
        {
            assert(ls@[i as int]@ == lv[i as int]);
            let t = trim_chars(&ls[i]);
            if ends_with(&t, &colon) {
                return i + 1;
            }
            i = i + 1;
        }
        match first_body_line {
            Some(b) => {
                let before = if b >= 1 {
                    b - 1
                } else {
                    0
                };
                if before > func_start_line {
                    before
                } else {
                    func_start_line
                }
            },
            None => func_start_line,
        }
    }

    /// The completion context that function `outline` gives at 1-based line
    /// `target_line` of `content`, if it offers one.
    pub fn get_func_context(&self, outline: &FunctionOutline, content: &str, target_line: usize) -> (r:
        Option<CompletionContext>)
        requires
            outline_fits(*outline),
        ensures
            outline_applies(*outline, target_line) ==> function_context_is(r, *outline, content@, target_line),
            !outline_applies(*outline, target_line) ==> r is None,
    {
        if target_line < outline.start_line || target_line > outline.end_line {
            return None;
        }
        let is_test = starts_with(&chars_of(outline.name.as_str()), &chars_of("test_"));
        if !is_test && !outline.is_fixture {
            return None;
        }
        let fixture_scope = if outline.is_fixture {
            Some(
                match outline.scope {
                    Some(s) => s,
                    None => FixtureScope::Function,
                },
            )
        } else {
            None
        };
        let params = crate::types::duplicate_strings(&outline.params);
        let sig_end = self.find_signature_end_line(
            outline.start_line,
            outline.last_signature_line,
            outline.first_body_line,
            content,
        );
        if target_line <= sig_end {
            Some(
                CompletionContext::FunctionSignature {
                    function_name: outline.name.clone(),
                    function_line: outline.start_line,
                    is_fixture: outline.is_fixture,
                    declared_params: params,
                    fixture_scope: fixture_scope,
                },
            )
        } else {
            Some(
                CompletionContext::FunctionBody {
                    function_name: outline.name.clone(),
                    function_line: outline.start_line,
                    is_fixture: outline.is_fixture,
                    declared_params: params,
                    fixture_scope: fixture_scope,
                },
            )
        }
    }

    /// The context of the first function among `functions` that offers
    /// completions at line `target_line`.
    pub fn get_function_completion_context(
        &self,
        functions: &Vec<FunctionOutline>,
        content: &str,
        target_line: usize,
    ) -> (r: Option<CompletionContext>)
        requires
            forall|k: int| 0 <= k < functions@.len() ==> outline_fits(#[trigger] functions@[k]),
        ensures
            match first_applying(functions@, target_line, 0) {
                Some(k) => function_context_is(r, functions@[k], content@, target_line),
                None => r is None,
            },
    {
        let mut i: usize = 0;
        while i < functions.len()
            invariant
                i <= functions@.len(),
                forall|k: int| 0 <= k < functions@.len() ==> outline_fits(#[trigger] functions@[k]),
                first_applying(functions@, target_line, 0) == first_applying(functions@, target_line, i as int),
            decreases functions@.len() - i,
        {
            let o = &functions[i];
            let c = self.get_func_context(o, content, target_line);
            if c.is_some() {
                return c;
            }
            i = i + 1;
        }
        None
    }

    /// The first of `functions` that spans 1-based line `target_line` and is
    /// a test or a fixture: its name, whether it is a fixture, and its
    /// parameters.
    pub fn find_enclosing_function(&self, functions: &Vec<FunctionOutline>, target_line: usize) -> (r: Option<
        (String, bool, Vec<String>),
    >)
        ensures
            match first_applying(functions@, target_line, 0) {
                Some(k) => r matches Some((n, fx, ps)) && n@ == functions@[k].name@ && fx == functions@[k].is_fixture
                    && string_views(ps@) == string_views(functions@[k].params@),
                None => r is None,
            },
    {
        let mut i: usize = 0;
        while i < functions.len()
            invariant
                i <= functions@.len(),
                first_applying(functions@, target_line, 0) == first_applying(functions@, target_line, i as int),
            decreases functions@.len() - i,
        {
            let o = &functions[i];
            if o.start_line <= target_line && target_line <= o.end_line {
                let is_test = starts_with(&chars_of(o.name.as_str()), &chars_of("test_"));
                if is_test || o.is_fixture {
                    return Some((o.name.clone(), o.is_fixture, crate::types::duplicate_strings(&o.params)));
                }
            }
            i = i + 1;
        }
        None
    }

    /// Whether 0-based `line` lies in a test or fixture among `functions`,
    /// and which.
    pub fn is_inside_function(&self, functions: &Vec<FunctionOutline>, line: u32) -> (r: Option<
        (String, bool, Vec<String>),
    >)
        requires
            line < u32::MAX,
        ensures
            match first_applying(functions@, (line + 1) as usize, 0) {
                Some(k) => r matches Some((n, fx, ps)) && n@ == functions@[k].name@ && fx == functions@[k].is_fixture
                    && string_views(ps@) == string_views(functions@[k].params@),
                None => r is None,
            },
    {
        self.find_enclosing_function(functions, (line + 1) as usize)
    }

    /// The name of the first function among `functions` whose lines
    /// include 1-based line `line`.
    pub fn find_containing_function(&self, functions: &Vec<FunctionOutline>, line: usize) -> (r: Option<String>)
        ensures
            match first_containing(functions@, line, 0) {
                Some(k) => r is Some && r->0@ == functions@[k].name@,
                None => r is None,
            },
    {
        let mut i: usize = 0;
        while i < functions.len()
            invariant
                i <= functions@.len(),
                first_containing(functions@, line, 0) == first_containing(functions@, line, i as int),
            decreases functions@.len() - i,
        {
            let o = &functions[i];
            if o.start_line <= line && line <= o.end_line {
                return Some(o.name.clone());
            }
            i = i + 1;
        }
        None
    }

    /// The context a decorator (or `pytestmark` `usefixtures` call) gives at
    /// line `target_line`: the first of `decorators` covering it that is a
    /// `usefixtures` or `parametrize` one.
    pub fn check_decorator_context(&self, decorators: &Vec<DecoratorSpan>, target_line: usize) -> (r: Option<
        CompletionContext,
    >)
        ensures
            match first_decorator(decorators@, target_line, 0) {
                Some(k) => match decorators@[k].kind {
                    DecoratorKind::Usefixtures => r matches Some(c) && c is UsefixturesDecorator,
                    _ => r matches Some(c) && c is ParametrizeIndirect,
                },
                None => r is None,
            },
    {
        let mut i: usize = 0;
        while i < decorators.len()
            invariant
                i <= decorators@.len(),
                first_decorator(decorators@, target_line, 0) == first_decorator(decorators@, target_line, i as int),
            decreases decorators@.len() - i,
        {
            let d = decorators[i];
            if d.start_line <= target_line && target_line <= d.end_line {
                match d.kind {
                    DecoratorKind::Usefixtures => {
                        return Some(CompletionContext::UsefixturesDecorator);
                    },
                    DecoratorKind::Parametrize => {
                        return Some(CompletionContext::ParametrizeIndirect);
                    },
                    DecoratorKind::Other => {},
                }
            }
            i = i + 1;
        }
        None
    }

    /// The completion context at 0-based `line` of a file with text
    /// `content`: from its decorators, then from its functions, when it
    /// parsed (`outline`); failing those, from its text.
    pub fn get_completion_context(&self, content: &str, line: u32, outline: Option<&ModuleOutline>) -> (r:
        Option<CompletionContext>)
        requires
            line < u32::MAX,
            outline matches Some(m) ==> forall|k: int|
                0 <= k < m.functions@.len() ==> outline_fits(#[trigger] m.functions@[k]),
            line + 1 > text_lines(content@).len() || lines_len(
                text_lines(content@),
                scan_floor(line as int, 50),
                line + 1,
            ) <= i32::MAX,
        ensures
            ({
                let t = (line + 1) as usize;
                match outline {
                    Some(m) => match first_decorator(m.decorators@, t, 0) {
                        Some(k) => match m.decorators@[k].kind {
                            DecoratorKind::Usefixtures => r matches Some(c) && c is UsefixturesDecorator,
                            _ => r matches Some(c) && c is ParametrizeIndirect,
                        },
                        None => match first_applying(m.functions@, t, 0) {
                            Some(k) => function_context_is(r, m.functions@[k], content@, t),
                            None => context_matches(r, text_completion(content@, t as int)),
                        },
                    },
                    None => context_matches(r, text_completion(content@, t as int)),
                }
            }),
    {
        let target_line = (line + 1) as usize;
        match outline {
            Some(m) => {
                let d = self.check_decorator_context(&m.decorators, target_line);
                if d.is_some() {
                    return d;
                }
                let f = self.get_function_completion_context(&m.functions, content, target_line);
                if f.is_some() {
                    return f;
                }
            },
            None => {},
        }
        self.get_completion_context_from_text(content, target_line)
    }
}

} // verus!
