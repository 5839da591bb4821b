//! The data the library records about fixtures, and their mathematical views.
use vstd::prelude::*;

use crate::text::{chars_eq, chars_of};

verus! {

/// Pytest fixture scope, from narrowest to broadest.
#[derive(Debug, Clone, Copy, PartialEq, Eq, Structural)]
pub enum FixtureScope {
    Function,
    Class,
    Module,
    Package,
    Session,
}

impl FixtureScope {
    /// Position of the scope in the order `Function < Class < Module < Package < Session`.
    pub open spec fn spec_rank(self) -> nat {
        match self {
            FixtureScope::Function => 0,
            FixtureScope::Class => 1,
            FixtureScope::Module => 2,
            FixtureScope::Package => 3,
            FixtureScope::Session => 4,
        }
    }

    pub fn rank(&self) -> (r: u8)
        ensures
            r as nat == self.spec_rank(),
    {
        match self {
            FixtureScope::Function => 0,
            FixtureScope::Class => 1,
            FixtureScope::Module => 2,
            FixtureScope::Package => 3,
            FixtureScope::Session => 4,
        }
    }

    /// Whether `self` is a broader scope than `other`.
    pub fn is_broader_than(&self, other: &FixtureScope) -> (b: bool)
        ensures
            b == (self.spec_rank() > other.spec_rank()),
    {
        self.rank() > other.rank()
    }

    /// The scope named by `s`, as written in `scope="..."`.
    pub open spec fn spec_parse(s: Seq<char>) -> Option<FixtureScope> {
        if s == "function"@ {
            Some(FixtureScope::Function)
        } else if s == "class"@ {
            Some(FixtureScope::Class)
        } else if s == "module"@ {
            Some(FixtureScope::Module)
        } else if s == "package"@ {
            Some(FixtureScope::Package)
        } else if s == "session"@ {
            Some(FixtureScope::Session)
        } else {
            None
        }
    }

    pub fn parse_chars(s: &[char]) -> (r: Option<FixtureScope>)
        ensures
            r == Self::spec_parse(s@),
    {
        proof {
            reveal_strlit("function");
            reveal_strlit("class");
            reveal_strlit("module");
            reveal_strlit("package");
            reveal_strlit("session");
        }
        let f = chars_of("function");
        if chars_eq(s, &f) {
            return Some(FixtureScope::Function);
        }
        let c = chars_of("class");
        if chars_eq(s, &c) {
            return Some(FixtureScope::Class);
        }
        let m = chars_of("module");
        if chars_eq(s, &m) {
            return Some(FixtureScope::Module);
        }
        let p = chars_of("package");
        if chars_eq(s, &p) {
            return Some(FixtureScope::Package);
        }
        let x = chars_of("session");
        if chars_eq(s, &x) {
            return Some(FixtureScope::Session);
        }
        None
    }

    /// `FixtureScope::parse` on a string.
    pub fn parse(s: &str) -> (r: Option<FixtureScope>)
        ensures
            r == Self::spec_parse(s@),
    {
        let v = chars_of(s);
        Self::parse_chars(&v)
    }
}

impl Default for FixtureScope {
    fn default() -> (r: Self)
        ensures
            r == FixtureScope::Function,
    {
        FixtureScope::Function
    }
}

/// An import needed to name a type in another file: the name the import binds
/// (`check_name`) and the statement itself.
#[derive(Debug)]
pub struct TypeImportSpec {
    pub check_name: String,
    pub import_statement: String,
}

impl TypeImportSpec {
    pub open spec fn view_pair(self) -> (Seq<char>, Seq<char>) {
        (self.check_name@, self.import_statement@)
    }

    pub fn duplicate(&self) -> (r: TypeImportSpec)
        ensures
            r.view_pair() == self.view_pair(),
    {
        TypeImportSpec {
            check_name: self.check_name.clone(),
            import_statement: self.import_statement.clone(),
        }
    }
}

pub open spec fn import_views(v: Seq<TypeImportSpec>) -> Seq<(Seq<char>, Seq<char>)> {
    v.map_values(|s: TypeImportSpec| s.view_pair())
}

pub fn duplicate_imports(v: &[TypeImportSpec]) -> (r: Vec<TypeImportSpec>)
    ensures
        import_views(r@) == import_views(v@),
{
    let mut r: Vec<TypeImportSpec> = Vec::new();
    let mut i: usize = 0;
    while i < v.len()
        invariant
            i <= v@.len(),
            r@.len() == i,
            forall|k: int| 0 <= k < i ==> #[trigger] r@[k].view_pair() == v@[k].view_pair(),
        decreases v@.len() - i,
    {
        let d = v[i].duplicate();
        r.push(d);
        i = i + 1;
    }
    assert(import_views(r@) =~= import_views(v@));
    r
}

pub open spec fn string_views(v: Seq<String>) -> Seq<Seq<char>> {
    v.map_values(|s: String| s@)
}

pub fn duplicate_strings(v: &[String]) -> (r: Vec<String>)
    ensures
        string_views(r@) == string_views(v@),
{
    let mut r: Vec<String> = Vec::new();
    let mut i: usize = 0;
    while i < v.len()
        invariant
            i <= v@.len(),
            r@.len() == i,
            forall|k: int| 0 <= k < i ==> #[trigger] r@[k]@ == v@[k]@,
        decreases v@.len() - i,
    {
        let c = v[i].clone();
        r.push(c);
        i = i + 1;
    }
    assert(string_views(r@) =~= string_views(v@));
    r
}

pub fn strings_equal(a: &[String], b: &[String]) -> (r: bool)
    ensures
        r == (string_views(a@) == string_views(b@)),
{
    if a.len() != b.len() {
        assert(string_views(a@).len() != string_views(b@).len());
        return false;
    }
    let mut i: usize = 0;
    while i < a.len()
        invariant
            i <= a@.len(),
            a@.len() == b@.len(),
            forall|k: int| 0 <= k < i ==> a@[k]@ == b@[k]@,
        decreases a@.len() - i,
    {
        if a[i] != b[i] {
            assert(string_views(a@)[i as int] != string_views(b@)[i as int]);
            return false;
        }
        i = i + 1;
    }
    assert(string_views(a@) =~= string_views(b@));
    true
}

pub fn option_string_dup(o: &Option<String>) -> (r: Option<String>)
    ensures
        opt_view(r) == opt_view(*o),
{
    match o {
        Some(s) => Some(s.clone()),
        None => None,
    }
}

pub open spec fn opt_view(o: Option<String>) -> Option<Seq<char>> {
    match o {
        Some(s) => Some(s@),
        None => None,
    }
}

pub fn option_string_eq(a: &Option<String>, b: &Option<String>) -> (r: bool)
    ensures
        r == (opt_view(*a) == opt_view(*b)),
{
    match (a, b) {
        (Some(x), Some(y)) => *x == *y,
        (None, None) => true,
        _ => false,
    }
}

/// A fixture definition: where it is, what it depends on and what it yields.
///
/// Paths are file-system paths written with `/` separators, as the scanner
/// records them (absolute and normalized).
#[derive(Debug)]
pub struct FixtureDefinition {
    pub name: String,
    pub file_path: String,
    /// 1-based line of the `def` (or of the assignment).
    pub line: usize,
    pub end_line: usize,
    pub start_char: usize,
    pub end_char: usize,
    pub docstring: Option<String>,
    /// The return annotation (for generators, the yielded type).
    pub return_type: Option<String>,
    pub return_type_imports: Vec<TypeImportSpec>,
    pub is_third_party: bool,
    pub is_plugin: bool,
    pub dependencies: Vec<String>,
    pub scope: FixtureScope,
    pub yield_line: Option<usize>,
    pub autouse: bool,
}

/// The mathematical value of a [`FixtureDefinition`].
pub struct DefinitionView {
    pub name: Seq<char>,
    pub file_path: Seq<char>,
    pub line: usize,
    pub end_line: usize,
    pub start_char: usize,
    pub end_char: usize,
    pub docstring: Option<Seq<char>>,
    pub return_type: Option<Seq<char>>,
    pub return_type_imports: Seq<(Seq<char>, Seq<char>)>,
    pub is_third_party: bool,
    pub is_plugin: bool,
    pub dependencies: Seq<Seq<char>>,
    pub scope: FixtureScope,
    pub yield_line: Option<usize>,
    pub autouse: bool,
}

impl View for FixtureDefinition {
    type V = DefinitionView;

    open spec fn view(&self) -> DefinitionView {
        DefinitionView {
            name: self.name@,
            file_path: self.file_path@,
            line: self.line,
            end_line: self.end_line,
            start_char: self.start_char,
            end_char: self.end_char,
            docstring: opt_view(self.docstring),
            return_type: opt_view(self.return_type),
            return_type_imports: import_views(self.return_type_imports@),
            is_third_party: self.is_third_party,
            is_plugin: self.is_plugin,
            dependencies: string_views(self.dependencies@),
            scope: self.scope,
            yield_line: self.yield_line,
            autouse: self.autouse,
        }
    }
}

impl FixtureDefinition {
    /// A copy of the definition with the same view.
    pub fn duplicate(&self) -> (r: FixtureDefinition)
        ensures
            r@ == self@,
    {
        FixtureDefinition {
            name: self.name.clone(),
            file_path: self.file_path.clone(),
            line: self.line,
            end_line: self.end_line,
            start_char: self.start_char,
            end_char: self.end_char,
            docstring: option_string_dup(&self.docstring),
            return_type: option_string_dup(&self.return_type),
            return_type_imports: duplicate_imports(&self.return_type_imports),
            is_third_party: self.is_third_party,
            is_plugin: self.is_plugin,
            dependencies: duplicate_strings(&self.dependencies),
            scope: self.scope,
            yield_line: self.yield_line,
            autouse: self.autouse,
        }
    }

    /// Whether two definitions are equal in every field.
    pub fn same_as(&self, other: &FixtureDefinition) -> (r: bool)
        ensures
            r == (self@ == other@),
    {
        let r = self.name == other.name && self.file_path == other.file_path && self.line
            == other.line && self.end_line == other.end_line && self.start_char
            == other.start_char && self.end_char == other.end_char && option_string_eq(
            &self.docstring,
            &other.docstring,
        ) && option_string_eq(&self.return_type, &other.return_type) && imports_equal(
            &self.return_type_imports,
            &other.return_type_imports,
        ) && self.is_third_party == other.is_third_party && self.is_plugin == other.is_plugin
            && strings_equal(&self.dependencies, &other.dependencies) && self.scope == other.scope
            && self.yield_line == other.yield_line && self.autouse == other.autouse;
        r
    }
}

pub fn imports_equal(a: &[TypeImportSpec], b: &[TypeImportSpec]) -> (r: bool)
    ensures
        r == (import_views(a@) == import_views(b@)),
{
    if a.len() != b.len() {
        assert(import_views(a@).len() != import_views(b@).len());
        return false;
    }
    let mut i: usize = 0;
    while i < a.len()
        invariant
            i <= a@.len(),
            a@.len() == b@.len(),
            forall|k: int| 0 <= k < i ==> a@[k].view_pair() == b@[k].view_pair(),
        decreases a@.len() - i,
    {
        if a[i].check_name != b[i].check_name || a[i].import_statement != b[i].import_statement {
            assert(import_views(a@)[i as int] != import_views(b@)[i as int]);
            return false;
        }
        i = i + 1;
    }
    assert(import_views(a@) =~= import_views(b@));
    true
}

pub open spec fn def_views(v: Seq<FixtureDefinition>) -> Seq<DefinitionView> {
    v.map_values(|d: FixtureDefinition| d@)
}

/// A place where a fixture is used: a parameter, a `usefixtures` string, or an
/// indirect `parametrize` argument.
#[derive(Debug)]
pub struct FixtureUsage {
    pub name: String,
    pub file_path: String,
    pub line: usize,
    /// Character position where this usage starts (on the line).
    pub start_char: usize,
    /// Character position where this usage ends (on the line).
    pub end_char: usize,
    /// Whether the usage is a function parameter (which may take an annotation).
    pub is_parameter: bool,
}

pub struct UsageView {
    pub name: Seq<char>,
    pub file_path: Seq<char>,
    pub line: usize,
    pub start_char: usize,
    pub end_char: usize,
    pub is_parameter: bool,
}

impl View for FixtureUsage {
    type V = UsageView;

    open spec fn view(&self) -> UsageView {
        UsageView {
            name: self.name@,
            file_path: self.file_path@,
            line: self.line,
            start_char: self.start_char,
            end_char: self.end_char,
            is_parameter: self.is_parameter,
        }
    }
}

impl FixtureUsage {
    pub fn duplicate(&self) -> (r: FixtureUsage)
        ensures
            r@ == self@,
    {
        FixtureUsage {
            name: self.name.clone(),
            file_path: self.file_path.clone(),
            line: self.line,
            start_char: self.start_char,
            end_char: self.end_char,
            is_parameter: self.is_parameter,
        }
    }
}

pub open spec fn usage_views(v: Seq<FixtureUsage>) -> Seq<UsageView> {
    v.map_values(|u: FixtureUsage| u@)
}

/// A fixture name used in a function body without being declared as a parameter.
#[derive(Debug)]
pub struct UndeclaredFixture {
    pub name: String,
    pub file_path: String,
    pub line: usize,
    pub start_char: usize,
    pub end_char: usize,
    /// Name of the test or fixture function where it is used.
    pub function_name: String,
    /// Line where that function is defined.
    pub function_line: usize,
}

/// The mathematical value of an [`UndeclaredFixture`].
pub struct UndeclaredView {
    pub name: Seq<char>,
    pub file_path: Seq<char>,
    pub line: usize,
    pub start_char: usize,
    pub end_char: usize,
    pub function_name: Seq<char>,
    pub function_line: usize,
}

impl View for UndeclaredFixture {
    type V = UndeclaredView;

    open spec fn view(&self) -> UndeclaredView {
        UndeclaredView {
            name: self.name@,
            file_path: self.file_path@,
            line: self.line,
            start_char: self.start_char,
            end_char: self.end_char,
            function_name: self.function_name@,
            function_line: self.function_line,
        }
    }
}

impl UndeclaredFixture {
    pub fn duplicate(&self) -> (r: UndeclaredFixture)
        ensures
            r@ == self@,
    {
        UndeclaredFixture {
            name: self.name.clone(),
            file_path: self.file_path.clone(),
            line: self.line,
            start_char: self.start_char,
            end_char: self.end_char,
            function_name: self.function_name.clone(),
            function_line: self.function_line,
        }
    }
}

pub open spec fn undeclared_views(v: Seq<UndeclaredFixture>) -> Seq<UndeclaredView> {
    v.map_values(|u: UndeclaredFixture| u@)
}

/// Where the cursor stands for completion purposes.
#[derive(Debug)]
pub enum CompletionContext {
    /// Inside the parameter list of a test or fixture function.
    FunctionSignature {
        function_name: String,
        function_line: usize,
        is_fixture: bool,
        declared_params: Vec<String>,
        fixture_scope: Option<FixtureScope>,
    },
    /// Inside the body of a test or fixture function.
    FunctionBody {
        function_name: String,
        function_line: usize,
        is_fixture: bool,
        declared_params: Vec<String>,
        fixture_scope: Option<FixtureScope>,
    },
    /// Inside `@pytest.mark.usefixtures(...)` or a `pytestmark` usefixtures call.
    UsefixturesDecorator,
    /// Inside `@pytest.mark.parametrize(..., indirect=...)`.
    ParametrizeIndirect,
}

/// Where a new parameter goes in a function signature.
#[derive(Debug, Clone, Copy, PartialEq, Eq)]
pub struct ParamInsertionInfo {
    /// 1-based line of the closing parenthesis.
    pub line: usize,
    /// Character position of the closing parenthesis on that line.
    pub char_pos: usize,
    /// Whether the signature already has parameters (so a comma is needed).
    pub needs_comma: bool,
}

/// A dependency cycle among fixtures.
#[derive(Debug)]
pub struct FixtureCycle {
    /// The fixture names along the cycle; the last equals the first.
    pub cycle_path: Vec<String>,
    /// The definition of the fixture at which the cycle was detected.
    pub fixture: FixtureDefinition,
}

/// A fixture that depends on a fixture of narrower scope.
#[derive(Debug)]
pub struct ScopeMismatch {
    pub fixture: FixtureDefinition,
    pub dependency: FixtureDefinition,
}

/// A package installed in editable mode: its names, where its sources live,
/// and the site-packages directory it is installed into.
#[derive(Debug)]
pub struct EditableInstall {
    pub package_name: String,
    pub raw_package_name: String,
    pub source_root: String,
    pub site_packages: String,
}

} // verus!
