//! What the editor shows of a fixture: its hover text and its completion
//! entries.
use vstd::prelude::*;

use crate::db::{available_for, def_names, FixtureDatabase};
use crate::imports::{Position, Range, TextEdit};
use crate::lsp::{create_point_range, internal_line_to_lsp};
use crate::order::strictly_sorted;
use crate::paths::path_starts_with;
use crate::position::definition_under_cursor;
use crate::refs::editor_line;
use crate::signature::{lines_fit, param_insertion_info};
use crate::text::{chars_eq, chars_of, concat, slice_range, string_from_chars};
use crate::tree::{file_name, file_name_of};
use crate::types::{string_views, DefinitionView, FixtureDefinition, ParamInsertionInfo};

verus! {

/// `p` with the directory `root` taken off its front, if `root` contains it.
pub open spec fn relative_path(p: Seq<char>, root: Seq<char>) -> Option<Seq<char>> {
    if !path_starts_with(p, root) {
        None
    } else if p == root {
        Some(Seq::empty())
    } else if root.len() == 0 || root.last() == '/' {
        Some(p.skip(root.len() as int))
    } else {
        Some(p.skip(root.len() as int + 1))
    }
}

/// How a fixture's file is named in its documentation: relative to the
/// workspace root where it lies inside it, else by its file name.
pub open spec fn shown_path(p: Seq<char>, root: Option<Seq<char>>) -> Seq<char> {
    let fallback = match file_name(p) {
        Some(n) => n,
        None => "unknown"@,
    };
    match root {
        Some(r) => match relative_path(p, r) {
            Some(x) => x,
            None => fallback,
        },
        None => fallback,
    }
}

pub open spec fn return_part(t: Option<Seq<char>>) -> Seq<char> {
    match t {
        Some(s) => " -> "@ + s,
        None => Seq::empty(),
    }
}

pub open spec fn docstring_part(d: Option<Seq<char>>) -> Seq<char> {
    match d {
        Some(s) => "\n\n---\n\n"@ + s,
        None => Seq::empty(),
    }
}

/// The Markdown that documents fixture `d`: where it comes from, its
/// signature with the return type, and its docstring.
pub open spec fn fixture_documentation(d: DefinitionView, root: Option<Seq<char>>) -> Seq<char> {
    "**from** `"@ + shown_path(d.file_path, root) + "`\n```python\n@pytest.fixture\ndef "@ + d.name
        + "(...)"@ + return_part(d.return_type) + ":\n```"@ + docstring_part(d.docstring)
}

pub open spec fn opt_chars(o: Option<&str>) -> Option<Seq<char>> {
    match o {
        Some(s) => Some(s@),
        None => None,
    }
}

fn shown_path_exec(p: &[char], root: Option<&str>) -> (r: Vec<char>)
    ensures
        r@ == shown_path(p@, opt_chars(root)),
{
    proof {
        reveal_strlit("unknown");
    }
    let fallback = match file_name_of(p) {
        Some(n) => n,
        None => chars_of("unknown"),
    };
    match root {
        None => fallback,
        Some(r) => {
            let rv = chars_of(r);
            if !crate::paths::path_starts_with_exec(p, &rv) {
                fallback
            } else if chars_eq(p, &rv) {
                Vec::new()
            } else if rv.len() == 0 || rv[rv.len() - 1] == '/' {
                let x = slice_range(p, rv.len(), p.len());
                assert(x@ =~= p@.skip(rv@.len() as int));
                x
            } else {
                let pn = p.len();
                assert(rv@.len() < pn);
                let x = slice_range(p, rv.len() + 1, pn);
                assert(x@ =~= p@.skip(rv@.len() as int + 1));
                x
            }
        },
    }
}

/// The Markdown documentation of `fixture`, naming its file relative to
/// `workspace_root`.
pub fn format_fixture_documentation(fixture: &FixtureDefinition, workspace_root: Option<&str>) -> (r: String)
    ensures
        r@ == fixture_documentation(fixture@, opt_chars(workspace_root)),
{
    let fp = chars_of(fixture.file_path.as_str());
    let rel = shown_path_exec(&fp, workspace_root);
    let a = concat(&chars_of("**from** `"), &rel);
    let b = concat(&a, &chars_of("`\n```python\n@pytest.fixture\ndef "));
    let c = concat(&b, &chars_of(fixture.name.as_str()));
    let d = concat(&c, &chars_of("(...)"));
    let e = match &fixture.return_type {
        Some(t) => {
            let x = concat(&chars_of(" -> "), &chars_of(t.as_str()));
            concat(&d, &x)
        },
        None => d,
    };
    let f = concat(&e, &chars_of(":\n```"));
    let g = match &fixture.docstring {
        Some(s) => {
            let x = concat(&chars_of("\n\n---\n\n"), &chars_of(s.as_str()));
            concat(&f, &x)
        },
        None => f,
    };
    assert(g@ =~= fixture_documentation(fixture@, opt_chars(workspace_root)));
    string_from_chars(&g)
}

impl FixtureDatabase {
    /// The hover text at `line`, `character` (0-based) of `file_path`, whose
    /// text is `content`: the documentation of the definition a usage there
    /// leads to.
    pub fn hover_content(
        &self,
        file_path: &str,
        line: u32,
        character: u32,
        content: &str,
        workspace_root: Option<&str>,
    ) -> (r: Option<String>)
        requires
            line < u32::MAX,
        ensures
            match definition_under_cursor(
                self.defs(),
                self.uses(),
                self.fimports(),
                file_path@,
                line as int,
                character as int,
                content@,
            ) {
                Some(d) => r is Some && r->0@ == fixture_documentation(d, opt_chars(workspace_root)),
                None => r is None,
            },
    {
        match self.find_fixture_definition(file_path, line, character, content) {
            Some(d) => Some(format_fixture_documentation(&d, workspace_root)),
            None => None,
        }
    }
}

/// A completion offered for a fixture.
#[derive(Debug)]
pub struct CompletionEntry {
    pub label: String,
    /// The name of the file that defines the fixture.
    pub detail: Option<String>,
    /// Markdown documentation.
    pub documentation: String,
    pub insert_text: String,
    /// An edit that also adds the fixture to the function's parameters.
    pub additional_edit: Option<TextEdit>,
}

pub struct EntryView {
    pub label: Seq<char>,
    pub detail: Option<Seq<char>>,
    pub documentation: Seq<char>,
    pub insert_text: Seq<char>,
    pub additional_edit: Option<(Range, Seq<char>)>,
}

impl View for CompletionEntry {
    type V = EntryView;

    open spec fn view(&self) -> EntryView {
        EntryView {
            label: self.label@,
            detail: match self.detail {
                Some(s) => Some(s@),
                None => None,
            },
            documentation: self.documentation@,
            insert_text: self.insert_text@,
            additional_edit: match self.additional_edit {
                Some(e) => Some((e.range, e.new_text@)),
                None => None,
            },
        }
    }
}

pub open spec fn entry_views(v: Seq<CompletionEntry>) -> Seq<EntryView> {
    v.map_values(|e: CompletionEntry| e@)
}

/// The edit that adds parameter `name` at the insertion point `info`.
pub open spec fn parameter_edit(info: ParamInsertionInfo, name: Seq<char>) -> (Range, Seq<char>) {
    let l = editor_line(info.line);
    let c = info.char_pos as u32;
    (
        Range { start: Position { line: l, character: c }, end: Position { line: l, character: c } },
        if info.needs_comma {
            ", "@ + name
        } else {
            name
        },
    )
}

/// The completion entry for fixture `d`.
pub open spec fn entry_for(
    d: DefinitionView,
    root: Option<Seq<char>>,
    ins: Option<ParamInsertionInfo>,
) -> EntryView {
    EntryView {
        label: d.name,
        detail: file_name(d.file_path),
        documentation: fixture_documentation(d, root),
        insert_text: d.name,
        additional_edit: match ins {
            Some(info) => Some(parameter_edit(info, d.name)),
            None => None,
        },
    }
}

/// The entries for the fixtures `avail` whose names are not among `declared`.
pub open spec fn completion_entries(
    avail: Seq<DefinitionView>,
    declared: Seq<Seq<char>>,
    root: Option<Seq<char>>,
    ins: Option<ParamInsertionInfo>,
) -> Seq<EntryView>
    decreases avail.len(),
{
    if avail.len() == 0 {
        Seq::empty()
    } else {
        let r = completion_entries(avail.drop_last(), declared, root, ins);
        if declared.contains(avail.last().name) {
            r
        } else {
            r.push(entry_for(avail.last(), root, ins))
        }
    }
}

/// `a` lists, sorted by name, the definition completion offers in file `f`
/// for each fixture name that has one.
pub open spec fn is_available_list(
    ds: Seq<DefinitionView>,
    fi: Seq<(Seq<char>, Seq<Seq<char>>)>,
    f: Seq<char>,
    a: Seq<FixtureDefinition>,
) -> bool {
    &&& strictly_sorted(def_names(a))
    &&& forall|k: int| 0 <= k < a.len() ==> available_for(ds, fi, f, (#[trigger] a[k]).name@) == Some(a[k]@)
    &&& forall|n: Seq<char>| (#[trigger] available_for(ds, fi, f, n)) is Some ==> def_names(a).contains(n)
}

fn is_declared(declared: &[String], name: &String) -> (b: bool)
    ensures
        b == string_views(declared@).contains(name@),
{
    let mut i: usize = 0;
    while i < declared.len()
        invariant
            i <= declared@.len(),
            forall|k: int| 0 <= k < i ==> declared@[k]@ != name@,
        decreases declared@.len() - i,
    {
        if declared[i] == *name {
            assert(string_views(declared@)[i as int] == name@);
            return true;
        }
        i = i + 1;
    }
    proof {
        if string_views(declared@).contains(name@) {
            let k = choose|k: int| 0 <= k < string_views(declared@).len() && string_views(declared@)[k] == name@;
            assert(declared@[k]@ == name@);
        }
    }
    false
}

fn entries_exec(
    avail: &Vec<FixtureDefinition>,
    declared: &[String],
    workspace_root: Option<&str>,
    ins: Option<ParamInsertionInfo>,
) -> (r: Vec<CompletionEntry>)
    ensures
        entry_views(r@) == completion_entries(
            crate::types::def_views(avail@),
            string_views(declared@),
            opt_chars(workspace_root),
            ins,
        ),
{
    let ghost av = crate::types::def_views(avail@);
    let ghost dv = string_views(declared@);
    let mut r: Vec<CompletionEntry> = Vec::new();
    let mut i: usize = 0;
    while i < avail.len()
        invariant
            i <= av.len(),
            av == crate::types::def_views(avail@),
            dv == string_views(declared@),
            entry_views(r@) == completion_entries(av.take(i as int), dv, opt_chars(workspace_root), ins),
        decreases av.len() - i,
    {
        let fx = &avail[i];
        assert(av[i as int] == fx@);
        assert(av.take(i + 1).drop_last() =~= av.take(i as int));
        assert(av.take(i + 1).last() == fx@);
        if !is_declared(declared, &fx.name) {
            let fp = chars_of(fx.file_path.as_str());
            let detail = match file_name_of(&fp) {
                Some(n) => Some(string_from_chars(&n)),
                None => None,
            };
            let edit = match ins {
                Some(info) => {
                    let text = if info.needs_comma {
                        let x = concat(&chars_of(", "), &chars_of(fx.name.as_str()));
                        string_from_chars(&x)
                    } else {
                        fx.name.clone()
                    };
                    let c = #[verifier::truncate] (info.char_pos as u32);
                    Some(TextEdit { range: create_point_range(internal_line_to_lsp(info.line), c), new_text: text })
                },
                None => None,
            };
            let entry = CompletionEntry {
                label: fx.name.clone(),
                detail: detail,
                documentation: format_fixture_documentation(fx, workspace_root),
                insert_text: fx.name.clone(),
                additional_edit: edit,
            };
            assert(entry@ == entry_for(fx@, opt_chars(workspace_root), ins));
            let ghost before = entry_views(r@);
            r.push(entry);
            assert(entry_views(r@) =~= before.push(entry_for(fx@, opt_chars(workspace_root), ins)));
        }
        i = i + 1;
    }
    assert(av.take(av.len() as int) =~= av);
    r
}

impl FixtureDatabase {
    /// Completions for a function's parameters in `file_path`: the fixtures
    /// available there that are not already declared.
    pub fn create_fixture_completions(
        &self,
        file_path: &str,
        declared_params: &[String],
        workspace_root: Option<&str>,
    ) -> (r: Vec<CompletionEntry>)
        ensures
            exists|a: Seq<FixtureDefinition>|
                is_available_list(self.defs(), self.fimports(), file_path@, a) && entry_views(r@)
                    == completion_entries(
                    crate::types::def_views(a),
                    string_views(declared_params@),
                    opt_chars(workspace_root),
                    None,
                ),
    {
        let avail = self.get_available_fixtures(file_path);
        let r = entries_exec(&avail, declared_params, workspace_root, None);
        assert(is_available_list(self.defs(), self.fimports(), file_path@, avail@));
        r
    }

    /// Completions inside a function body: as for parameters, each with an
    /// edit that adds the fixture to the signature of the function whose
    /// `def` is on 1-based line `function_line` of `content`.
    pub fn create_fixture_completions_with_auto_add(
        &self,
        file_path: &str,
        declared_params: &[String],
        function_line: usize,
        content: &str,
        workspace_root: Option<&str>,
    ) -> (r: Vec<CompletionEntry>)
        requires
            function_line <= usize::MAX - 49,
        ensures
            exists|a: Seq<FixtureDefinition>, ins: Option<ParamInsertionInfo>|
                {
                    &&& is_available_list(self.defs(), self.fimports(), file_path@, a)
                    &&& (ins is Some ==> ins == param_insertion_info(content@, function_line as nat))
                    &&& (lines_fit(content@) ==> ins == param_insertion_info(
                        content@,
                        function_line as nat,
                    ))
                    &&& entry_views(r@) == completion_entries(
                        crate::types::def_views(a),
                        string_views(declared_params@),
                        opt_chars(workspace_root),
                        ins,
                    )
                },
    {
        let avail = self.get_available_fixtures(file_path);
        let ins = self.get_function_param_insertion_info(content, function_line);
        let r = entries_exec(&avail, declared_params, workspace_root, ins);
        assert(is_available_list(self.defs(), self.fimports(), file_path@, avail@));
        r
    }

    /// Completions inside a `usefixtures` or indirect `parametrize` string:
    /// every fixture available in `file_path`.
    pub fn create_string_fixture_completions(&self, file_path: &str, workspace_root: Option<&str>) -> (r:
        Vec<CompletionEntry>)
        ensures
            exists|a: Seq<FixtureDefinition>|
                is_available_list(self.defs(), self.fimports(), file_path@, a) && entry_views(r@)
                    == completion_entries(
                    crate::types::def_views(a),
                    Seq::empty(),
                    opt_chars(workspace_root),
                    None,
                ),
    {
        let avail = self.get_available_fixtures(file_path);
        let none: Vec<String> = Vec::new();
        let r = entries_exec(&avail, none.as_slice(), workspace_root, None);
        assert(string_views(none@) =~= Seq::<Seq<char>>::empty());
        assert(is_available_list(self.defs(), self.fimports(), file_path@, avail@));
        r
    }
}

} // verus!
