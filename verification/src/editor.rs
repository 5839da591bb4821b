//! Answers to editor requests assembled from the database: diagnostics,
//! go-to-definition, and which completions a context calls for.
use vstd::prelude::*;

use crate::db::{undeclared_in, FixtureDatabase};
use crate::hover::{entry_views, opt_chars, CompletionEntry};
use crate::imports::{Position, Range};
use crate::lsp::{create_point_range, create_range, internal_line_to_lsp};
use crate::position::definition_under_cursor;
use crate::refs::{definition_location, editor_line, Location};
use crate::text::{chars_of, concat, string_from_chars};
use crate::types::{undeclared_views, CompletionContext, UndeclaredView};

verus! {

/// A warning about a fixture used without being declared.
#[derive(Debug)]
pub struct UndeclaredDiagnostic {
    pub range: Range,
    /// Always `undeclared-fixture`.
    pub code: String,
    pub message: String,
}

/// The code of the diagnostics about undeclared fixtures.
pub open spec fn undeclared_code() -> Seq<char> {
    "undeclared-fixture"@
}

/// The diagnostic about undeclared fixture `u`.
pub open spec fn diagnostic_for(u: UndeclaredView) -> (Range, Seq<char>, Seq<char>) {
    let l = editor_line(u.line);
    (
        Range {
            start: Position { line: l, character: u.start_char as u32 },
            end: Position { line: l, character: u.end_char as u32 },
        },
        undeclared_code(),
        "Fixture '"@ + u.name + "' is used but not declared as a parameter"@,
    )
}

pub open spec fn diagnostic_views(v: Seq<UndeclaredDiagnostic>) -> Seq<(Range, Seq<char>, Seq<char>)> {
    v.map_values(|d: UndeclaredDiagnostic| (d.range, d.code@, d.message@))
}

impl FixtureDatabase {
    /// The diagnostics for file `file_path`: one per fixture used there
    /// without being declared, in the order they were found.
    pub fn undeclared_diagnostics(&self, file_path: &str) -> (r: Vec<UndeclaredDiagnostic>)
        ensures
            diagnostic_views(r@) == undeclared_in(undeclared_views(self.undeclared_fixtures@), file_path@).map_values(
                |u: UndeclaredView| diagnostic_for(u),
            ),
    {
        let us = self.get_undeclared_fixtures(file_path);
        let ghost uv = undeclared_views(us@);
        let mut r: Vec<UndeclaredDiagnostic> = Vec::new();
        let mut i: usize = 0;
        while i < us.len()
            invariant
                i <= uv.len(),
                uv == undeclared_views(us@),
                diagnostic_views(r@) == uv.take(i as int).map_values(|u: UndeclaredView| diagnostic_for(u)),
            decreases uv.len() - i,
        {
            let u = &us[i];
            assert(uv[i as int] == u@);
            let l = internal_line_to_lsp(u.line);
            let sc = #[verifier::truncate] (u.start_char as u32);
            let ec = #[verifier::truncate] (u.end_char as u32);
            let a = concat(&chars_of("Fixture '"), &chars_of(u.name.as_str()));
            let m = concat(&a, &chars_of("' is used but not declared as a parameter"));
            let d = UndeclaredDiagnostic {
                range: create_range(l, sc, l, ec),
                code: string_from_chars(&chars_of("undeclared-fixture")),
                message: string_from_chars(&m),
            };
            let ghost before = diagnostic_views(r@);
            r.push(d);
            assert(diagnostic_views(r@) =~= before.push(diagnostic_for(u@)));
            assert(uv.take(i + 1).map_values(|u: UndeclaredView| diagnostic_for(u)) =~= uv.take(i as int).map_values(
                |u: UndeclaredView| diagnostic_for(u),
            ).push(diagnostic_for(u@)));
            i = i + 1;
        }
        assert(uv.take(uv.len() as int) =~= uv);
        r
    }

    /// Go-to-definition at `line`, `character` (0-based) of `file_path`,
    /// whose text is `content`: the start of the line of the definition a
    /// usage there leads to.
    pub fn definition_location_at(&self, file_path: &str, line: u32, character: u32, content: &str) -> (r: Option<
        Location,
    >)
        requires
            line < u32::MAX,
        ensures
            match definition_under_cursor(
                self.defs(),
                self.uses(),
                self.fimports(),
                file_path@,
                line as int,
                character as int,
                content@,
            ) {
                Some(d) => r is Some && r->0@ == definition_location(d),
                None => r is None,
            },
    {
        match self.find_fixture_definition(file_path, line, character, content) {
            Some(d) => Some(
                Location {
                    file_path: d.file_path.clone(),
                    range: create_point_range(internal_line_to_lsp(d.line), 0),
                },
            ),
            None => None,
        }
    }
}

/// Which list of completions a context calls for.
#[derive(Debug, Clone, Copy, PartialEq, Eq, Structural)]
pub enum CompletionKind {
    /// Fixtures as parameters, leaving out those declared.
    Parameters,
    /// Fixtures used in a body, each adding itself as a parameter.
    BodyWithParameter,
    /// Fixture names inside a string.
    Strings,
}

/// The kind of completion context `c` calls for.
pub open spec fn completion_kind(c: CompletionContext) -> CompletionKind {
    match c {
        CompletionContext::FunctionSignature { .. } => CompletionKind::Parameters,
        CompletionContext::FunctionBody { .. } => CompletionKind::BodyWithParameter,
        _ => CompletionKind::Strings,
    }
}

impl FixtureDatabase {
    /// The completions for `context` in file `file_path` (text `content`):
    /// parameters in a signature, parameters that add themselves in a body,
    /// names in a `usefixtures` or indirect `parametrize` string.
    pub fn completions_for_context(
        &self,
        context: &CompletionContext,
        file_path: &str,
        content: &str,
        workspace_root: Option<&str>,
    ) -> (r: (CompletionKind, Vec<CompletionEntry>))
        requires
            context matches CompletionContext::FunctionBody { function_line, .. } ==> function_line <= usize::MAX
                - 49,
        ensures
            r.0 == completion_kind(*context),
            ({
                match *context {
                    CompletionContext::FunctionSignature { declared_params, .. } => exists|a: Seq<crate::types::FixtureDefinition>|
                        crate::hover::is_available_list(self.defs(), self.fimports(), file_path@, a)
                            && entry_views(r.1@) == crate::hover::completion_entries(
                            crate::types::def_views(a),
                            crate::types::string_views(declared_params@),
                            opt_chars(workspace_root),
                            None,
                        ),
                    CompletionContext::FunctionBody { function_line, declared_params, .. } => exists|
                        a: Seq<crate::types::FixtureDefinition>,
                        ins: Option<crate::types::ParamInsertionInfo>,
                    |
                        {
                            &&& crate::hover::is_available_list(self.defs(), self.fimports(), file_path@, a)
                            &&& (ins is Some ==> ins == crate::signature::param_insertion_info(
                                content@,
                                function_line as nat,
                            ))
                            &&& (crate::signature::lines_fit(content@) ==> ins
                                == crate::signature::param_insertion_info(content@, function_line as nat))
                            &&& entry_views(r.1@) == crate::hover::completion_entries(
                                crate::types::def_views(a),
                                crate::types::string_views(declared_params@),
                                opt_chars(workspace_root),
                                ins,
                            )
                        },
                    _ => exists|a: Seq<crate::types::FixtureDefinition>|
                        crate::hover::is_available_list(self.defs(), self.fimports(), file_path@, a)
                            && entry_views(r.1@) == crate::hover::completion_entries(
                            crate::types::def_views(a),
                            Seq::empty(),
                            opt_chars(workspace_root),
                            None,
                        ),
                }
            }),
    {
        match context {
            CompletionContext::FunctionSignature { declared_params, .. } => (
                CompletionKind::Parameters,
                self.create_fixture_completions(file_path, declared_params.as_slice(), workspace_root),
            ),
            CompletionContext::FunctionBody { function_line, declared_params, .. } => (
                CompletionKind::BodyWithParameter,
                self.create_fixture_completions_with_auto_add(
                    file_path,
                    declared_params.as_slice(),
                    *function_line,
                    content,
                    workspace_root,
                ),
            ),
            _ => (CompletionKind::Strings, self.create_string_fixture_completions(file_path, workspace_root)),
        }
    }
}

} // verus!
