use pytest_language_server::db::FixtureDatabase;
use pytest_language_server::editor::CompletionKind;
use pytest_language_server::types::CompletionContext;
use pytest_language_server::docs::can_format_docstring;
use pytest_language_server::hover::format_fixture_documentation;
use pytest_language_server::imports::{Position, Range};
use pytest_language_server::types::{FixtureDefinition, FixtureScope, FixtureUsage, ParamInsertionInfo};

fn def(name: &str, file: &str, line: usize) -> FixtureDefinition {
    FixtureDefinition {
        name: name.to_string(),
        file_path: file.to_string(),
        line,
        end_line: line + 2,
        start_char: 4,
        end_char: 4 + name.chars().count(),
        docstring: None,
        return_type: None,
        return_type_imports: Vec::new(),
        is_third_party: false,
        is_plugin: false,
        dependencies: Vec::new(),
        scope: FixtureScope::Function,
        yield_line: None,
        autouse: false,
    }
}

fn usage(name: &str, file: &str, line: usize, start: usize) -> FixtureUsage {
    FixtureUsage {
        name: name.to_string(),
        file_path: file.to_string(),
        line,
        start_char: start,
        end_char: start + name.chars().count(),
        is_parameter: true,
    }
}

fn range(line: u32, start: u32, end: u32) -> Range {
    Range {
        start: Position { line, character: start },
        end: Position { line, character: end },
    }
}

/// A root conftest, a child conftest overriding it (using it as a
/// parameter), and a test using the child.
fn override_db() -> FixtureDatabase {
    let mut db = FixtureDatabase::new();
    db.record_fixture_definition(def("cli_runner", "/p/conftest.py", 2));
    db.record_fixture_definition(def("cli_runner", "/p/tests/conftest.py", 2));
    db.record_fixture_usage(usage("cli_runner", "/p/tests/conftest.py", 2, 15));
    db.record_fixture_usage(usage("cli_runner", "/p/tests/test_example.py", 2, 17));
    db
}

const CHILD: &str = "@pytest.fixture\ndef cli_runner(cli_runner):\n    return cli_runner\n";
const TEST: &str = "import pytest\ndef test_example(cli_runner):\n    pass\n";

#[test]
fn references_from_a_usage_lead_with_the_definition() {
    let db = override_db();
    let locs = db.reference_locations("/p/tests/test_example.py", 1, 20, TEST).unwrap();
    assert_eq!(locs.len(), 2);
    assert_eq!(locs[0].file_path, "/p/tests/conftest.py");
    assert_eq!(locs[0].range, range(1, 0, 0));
    assert_eq!(locs[1].file_path, "/p/tests/test_example.py");
    assert_eq!(locs[1].range, range(1, 17, 27));
}

#[test]
fn references_from_a_fixture_name_list_its_users() {
    let db = override_db();
    let locs = db.reference_locations("/p/tests/conftest.py", 1, 5, CHILD).unwrap();
    assert_eq!(locs.len(), 2);
    assert_eq!(locs[0].file_path, "/p/tests/conftest.py");
    assert_eq!(locs[1].file_path, "/p/tests/test_example.py");
}

#[test]
fn references_from_the_overriding_parameter_go_to_the_parent() {
    let db = override_db();
    let locs = db.reference_locations("/p/tests/conftest.py", 1, 16, CHILD).unwrap();
    assert_eq!(locs.len(), 2);
    assert_eq!(locs[0].file_path, "/p/conftest.py");
    assert_eq!(locs[0].range, range(1, 0, 0));
    assert_eq!(locs[1].file_path, "/p/tests/conftest.py");
    assert_eq!(locs[1].range, range(1, 15, 25));
}

#[test]
fn references_off_any_fixture_are_none() {
    let db = override_db();
    assert!(db.reference_locations("/p/tests/test_example.py", 0, 2, TEST).is_none());
}

#[test]
fn docstring_is_dedented() {
    let db = FixtureDatabase::new();
    let doc = "\n    Line one.\n\n    More text\n      indented\n    ".to_string();
    assert!(can_format_docstring(&doc));
    assert_eq!(db.format_docstring(doc), "Line one.\n\nMore text\n  indented");
}

#[test]
fn docstring_of_blank_lines_is_empty() {
    let db = FixtureDatabase::new();
    assert_eq!(db.format_docstring("\n   \n".to_string()), "");
    assert_eq!(db.format_docstring("  single  ".to_string()), "single");
}

#[test]
fn docstring_cut_inside_a_character_cannot_be_formatted() {
    // the common indentation (2 bytes) would cut the three-byte space
    let doc = "first\n\u{3000}a\n  b";
    assert!(!can_format_docstring(doc));
}

#[test]
fn insertion_in_an_empty_signature() {
    let db = FixtureDatabase::new();
    let info = db.get_function_param_insertion_info("def test_x():\n    pass\n", 1);
    assert_eq!(info, Some(ParamInsertionInfo { line: 1, char_pos: 11, needs_comma: false }));
}

#[test]
fn insertion_in_a_multiline_signature() {
    let db = FixtureDatabase::new();
    let content = "import pytest\n\ndef test_x(\n    a,\n    b,\n):\n    pass\n";
    let info = db.get_function_param_insertion_info(content, 3);
    assert_eq!(info, Some(ParamInsertionInfo { line: 6, char_pos: 0, needs_comma: true }));
}

#[test]
fn insertion_needs_a_colon_after_the_parenthesis() {
    let db = FixtureDatabase::new();
    assert_eq!(db.get_function_param_insertion_info("def f(a)\n", 1), None);
}

#[test]
fn insertion_counts_nested_parentheses() {
    let db = FixtureDatabase::new();
    let info = db.get_function_param_insertion_info("def test_y(a=(1, 2)) -> None:\n", 1);
    assert_eq!(info, Some(ParamInsertionInfo { line: 1, char_pos: 19, needs_comma: true }));
}

#[test]
fn documentation_names_the_file_relative_to_the_root() {
    let mut d = def("db", "/ws/tests/conftest.py", 3);
    d.return_type = Some("Database".to_string());
    d.docstring = Some("A database.".to_string());
    let doc = format_fixture_documentation(&d, Some("/ws"));
    assert_eq!(
        doc,
        "**from** `tests/conftest.py`\n```python\n@pytest.fixture\ndef db(...) -> Database:\n```\n\n---\n\nA database."
    );
    let outside = format_fixture_documentation(&d, Some("/elsewhere"));
    assert!(outside.starts_with("**from** `conftest.py`\n"));
    let plain = format_fixture_documentation(&def("x", "/a/b.py", 1), None);
    assert_eq!(plain, "**from** `b.py`\n```python\n@pytest.fixture\ndef x(...):\n```");
}

#[test]
fn hover_shows_the_resolved_fixture() {
    let db = override_db();
    let h = db.hover_content("/p/tests/test_example.py", 1, 20, TEST, Some("/p")).unwrap();
    assert!(h.starts_with("**from** `tests/conftest.py`"));
    assert!(db.hover_content("/p/tests/test_example.py", 2, 4, TEST, Some("/p")).is_none());
}

#[test]
fn completions_skip_declared_parameters() {
    let mut db = FixtureDatabase::new();
    db.record_fixture_definition(def("alpha", "/p/conftest.py", 1));
    db.record_fixture_definition(def("beta", "/p/conftest.py", 5));
    let declared = vec!["alpha".to_string()];
    let items = db.create_fixture_completions("/p/test_a.py", &declared, Some("/p"));
    assert_eq!(items.len(), 1);
    assert_eq!(items[0].label, "beta");
    assert_eq!(items[0].insert_text, "beta");
    assert_eq!(items[0].detail.as_deref(), Some("conftest.py"));
    assert!(items[0].additional_edit.is_none());
    let strings = db.create_string_fixture_completions("/p/test_a.py", None);
    let labels: Vec<&str> = strings.iter().map(|e| e.label.as_str()).collect();
    assert_eq!(labels, vec!["alpha", "beta"]);
}

#[test]
fn completions_in_a_body_add_the_parameter() {
    let mut db = FixtureDatabase::new();
    db.record_fixture_definition(def("beta", "/p/conftest.py", 5));
    let content = "def test_a(alpha):\n    be\n";
    let declared = vec!["alpha".to_string()];
    let items = db.create_fixture_completions_with_auto_add("/p/test_a.py", &declared, 1, content, None);
    assert_eq!(items.len(), 1);
    let edit = items[0].additional_edit.as_ref().unwrap();
    assert_eq!(edit.new_text, ", beta");
    assert_eq!(edit.range, range(0, 16, 16));
}

#[test]
fn undeclared_fixtures_become_warnings() {
    let mut db = FixtureDatabase::new();
    db.record_fixture_definition(def("user_db", "/p/conftest.py", 1));
    let declared: Vec<String> = Vec::new();
    db.record_name_reference("/p/test_a.py", "user_db", 3, 11, 18, &declared, &[], "test_x", 2);
    let diags = db.undeclared_diagnostics("/p/test_a.py");
    assert_eq!(diags.len(), 1);
    assert_eq!(diags[0].code, "undeclared-fixture");
    assert_eq!(diags[0].message, "Fixture 'user_db' is used but not declared as a parameter");
    assert_eq!(diags[0].range, range(2, 11, 18));
    assert!(db.undeclared_diagnostics("/p/other.py").is_empty());
}

#[test]
fn go_to_definition_lands_on_the_definition_line() {
    let db = override_db();
    let loc = db.definition_location_at("/p/tests/test_example.py", 1, 20, TEST).unwrap();
    assert_eq!(loc.file_path, "/p/tests/conftest.py");
    assert_eq!(loc.range, range(1, 0, 0));
    assert!(db.definition_location_at("/p/tests/test_example.py", 0, 0, TEST).is_none());
}

#[test]
fn completion_kind_follows_the_context() {
    let mut db = FixtureDatabase::new();
    db.record_fixture_definition(def("alpha", "/p/conftest.py", 1));
    let sig = CompletionContext::FunctionSignature {
        function_name: "test_a".to_string(),
        function_line: 1,
        is_fixture: false,
        declared_params: vec!["alpha".to_string()],
        fixture_scope: None,
    };
    let (kind, entries) = db.completions_for_context(&sig, "/p/test_a.py", "def test_a(alpha):\n", None);
    assert_eq!(kind, CompletionKind::Parameters);
    assert!(entries.is_empty());
    let (kind, entries) =
        db.completions_for_context(&CompletionContext::UsefixturesDecorator, "/p/test_a.py", "", None);
    assert_eq!(kind, CompletionKind::Strings);
    assert_eq!(entries.len(), 1);
}
