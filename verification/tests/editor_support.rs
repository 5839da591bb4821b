use pytest_language_server::actions::{parameter_has_annotation, DiagnosticInfo};
use pytest_language_server::db::FixtureDatabase;
use pytest_language_server::lsp::{create_point_range, create_range, internal_line_to_lsp, lsp_line_to_internal};
use pytest_language_server::plugins::{editable_install_names, pth_source_candidates};
use pytest_language_server::types::{FixtureDefinition, FixtureScope, UndeclaredFixture};

// ── line conversions ────────────────────────────────────────────────────

#[test]
fn lsp_lines_round_trip() {
    assert_eq!(lsp_line_to_internal(0), 1);
    assert_eq!(lsp_line_to_internal(41), 42);
    assert_eq!(internal_line_to_lsp(42), 41);
    assert_eq!(internal_line_to_lsp(0), 0);
    for l in [0u32, 1, 7, 1000] {
        assert_eq!(internal_line_to_lsp(lsp_line_to_internal(l)), l);
    }
    let r = create_range(1, 2, 3, 4);
    assert_eq!((r.start.line, r.start.character, r.end.line, r.end.character), (1, 2, 3, 4));
    let p = create_point_range(5, 6);
    assert_eq!(p.start, p.end);
    assert_eq!(p.start.line, 5);
}

// ── offsets (line index through memchr) ─────────────────────────────────

#[test]
fn line_index_and_offsets() {
    let db = FixtureDatabase::new();
    let idx = FixtureDatabase::build_line_index("ab\ncd\n\nxé\n");
    assert_eq!(idx, vec![0, 3, 6, 7, 11]);
    assert_eq!(db.get_line_from_offset(0, &idx), 1);
    assert_eq!(db.get_line_from_offset(4, &idx), 2);
    assert_eq!(db.get_line_from_offset(6, &idx), 3);
    assert_eq!(db.get_char_position_from_offset(4, &idx), 1);
    // every line start lies on its own line
    for (i, start) in idx.iter().enumerate() {
        assert_eq!(db.get_line_from_offset(*start, &idx), i + 1);
    }
    assert_eq!(FixtureDatabase::build_line_index(""), vec![0]);
}

// ── words and decorators ────────────────────────────────────────────────

#[test]
fn word_under_cursor() {
    let db = FixtureDatabase::new();
    assert_eq!(db.extract_word_at_position("def test_x(my_fixture):", 13), Some("my_fixture".to_string()));
    assert_eq!(db.extract_word_at_position("def test_x(my_fixture):", 10), None);
    assert_eq!(db.extract_word_at_position("abc", 3), None);
}

#[test]
fn fixture_decorator_and_scope_from_text() {
    let lines = vec!["import pytest", "@pytest.fixture(scope=\"session\")", "def db():", "    pass"];
    assert!(FixtureDatabase::has_fixture_decorator_above(&lines, 2));
    assert_eq!(FixtureDatabase::extract_fixture_scope_from_text(&lines, 2), Some(FixtureScope::Session));
    let plain = vec!["def helper():", "    pass"];
    assert!(!FixtureDatabase::has_fixture_decorator_above(&plain, 0));
    assert_eq!(FixtureDatabase::extract_fixture_scope_from_text(&plain, 0), None);
}

#[test]
fn annotation_after_parameter() {
    let lines = vec!["def test_x(a: int, b):"];
    assert!(parameter_has_annotation(&lines, 1, 12));
    assert!(!parameter_has_annotation(&lines, 1, 20));
}

// ── skipped directories, editable installs ──────────────────────────────

#[test]
fn skipped_directories() {
    assert!(FixtureDatabase::should_skip_directory("__pycache__"));
    assert!(FixtureDatabase::should_skip_directory("mypkg.egg-info"));
    assert!(!FixtureDatabase::should_skip_directory("tests"));
}

#[test]
fn editable_install_names_read_direct_url_json() {
    let editable = r#"{"url": "file:///src/pkg", "dir_info": {"editable": true}}"#;
    assert_eq!(
        editable_install_names("My-Pkg-1.0.dist-info", editable),
        Some(("My-Pkg".to_string(), "my_pkg".to_string()))
    );
    let not_editable = r#"{"dir_info": {"editable": false}}"#;
    assert_eq!(editable_install_names("pkg-1.0.dist-info", not_editable), None);
    assert_eq!(editable_install_names("pkg-1.0.dist-info", "not json"), None);
    assert_eq!(editable_install_names("pkg-1.0.egg-info", editable), None);
}

#[test]
fn pth_lines_that_name_sources() {
    let content = "/src/pkg\n# a comment\nimport _virtualenv\n\n  /other/src  \n";
    assert_eq!(pth_source_candidates(content), vec!["/src/pkg".to_string(), "/other/src".to_string()]);
}

// ── quick fix for an undeclared fixture ─────────────────────────────────

fn def(name: &str, file: &str, line: usize) -> FixtureDefinition {
    FixtureDefinition {
        name: name.to_string(),
        file_path: file.to_string(),
        line,
        end_line: line + 1,
        start_char: 4,
        end_char: 4 + name.len(),
        docstring: None,
        return_type: None,
        return_type_imports: Vec::new(),
        is_third_party: false,
        is_plugin: false,
        dependencies: Vec::new(),
        scope: FixtureScope::Function,
        yield_line: None,
        autouse: false,
    }
}

#[test]
fn quickfix_adds_the_missing_parameter() {
    let mut db = FixtureDatabase::new();
    db.record_fixture_definition(def("user_db", "/p/conftest.py", 2));
    db.undeclared_fixtures.push(UndeclaredFixture {
        name: "user_db".to_string(),
        file_path: "/p/test_a.py".to_string(),
        line: 3,
        start_char: 11,
        end_char: 18,
        function_name: "test_broken".to_string(),
        function_line: 2,
    });
    let lines = vec!["import pytest", "def test_broken():", "    user = user_db.get_user(1)"];
    let diags = vec![DiagnosticInfo { code: Some("undeclared-fixture".to_string()), line: 2, character: 11 }];
    let only = Some(vec!["quickfix".to_string()]);
    let actions = db.code_actions("/p/test_a.py", &lines, &[], &only, 2, 11, &diags);
    assert_eq!(actions.len(), 1);
    assert_eq!(actions[0].title, "pytest-lsp: Add 'user_db' fixture parameter");
    assert_eq!(actions[0].kind, "quickfix");
    assert_eq!(actions[0].diagnostic, Some(0));
    assert!(actions[0].is_preferred);
    assert_eq!(actions[0].edits.len(), 1);
    assert_eq!(actions[0].edits[0].range.start.line, 1);
    assert_eq!(actions[0].edits[0].range.start.character, 16);
    assert_eq!(actions[0].edits[0].new_text, "user_db");
    // a diagnostic of another kind gets no quick fix
    let other = vec![DiagnosticInfo { code: Some("other".to_string()), line: 2, character: 11 }];
    assert!(db.code_actions("/p/test_a.py", &lines, &[], &only, 2, 11, &other).is_empty());
}
