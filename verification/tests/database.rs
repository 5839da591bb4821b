use pytest_language_server::db::{FileNames, FixtureDatabase};
use pytest_language_server::tree::TreeLine;
use pytest_language_server::types::{FixtureDefinition, FixtureScope, FixtureUsage};

fn def(name: &str, file: &str, line: usize, deps: &[&str]) -> FixtureDefinition {
    FixtureDefinition {
        name: name.to_string(),
        file_path: file.to_string(),
        line,
        end_line: line + 2,
        start_char: 4,
        end_char: 4 + name.chars().count(),
        docstring: None,
        return_type: None,
        return_type_imports: Vec::new(),
        is_third_party: false,
        is_plugin: false,
        dependencies: deps.iter().map(|d| d.to_string()).collect(),
        scope: FixtureScope::Function,
        yield_line: None,
        autouse: false,
    }
}

fn usage(name: &str, file: &str, line: usize, start: usize) -> FixtureUsage {
    FixtureUsage {
        name: name.to_string(),
        file_path: file.to_string(),
        line,
        start_char: start,
        end_char: start + name.chars().count(),
        is_parameter: true,
    }
}

/// The overriding scenario of the documentation: a root conftest, a child
/// conftest overriding it, and a test using it.
fn override_db() -> FixtureDatabase {
    let mut db = FixtureDatabase::new();
    db.record_fixture_definition(def("cli_runner", "/p/conftest.py", 2, &[]));
    db.record_fixture_definition(def("cli_runner", "/p/tests/conftest.py", 2, &["cli_runner"]));
    // the parameter of the child fixture
    db.record_fixture_usage(usage("cli_runner", "/p/tests/conftest.py", 2, 15));
    // the test
    db.record_fixture_usage(usage("cli_runner", "/p/tests/test_example.py", 2, 17));
    db
}

#[test]
fn closest_conftest_wins_over_parent() {
    let db = override_db();
    let d = db.find_closest_definition("/p/tests/test_example.py", "cli_runner").unwrap();
    assert_eq!(d.file_path, "/p/tests/conftest.py");
}

#[test]
fn same_file_definition_has_priority() {
    let mut db = override_db();
    db.record_fixture_definition(def("cli_runner", "/p/tests/test_example.py", 5, &[]));
    let d = db.find_closest_definition("/p/tests/test_example.py", "cli_runner").unwrap();
    assert_eq!(d.file_path, "/p/tests/test_example.py");
}

#[test]
fn same_file_greatest_line_wins() {
    let mut db = FixtureDatabase::new();
    db.record_fixture_definition(def("f", "/p/test_a.py", 9, &[]));
    db.record_fixture_definition(def("f", "/p/test_a.py", 3, &[]));
    let d = db.find_closest_definition("/p/test_a.py", "f").unwrap();
    assert_eq!(d.line, 9);
}

#[test]
fn third_party_is_the_last_resort() {
    let mut db = FixtureDatabase::new();
    let mut tp = def("mocker", "/venv/site-packages/pytest_mock/plugin.py", 10, &[]);
    tp.is_third_party = true;
    db.record_fixture_definition(tp);
    let d = db.find_closest_definition("/p/tests/test_x.py", "mocker").unwrap();
    assert!(d.is_third_party);
    assert!(db.find_closest_definition("/p/tests/test_x.py", "unknown").is_none());
}

#[test]
fn override_parameter_resolves_to_parent() {
    let db = override_db();
    let u = usage("cli_runner", "/p/tests/conftest.py", 2, 15);
    let d = db.resolve_usage(&u).unwrap();
    assert_eq!(d.file_path, "/p/conftest.py");
    let t = usage("cli_runner", "/p/tests/test_example.py", 2, 17);
    assert_eq!(db.resolve_usage(&t).unwrap().file_path, "/p/tests/conftest.py");
}

#[test]
fn references_follow_resolution() {
    let db = override_db();
    let child = def("cli_runner", "/p/tests/conftest.py", 2, &["cli_runner"]);
    let parent = def("cli_runner", "/p/conftest.py", 2, &[]);
    let refs_child = db.find_references_for_definition(&child);
    assert_eq!(refs_child.len(), 1);
    assert_eq!(refs_child[0].file_path, "/p/tests/test_example.py");
    let refs_parent = db.find_references_for_definition(&parent);
    assert_eq!(refs_parent.len(), 1);
    assert_eq!(refs_parent[0].file_path, "/p/tests/conftest.py");
    assert_eq!(db.find_fixture_references("cli_runner").len(), 2);
}

#[test]
fn cleanup_removes_only_that_file() {
    let mut db = override_db();
    db.cleanup_definitions_for_file("/p/tests/conftest.py");
    assert_eq!(db.definitions.len(), 1);
    assert_eq!(db.definitions[0].file_path, "/p/conftest.py");
    db.cleanup_usages_for_file("/p/tests/conftest.py");
    assert_eq!(db.usages.len(), 1);
    assert_eq!(db.usages_for_file("/p/tests/test_example.py").len(), 1);
}

#[test]
fn definitions_at_lines() {
    let db = override_db();
    assert_eq!(db.get_fixture_definition_at_line("/p/conftest.py", 2).unwrap().name, "cli_runner");
    assert!(db.get_fixture_definition_at_line("/p/conftest.py", 3).is_none());
    assert!(db.get_definition_at_line("/p/conftest.py", 2, "other").is_none());
    assert_eq!(db.definitions_named("cli_runner").len(), 2);
}

#[test]
fn available_fixtures_sorted_without_shadowed() {
    let mut db = override_db();
    db.record_fixture_definition(def("alpha", "/p/conftest.py", 8, &[]));
    db.record_fixture_definition(def("zeta", "/elsewhere/conftest.py", 8, &[]));
    let names: Vec<String> = db
        .get_available_fixtures("/p/tests/test_example.py")
        .iter()
        .map(|d| d.name.clone())
        .collect();
    assert_eq!(names, vec!["alpha".to_string(), "cli_runner".to_string()]);
    let avail = db.get_available_fixtures("/p/tests/test_example.py");
    assert_eq!(avail[1].file_path, "/p/tests/conftest.py");
}

#[test]
fn imported_fixture_in_conftest_is_available() {
    let mut db = FixtureDatabase::new();
    db.record_fixture_definition(def("shared", "/p/helpers/fixtures.py", 3, &[]));
    db.fixture_imports.push(FileNames {
        file_path: "/p/tests/conftest.py".to_string(),
        names: vec!["shared".to_string()],
    });
    let d = db.find_closest_definition("/p/tests/test_a.py", "shared").unwrap();
    assert_eq!(d.file_path, "/p/helpers/fixtures.py");
    assert_eq!(db.importing_files("shared"), vec!["/p/tests/conftest.py".to_string()]);
}

#[test]
fn scope_mismatch_reported_for_broader_fixture() {
    let mut db = FixtureDatabase::new();
    let mut session = def("db_conn", "/p/conftest.py", 4, &["tmp_thing"]);
    session.scope = FixtureScope::Session;
    db.record_fixture_definition(session);
    db.record_fixture_definition(def("tmp_thing", "/p/conftest.py", 10, &[]));
    let m = db.detect_scope_mismatches_in_file("/p/conftest.py");
    assert_eq!(m.len(), 1);
    assert_eq!(m[0].fixture.name, "db_conn");
    assert_eq!(m[0].dependency.name, "tmp_thing");
    assert!(db.detect_scope_mismatches_in_file("/p/other.py").is_empty());
}

#[test]
fn scope_parse_and_order() {
    assert_eq!(FixtureScope::parse("session"), Some(FixtureScope::Session));
    assert_eq!(FixtureScope::parse("bogus"), None);
    assert!(FixtureScope::Module.is_broader_than(&FixtureScope::Class));
    assert!(!FixtureScope::Function.is_broader_than(&FixtureScope::Function));
}

// ── cycles ──────────────────────────────────────────────────────────────

#[test]
fn two_fixtures_depending_on_each_other_form_a_cycle() {
    let mut db = FixtureDatabase::new();
    db.record_fixture_definition(def("a", "/p/conftest.py", 1, &["b"]));
    db.record_fixture_definition(def("b", "/p/conftest.py", 5, &["a"]));
    let cycles = db.detect_fixture_cycles();
    assert_eq!(cycles.len(), 1);
    assert_eq!(cycles[0].cycle_path, vec!["a".to_string(), "b".to_string(), "a".to_string()]);
    assert_eq!(cycles[0].fixture.name, "a");
    assert_eq!(db.detect_fixture_cycles_in_file("/p/conftest.py").len(), 1);
    assert!(db.detect_fixture_cycles_in_file("/p/other.py").is_empty());
}

#[test]
fn acyclic_dependencies_report_no_cycle() {
    let mut db = FixtureDatabase::new();
    db.record_fixture_definition(def("a", "/p/conftest.py", 1, &["b", "c", "request"]));
    db.record_fixture_definition(def("b", "/p/conftest.py", 5, &["c"]));
    db.record_fixture_definition(def("c", "/p/conftest.py", 9, &[]));
    assert!(db.detect_fixture_cycles().is_empty());
}

#[test]
fn self_dependency_is_a_cycle() {
    let mut db = FixtureDatabase::new();
    db.record_fixture_definition(def("a", "/p/conftest.py", 1, &["a"]));
    let cycles = db.detect_fixture_cycles();
    assert_eq!(cycles.len(), 1);
    assert_eq!(cycles[0].cycle_path, vec!["a".to_string(), "a".to_string()]);
}

#[test]
fn override_chain_uses_first_definition_only() {
    // The second definition of `a` depends on `a` (an override), but the
    // graph follows the first definition of each name.
    let mut db = FixtureDatabase::new();
    db.record_fixture_definition(def("a", "/p/conftest.py", 1, &[]));
    db.record_fixture_definition(def("a", "/p/tests/conftest.py", 1, &["a"]));
    assert!(db.detect_fixture_cycles().is_empty());
}

// ── positions ───────────────────────────────────────────────────────────

#[test]
fn go_to_definition_from_a_usage() {
    let db = override_db();
    let content = "import pytest\ndef test_example(cli_runner):\n    pass\n";
    let d = db.find_fixture_definition("/p/tests/test_example.py", 1, 20, content).unwrap();
    assert_eq!(d.file_path, "/p/tests/conftest.py");
    assert!(db.find_fixture_definition("/p/tests/test_example.py", 1, 2, content).is_none());
    assert!(db.find_fixture_definition("/p/tests/test_example.py", 9, 2, content).is_none());
    assert_eq!(
        db.find_fixture_at_position("/p/tests/test_example.py", 1, 20, content),
        Some("cli_runner".to_string())
    );
}

#[test]
fn go_to_definition_from_an_overriding_parameter() {
    let db = override_db();
    // line 1 (0-based) holds the child fixture, recorded on 1-based line 2
    let c2 = "x\ndef cli_runner(cli_runner):\n";
    let d = db.find_fixture_definition("/p/tests/conftest.py", 1, 16, c2).unwrap();
    assert_eq!(d.file_path, "/p/conftest.py");
    let own = db.find_fixture_or_definition_at_position("/p/tests/conftest.py", 1, 5, c2).unwrap();
    assert_eq!(own.file_path, "/p/tests/conftest.py");
}

// ── usage counts and unused fixtures ────────────────────────────────────

fn usage_db() -> FixtureDatabase {
    let mut db = FixtureDatabase::new();
    db.record_fixture_definition(def("used", "/p/conftest.py", 1, &[]));
    db.record_fixture_definition(def("unused_b", "/p/conftest.py", 5, &[]));
    db.record_fixture_definition(def("unused_a", "/p/conftest.py", 9, &[]));
    db.record_fixture_definition(def("other", "/p/a/conftest.py", 1, &[]));
    let mut auto = def("auto", "/p/conftest.py", 13, &[]);
    auto.autouse = true;
    db.record_fixture_definition(auto);
    db.record_fixture_usage(usage("used", "/p/test_x.py", 1, 10));
    db.record_fixture_usage(usage("used", "/p/a/test_y.py", 1, 10));
    db.record_fixture_usage(usage("missing", "/p/test_x.py", 1, 20));
    db
}

#[test]
fn usage_counts_per_definition() {
    let db = usage_db();
    let counts = db.compute_definition_usage_counts();
    assert_eq!(counts.len(), 5);
    assert_eq!(counts[0].name, "used");
    assert_eq!(counts[0].count, 2);
    assert_eq!(counts[1].count, 0);
    let total: usize = counts.iter().map(|c| c.count).sum();
    assert_eq!(total, 2);
}

#[test]
fn unused_fixtures_sorted_by_path_then_name() {
    let db = usage_db();
    let unused = db.get_unused_fixtures();
    assert_eq!(
        unused,
        vec![
            ("/p/a/conftest.py".to_string(), "other".to_string()),
            ("/p/conftest.py".to_string(), "unused_a".to_string()),
            ("/p/conftest.py".to_string(), "unused_b".to_string()),
        ]
    );
}

#[test]
fn paths_sort_by_components() {
    let mut db = FixtureDatabase::new();
    db.record_fixture_definition(def("x", "/p/b-c/conftest.py", 1, &[]));
    db.record_fixture_definition(def("y", "/p/b/conftest.py", 1, &[]));
    let unused = db.get_unused_fixtures();
    // `b` < `b-c` as a component, though "/p/b-c" < "/p/b/" as strings.
    assert_eq!(unused[0].0, "/p/b/conftest.py");
    assert_eq!(unused[1].0, "/p/b-c/conftest.py");
}

// ── the fixtures tree ───────────────────────────────────────────────────

fn prefix_and_name(l: &TreeLine) -> (String, String) {
    match l {
        TreeLine::Directory { prefix, name, .. } => (prefix.clone(), format!("{}/", name)),
        TreeLine::File { prefix, name, fixture_count } => (prefix.clone(), format!("{} ({})", name, fixture_count)),
        TreeLine::Fixture { prefix, name, usage_count, autouse } => {
            (prefix.clone(), format!("{} {} {}", name, usage_count, autouse))
        }
    }
}

#[test]
fn fixtures_tree_lists_files_and_directories() {
    let db = usage_db();
    let lines = db.fixtures_tree("/p", false, false).unwrap();
    let got: Vec<(String, String)> = lines.iter().map(prefix_and_name).collect();
    let want = vec![
        ("".to_string(), "a/".to_string()),
        ("└── ".to_string(), "conftest.py (1)".to_string()),
        ("    └── ".to_string(), "other 0 false".to_string()),
        ("".to_string(), "conftest.py (4)".to_string()),
        ("├── ".to_string(), "auto 0 true".to_string()),
        ("├── ".to_string(), "unused_a 0 false".to_string()),
        ("├── ".to_string(), "unused_b 0 false".to_string()),
        ("└── ".to_string(), "used 2 false".to_string()),
    ];
    assert_eq!(got, want);
}

#[test]
fn fixtures_tree_filters() {
    let db = usage_db();
    let used: Vec<(String, String)> = db.fixtures_tree("/p", true, false).unwrap().iter().map(prefix_and_name).collect();
    assert_eq!(
        used,
        vec![
            ("".to_string(), "conftest.py (2)".to_string()),
            ("├── ".to_string(), "auto 0 true".to_string()),
            ("└── ".to_string(), "used 2 false".to_string()),
        ]
    );
    let unused = db.fixtures_tree("/p", false, true).unwrap();
    assert_eq!(unused.len(), 6);
    assert!(FixtureDatabase::new().fixtures_tree("/p", false, false).is_none());
}

#[test]
fn independent_cycles_are_each_reported() {
    let mut db = FixtureDatabase::new();
    db.record_fixture_definition(def("a", "/p/one/conftest.py", 1, &["b"]));
    db.record_fixture_definition(def("b", "/p/one/conftest.py", 5, &["a"]));
    db.record_fixture_definition(def("c", "/p/two/conftest.py", 1, &["d"]));
    db.record_fixture_definition(def("d", "/p/two/conftest.py", 5, &["c"]));
    db.record_fixture_definition(def("e", "/p/two/conftest.py", 9, &["c"]));
    let cycles = db.detect_fixture_cycles();
    assert_eq!(cycles.len(), 2);
    assert_eq!(db.detect_fixture_cycles_in_file("/p/one/conftest.py").len(), 1);
    assert_eq!(db.detect_fixture_cycles_in_file("/p/two/conftest.py").len(), 1);
}
