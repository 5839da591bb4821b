use pytest_language_server::analysis::{FixtureMark, FunctionFacts, MarkedName, ParamFacts};
use pytest_language_server::context::{DecoratorKind, DecoratorSpan, FunctionOutline, ModuleOutline};
use pytest_language_server::db::FixtureDatabase;
use pytest_language_server::modscan::{import_scan_seeds, ImportScan};
use pytest_language_server::scan::{is_workspace_test_file, select_workspace_files};
use pytest_language_server::types::{CompletionContext, FixtureDefinition, FixtureScope, TypeImportSpec};

fn param(name: &str, line: usize, start: usize) -> ParamFacts {
    ParamFacts { name: name.to_string(), line, start_char: start }
}

fn facts(name: &str, fixture: Option<FixtureMark>, params: Vec<ParamFacts>) -> FunctionFacts {
    FunctionFacts {
        name: name.to_string(),
        line: 3,
        end_line: 5,
        name_start: 4,
        name_end: 4 + name.len(),
        usefixtures: Vec::new(),
        indirect: Vec::new(),
        fixture,
        params,
        docstring: None,
        return_type: None,
        return_type_imports: Vec::new(),
        yield_line: None,
    }
}

fn def(name: &str, file: &str, line: usize) -> FixtureDefinition {
    FixtureDefinition {
        name: name.to_string(),
        file_path: file.to_string(),
        line,
        end_line: line + 2,
        start_char: 4,
        end_char: 4 + name.len(),
        docstring: None,
        return_type: None,
        return_type_imports: Vec::new(),
        is_third_party: false,
        is_plugin: false,
        dependencies: Vec::new(),
        scope: FixtureScope::Function,
        yield_line: None,
        autouse: false,
    }
}

#[test]
fn a_fixture_function_records_its_definition_and_dependencies() {
    let mut db = FixtureDatabase::new();
    let mark = FixtureMark { custom_name: None, scope: Some(FixtureScope::Module), autouse: true };
    let f = facts("db", Some(mark), vec![param("request", 3, 7), param("tmp_path", 3, 16)]);
    let scans = db.record_function("/p/conftest.py", &f, false, false);
    assert_eq!(db.definitions.len(), 1);
    let d = &db.definitions[0];
    assert_eq!(d.name, "db");
    assert_eq!(d.scope, FixtureScope::Module);
    assert!(d.autouse);
    assert_eq!(d.dependencies, vec!["tmp_path".to_string()]);
    // `request` is recorded as a usage, but is no dependency
    assert_eq!(db.usages.len(), 2);
    assert_eq!(db.usages[1].name, "tmp_path");
    assert_eq!(db.usages[1].end_char, 24);
    assert_eq!(scans.len(), 1);
    assert_eq!(scans[0].declared, vec!["self", "request", "db", "request", "tmp_path"]);
}

#[test]
fn a_custom_fixture_name_is_used() {
    let mut db = FixtureDatabase::new();
    let mark = FixtureMark { custom_name: Some("renamed".to_string()), scope: None, autouse: false };
    db.record_function("/p/conftest.py", &facts("impl_fn", Some(mark), Vec::new()), false, false);
    assert_eq!(db.definitions[0].name, "renamed");
    assert_eq!(db.definitions[0].scope, FixtureScope::Function);
}

#[test]
fn a_test_function_records_usages_but_not_self() {
    let mut db = FixtureDatabase::new();
    let mut f = facts("test_it", None, vec![param("self", 3, 12), param("db", 3, 18)]);
    f.usefixtures.push(MarkedName { name: "clean".to_string(), line: 2, start_char: 24, end_char: 31 });
    let scans = db.record_function("/p/test_a.py", &f, false, false);
    assert_eq!(db.definitions.len(), 0);
    let names: Vec<&str> = db.usages.iter().map(|u| u.name.as_str()).collect();
    assert_eq!(names, vec!["clean", "db"]);
    // the string usage spans the text between the quotes
    assert_eq!((db.usages[0].start_char, db.usages[0].end_char), (25, 30));
    assert!(!db.usages[0].is_parameter);
    assert_eq!(scans.len(), 1);
    assert_eq!(scans[0].declared, vec!["self", "request", "self", "db"]);
}

#[test]
fn a_plain_function_records_nothing() {
    let mut db = FixtureDatabase::new();
    let scans = db.record_function("/p/test_a.py", &facts("helper", None, vec![param("x", 3, 11)]), false, false);
    assert!(scans.is_empty());
    assert!(db.usages.is_empty());
}

#[test]
fn an_assignment_fixture_is_single_line() {
    let mut db = FixtureDatabase::new();
    db.record_assignment_fixture("/p/conftest.py", "alias", 7, 0, 5, None, true, false);
    let d = &db.definitions[0];
    assert_eq!((d.line, d.end_line), (7, 7));
    assert!(d.is_third_party);
    assert!(!d.autouse);
}

#[test]
fn type_aliases_expand_transitively() {
    let aliases = vec![
        ("A".to_string(), "B".to_string()),
        ("B".to_string(), "Dict[str, int]".to_string()),
    ];
    assert_eq!(FixtureDatabase::expand_type_aliases("Optional[A]", &aliases), "Optional[Dict[str, int]]");
    assert_eq!(FixtureDatabase::expand_type_aliases("MyTypeExtra", &aliases), "MyTypeExtra");
}

#[test]
fn type_identifiers_of_annotations() {
    assert_eq!(FixtureDatabase::extract_type_identifiers("dict[str, Any]"), vec!["dict", "str", "Any"]);
    assert_eq!(FixtureDatabase::extract_type_identifiers("Optional[Path]"), vec!["Optional", "Path"]);
    assert_eq!(FixtureDatabase::extract_type_identifiers("pathlib.Path"), vec!["pathlib", "Path"]);
    assert_eq!(FixtureDatabase::extract_type_identifiers("Path | None"), vec!["Path", "None"]);
    assert_eq!(
        FixtureDatabase::extract_type_identifiers("list[dict[str, Any]]"),
        vec!["list", "dict", "str", "Any"]
    );
}

#[test]
fn return_type_imports_come_from_the_fixture_file() {
    let db = FixtureDatabase::new();
    let map = vec![(
        "Path".to_string(),
        TypeImportSpec { check_name: "Path".to_string(), import_statement: "from pathlib import Path".to_string() },
    )];
    let names = vec!["User".to_string()];
    let specs = db.resolve_return_type_imports("tuple[Path, User, int]", &map, &names, Some("tests.conftest"));
    assert_eq!(specs.len(), 2);
    assert_eq!(specs[0].import_statement, "from pathlib import Path");
    assert_eq!(specs[1].check_name, "User");
    assert_eq!(specs[1].import_statement, "from tests.conftest import User");
    let none = db.resolve_return_type_imports("User", &map, &names, None);
    assert!(none.is_empty());
}

#[test]
fn availability_follows_conftest_directories() {
    let mut db = FixtureDatabase::new();
    db.record_fixture_definition(def("shared", "/p/conftest.py", 1));
    db.record_fixture_definition(def("deep", "/p/sub/conftest.py", 1));
    db.record_fixture_definition(def("mocker", "/v/site-packages/m/plugin.py", 1));
    assert!(db.is_available_fixture("/p/sub/test_a.py", "shared"));
    assert!(!db.is_available_fixture("/p/test_a.py", "deep"));
    assert!(db.is_available_fixture("/anywhere/test_b.py", "mocker"));
    assert!(!db.is_available_fixture("/p/test_a.py", "missing"));
}

#[test]
fn undeclared_use_respects_declarations_and_locals() {
    let mut db = FixtureDatabase::new();
    db.record_fixture_definition(def("user_db", "/p/conftest.py", 1));
    let declared = vec!["self".to_string(), "request".to_string()];
    let locals = vec![("user_db".to_string(), 10usize)];
    // used before the local assignment on line 10: a fixture
    assert!(db.record_name_reference("/p/test_a.py", "user_db", 8, 4, 11, &declared, &locals, "test_x", 7));
    // used after it: the local variable
    assert!(!db.record_name_reference("/p/test_a.py", "user_db", 11, 4, 11, &declared, &locals, "test_x", 7));
    let declared2 = vec!["user_db".to_string()];
    assert!(!db.record_name_reference("/p/test_a.py", "user_db", 8, 4, 11, &declared2, &[], "test_x", 7));
    assert_eq!(db.get_undeclared_fixtures("/p/test_a.py").len(), 1);
}

#[test]
fn workspace_scan_takes_test_files_only() {
    let none: Vec<String> = Vec::new();
    assert!(is_workspace_test_file("/ws/tests/test_a.py", "/ws", &none));
    assert!(is_workspace_test_file("/ws/conftest.py", "/ws", &none));
    assert!(is_workspace_test_file("/ws/pkg/a_test.py", "/ws", &none));
    assert!(!is_workspace_test_file("/ws/pkg/helpers.py", "/ws", &none));
    assert!(!is_workspace_test_file("/ws/.venv/lib/test_x.py", "/ws", &none));
    assert!(!is_workspace_test_file("/ws/pkg.egg-info/test_x.py", "/ws", &none));
}

#[test]
fn workspace_scan_honours_exclude_patterns() {
    let pats = vec!["tests/legacy/*".to_string()];
    let paths = vec![
        "/ws/tests/legacy/test_old.py".to_string(),
        "/ws/tests/test_new.py".to_string(),
        "/ws/README.md".to_string(),
    ];
    assert_eq!(select_workspace_files(&paths, "/ws", &pats), vec!["/ws/tests/test_new.py".to_string()]);
}

#[test]
fn import_scan_starts_from_tests_and_plugins() {
    let cached = vec![
        "/ws/tests/test_a.py".to_string(),
        "/ws/src/app.py".to_string(),
        "/venv/site-packages/plug/fixtures.py".to_string(),
    ];
    let sp = vec!["/venv/site-packages".to_string()];
    let seeds = import_scan_seeds(&cached, &sp, &[]);
    assert_eq!(seeds, vec!["/ws/tests/test_a.py".to_string(), "/venv/site-packages/plug/fixtures.py".to_string()]);
}

#[test]
fn import_scan_examines_each_file_once() {
    let mut scan = ImportScan::new();
    assert!(scan.begin_file("/ws/conftest.py"));
    assert!(!scan.begin_file("/ws/conftest.py"));
    let cached = vec!["/ws/cached.py".to_string()];
    let mut new_modules: Vec<String> = Vec::new();
    scan.note_module("/ws/fixtures.py", &cached, &mut new_modules);
    scan.note_module("/ws/fixtures.py", &cached, &mut new_modules);
    scan.note_module("/ws/cached.py", &cached, &mut new_modules);
    scan.note_module("/ws/conftest.py", &cached, &mut new_modules);
    assert_eq!(new_modules, vec!["/ws/fixtures.py".to_string()]);
}

fn outline(name: &str, is_fixture: bool) -> FunctionOutline {
    FunctionOutline {
        name: name.to_string(),
        start_line: 2,
        end_line: 6,
        is_fixture,
        scope: None,
        params: vec!["a".to_string()],
        last_signature_line: Some(3),
        first_body_line: Some(5),
    }
}

const MULTI: &str = "import pytest\ndef test_x(\n    a,\n):\n    x = 1\n    return x\n";

#[test]
fn signature_ends_at_the_line_with_the_colon() {
    let db = FixtureDatabase::new();
    assert_eq!(db.find_signature_end_line(2, Some(3), Some(5), MULTI), 4);
    // no colon before the body: the line before it
    assert_eq!(db.find_signature_end_line(2, Some(3), Some(5), "a\nb\nc\nd\ne\n"), 4);
    assert_eq!(db.find_signature_end_line(2, None, None, "a\nb\n"), 2);
}

#[test]
fn function_context_in_signature_and_body() {
    let db = FixtureDatabase::new();
    let o = outline("test_x", false);
    match db.get_func_context(&o, MULTI, 3) {
        Some(CompletionContext::FunctionSignature { function_line, declared_params, .. }) => {
            assert_eq!(function_line, 2);
            assert_eq!(declared_params, vec!["a".to_string()]);
        },
        other => panic!("unexpected {:?}", other),
    }
    match db.get_func_context(&o, MULTI, 5) {
        Some(CompletionContext::FunctionBody { fixture_scope, .. }) => assert_eq!(fixture_scope, None),
        other => panic!("unexpected {:?}", other),
    }
    assert!(db.get_func_context(&outline("helper", false), MULTI, 3).is_none());
    assert!(db.get_func_context(&o, MULTI, 9).is_none());
    match db.get_func_context(&outline("make", true), MULTI, 5) {
        Some(CompletionContext::FunctionBody { fixture_scope, is_fixture, .. }) => {
            assert!(is_fixture);
            assert_eq!(fixture_scope, Some(FixtureScope::Function));
        },
        other => panic!("unexpected {:?}", other),
    }
}

#[test]
fn decorators_take_precedence_in_completion_context() {
    let db = FixtureDatabase::new();
    let m = ModuleOutline {
        decorators: vec![DecoratorSpan { start_line: 1, end_line: 1, kind: DecoratorKind::Usefixtures }],
        functions: vec![outline("test_x", false)],
    };
    assert!(matches!(db.get_completion_context(MULTI, 0, Some(&m)), Some(CompletionContext::UsefixturesDecorator)));
    assert!(matches!(
        db.get_completion_context(MULTI, 2, Some(&m)),
        Some(CompletionContext::FunctionSignature { .. })
    ));
    let spans = vec![
        DecoratorSpan { start_line: 4, end_line: 4, kind: DecoratorKind::Other },
        DecoratorSpan { start_line: 4, end_line: 5, kind: DecoratorKind::Parametrize },
    ];
    assert!(matches!(db.check_decorator_context(&spans, 4), Some(CompletionContext::ParametrizeIndirect)));
    assert!(db.check_decorator_context(&spans, 9).is_none());
}

#[test]
fn containing_function_by_line() {
    let db = FixtureDatabase::new();
    let fs = vec![outline("test_x", false)];
    assert_eq!(db.find_containing_function(&fs, 4), Some("test_x".to_string()));
    assert_eq!(db.find_containing_function(&fs, 7), None);
}

#[test]
fn inside_a_test_or_fixture_only() {
    let db = FixtureDatabase::new();
    let fs = vec![outline("helper", false), outline("test_x", false)];
    let (name, is_fixture, params) = db.is_inside_function(&fs, 3).unwrap();
    assert_eq!(name, "test_x");
    assert!(!is_fixture);
    assert_eq!(params, vec!["a".to_string()]);
    assert!(db.is_inside_function(&fs, 0).is_none());
    assert!(db.find_enclosing_function(&fs, 9).is_none());
}
