use pytest_language_server::module_analysis::ModuleOrigin;
use pytest_language_server::pyast::{PyAnnotation, PyParam, PySlice};
use pytest_language_server::actions::DiagnosticInfo;
use pytest_language_server::db::FixtureDatabase;
use pytest_language_server::imports::find_matching_from_import_line;
use pytest_language_server::pyast::{
    collect_local_variables, find_yield, fixture_autouse, fixture_name, fixture_scope, is_fixture_decorator,
    is_parametrize_decorator, is_usefixtures_decorator, names_in_body, parametrize_indirect, raw_docstring,
    usefixtures_from_expr, usefixtures_names, PyAlias, PyExpr, PyHandler, PyKeyword, PyName, PyStmt,
};
use pytest_language_server::pyast::{function_name_position, assignment_fixtures, pytestmark_value, build_import_map, collect_module_level_names, imported_modules, imported_names};
use pytest_language_server::types::{FixtureDefinition, FixtureScope, UndeclaredFixture};

fn name(id: &str, start: usize) -> PyExpr {
    PyExpr::Name { id: id.to_string(), start, end: start + id.len() }
}

fn attr(value: PyExpr, a: &str) -> PyExpr {
    PyExpr::Attribute { value: Box::new(value), attr: a.to_string() }
}

fn s(v: &str, start: usize) -> PyExpr {
    PyExpr::Str { value: v.to_string(), start, end: start + v.len() + 2 }
}

fn kw(arg: &str, value: PyExpr) -> PyKeyword {
    PyKeyword { arg: Some(arg.to_string()), value }
}

fn call(func: PyExpr, args: Vec<PyExpr>, keywords: Vec<PyKeyword>) -> PyExpr {
    PyExpr::Call { func: Box::new(func), args, keywords }
}

fn mark(m: &str) -> PyExpr {
    attr(attr(name("pytest", 0), "mark"), m)
}

fn func(n: &str, decorators: Vec<PyExpr>, start: usize) -> PyStmt {
    PyStmt::FunctionDef {
        name: n.to_string(),
        decorators,
        params: vec![],
        return_annotation: None,
        body: vec![],
        start,
        end: start + 10,
    }
}

fn alias(name: &str, asname: Option<&str>) -> PyAlias {
    PyAlias { name: name.to_string(), asname: asname.map(|a| a.to_string()) }
}

fn ids(v: &[PyName]) -> Vec<(String, usize, usize)> {
    v.iter().map(|n| (n.id.clone(), n.start, n.end)).collect()
}

#[test]
fn fixture_decorators_are_recognised() {
    assert!(is_fixture_decorator(&attr(name("pytest", 0), "fixture")));
    assert!(is_fixture_decorator(&name("fixture", 0)));
    assert!(is_fixture_decorator(&call(attr(name("pytest", 0), "fixture"), vec![], vec![])));
    assert!(!is_fixture_decorator(&mark("usefixtures")));
    assert!(!is_fixture_decorator(&attr(name("other", 0), "fixture")));
}

#[test]
fn fixture_decorator_arguments_are_read() {
    let d = call(
        attr(name("pytest", 0), "fixture"),
        vec![],
        vec![kw("scope", s("module", 20)), kw("name", s("db", 40)), kw("autouse", PyExpr::Bool { value: true })],
    );
    assert_eq!(fixture_scope(&d), Some(FixtureScope::Module));
    assert_eq!(fixture_name(&d), Some("db".to_string()));
    assert!(fixture_autouse(&d));
    let plain = attr(name("pytest", 0), "fixture");
    assert_eq!(fixture_scope(&plain), None);
    assert_eq!(fixture_name(&plain), None);
    assert!(!fixture_autouse(&plain));
    let bad_scope = call(name("fixture", 0), vec![], vec![kw("scope", s("galaxy", 9))]);
    assert_eq!(fixture_scope(&bad_scope), None);
}

#[test]
fn usefixtures_marks_list_their_strings() {
    let m = call(mark("usefixtures"), vec![s("a", 30), name("x", 35), s("b", 40)], vec![]);
    assert!(is_usefixtures_decorator(&m));
    assert!(!is_parametrize_decorator(&m));
    assert_eq!(ids(&usefixtures_names(&m)), vec![("a".to_string(), 30, 33), ("b".to_string(), 40, 43)]);
    let other = call(mark("skip"), vec![s("a", 30)], vec![]);
    assert!(usefixtures_names(&other).is_empty());
    let list = PyExpr::List { elts: vec![m, other, call(mark("usefixtures"), vec![s("c", 50)], vec![])] };
    assert_eq!(
        ids(&usefixtures_from_expr(&list)),
        vec![("a".to_string(), 30, 33), ("b".to_string(), 40, 43), ("c".to_string(), 50, 53)]
    );
}

#[test]
fn indirect_parametrize_names_its_fixtures() {
    let p = call(
        mark("parametrize"),
        vec![s("user, role", 10), PyExpr::List { elts: vec![] }],
        vec![kw("indirect", PyExpr::Bool { value: true })],
    );
    assert!(is_parametrize_decorator(&p));
    assert_eq!(ids(&parametrize_indirect(&p)), vec![("user".to_string(), 10, 22), ("role".to_string(), 10, 22)]);
    let listed = call(
        mark("parametrize"),
        vec![s("user,role", 10)],
        vec![kw("indirect", PyExpr::List { elts: vec![s("role", 40)] })],
    );
    assert_eq!(ids(&parametrize_indirect(&listed)), vec![("role".to_string(), 40, 46)]);
    let direct = call(mark("parametrize"), vec![s("user", 10)], vec![]);
    assert!(parametrize_indirect(&direct).is_empty());
}

#[test]
fn body_names_come_in_source_order() {
    // x = user_db.get(key)
    // if flag:
    //     assert other
    let body = vec![
        PyStmt::Assign {
            targets: vec![name("x", 0)],
            value: call(attr(name("user_db", 4), "get"), vec![name("key", 16)], vec![]),
            start: 0,
        },
        PyStmt::If {
            test: name("flag", 24),
            body: vec![PyStmt::Assert { test: name("other", 42), msg: None }],
            orelse: vec![],
        },
        func("inner", vec![], 60),
    ];
    assert_eq!(
        ids(&names_in_body(&body)),
        vec![
            ("user_db".to_string(), 4, 11),
            ("key".to_string(), 16, 19),
            ("flag".to_string(), 24, 28),
            ("other".to_string(), 42, 47),
        ]
    );
    let locals: Vec<(String, usize)> =
        collect_local_variables(&body).into_iter().map(|b| (b.name, b.at)).collect();
    assert_eq!(locals, vec![("x".to_string(), 0), ("inner".to_string(), 60)]);
}

#[test]
fn local_variables_cover_loops_handlers_and_imports() {
    let body = vec![
        PyStmt::For {
            target: PyExpr::Tuple { elts: vec![name("a", 4), PyExpr::Starred { value: Box::new(name("b", 8)) }] },
            iter: name("items", 13),
            body: vec![PyStmt::AugAssign { target: name("total", 25), value: name("a", 34) }],
            orelse: vec![],
        },
        PyStmt::Try {
            body: vec![PyStmt::Import {
                aliases: vec![alias("os", None), alias("pathlib", Some("p"))],
                from: None,
                start: 50,
            }],
            handlers: vec![PyHandler { name: Some("err".to_string()), start: 70, body: vec![] }],
            orelse: vec![],
            finalbody: vec![],
        },
    ];
    let locals: Vec<(String, usize)> =
        collect_local_variables(&body).into_iter().map(|b| (b.name, b.at)).collect();
    assert_eq!(
        locals,
        vec![
            ("a".to_string(), 4),
            ("b".to_string(), 8),
            ("total".to_string(), 25),
            ("os".to_string(), 50),
            ("p".to_string(), 50),
            ("err".to_string(), 70),
        ]
    );
}

#[test]
fn yields_and_docstrings_are_found() {
    let body = vec![
        PyStmt::Expr { value: s("Doc.", 10), start: 10 },
        PyStmt::With {
            items: vec![],
            body: vec![PyStmt::Expr { value: PyExpr::Yield { value: Some(Box::new(name("conn", 60))) }, start: 54 }],
        },
    ];
    assert_eq!(find_yield(&body), Some(54));
    assert_eq!(raw_docstring(&body), Some("Doc.".to_string()));
    let plain = vec![PyStmt::Return { value: Some(name("x", 7)), start: 0 }];
    assert_eq!(find_yield(&plain), None);
    assert_eq!(raw_docstring(&plain), None);
}

#[test]
fn blank_from_import_line_is_skipped() {
    assert_eq!(find_matching_from_import_line(&["from typing import "], "typing"), None);
    assert_eq!(
        find_matching_from_import_line(&["from typing import ", "from typing import Any"], "typing"),
        Some((1, vec!["Any".to_string()]))
    );
}

#[test]
fn dist_info_name_with_non_ascii_characters() {
    assert_eq!(
        FixtureDatabase::extract_package_name_from_dist_info("é-1.0.dist-info"),
        Some(("é".to_string(), "é".to_string()))
    );
    assert_eq!(
        FixtureDatabase::extract_package_name_from_dist_info("éé-1.0.dist-info"),
        Some(("éé".to_string(), "éé".to_string()))
    );
}

fn user_db_def() -> FixtureDefinition {
    FixtureDefinition {
        name: "user_db".to_string(),
        file_path: "/p/conftest.py".to_string(),
        line: 2,
        end_line: 3,
        start_char: 4,
        end_char: 11,
        docstring: None,
        return_type: None,
        return_type_imports: Vec::new(),
        is_third_party: false,
        is_plugin: false,
        dependencies: Vec::new(),
        scope: FixtureScope::Function,
        yield_line: None,
        autouse: false,
    }
}

#[test]
fn quickfix_on_a_multi_line_signature() {
    let mut db = FixtureDatabase::new();
    db.record_fixture_definition(user_db_def());
    db.undeclared_fixtures.push(UndeclaredFixture {
        name: "user_db".to_string(),
        file_path: "/p/test_a.py".to_string(),
        line: 4,
        start_char: 4,
        end_char: 11,
        function_name: "test_x".to_string(),
        function_line: 1,
    });
    let lines = vec!["def test_x(", "    a,", "):", "    user_db"];
    let diags = vec![DiagnosticInfo { code: Some("undeclared-fixture".to_string()), line: 3, character: 4 }];
    let actions = db.code_actions("/p/test_a.py", &lines, &[], &None, 3, 4, &diags);
    let fix = actions.iter().find(|a| a.kind == "quickfix").expect("a quick fix");
    let last = fix.edits.last().unwrap();
    assert_eq!((last.range.start.line, last.range.start.character), (2, 0));
    assert_eq!(last.new_text, "user_db");

    let lines2 = vec!["def test_x(", "    a", "):", "    user_db"];
    let actions2 = db.code_actions("/p/test_a.py", &lines2, &[], &None, 3, 4, &diags);
    let fix2 = actions2.iter().find(|a| a.kind == "quickfix").expect("a quick fix");
    let last2 = fix2.edits.last().unwrap();
    assert_eq!((last2.range.start.line, last2.range.start.character), (2, 0));
    assert_eq!(last2.new_text, ", user_db");
}

fn module_body() -> Vec<PyStmt> {
    vec![
        PyStmt::Import { aliases: vec![alias("os", None), alias("numpy", Some("np"))], from: None, start: 0 },
        PyStmt::Import {
            aliases: vec![alias("Path", None), alias("*", None), alias("Any", Some("A"))],
            from: Some("..pkg.util".to_string()),
            start: 20,
        },
        func("db", vec![attr(name("pytest", 0), "fixture")], 60),
        func("helper", vec![], 90),
        PyStmt::ClassDef { name: "Thing".to_string(), decorators: vec![], body: vec![], start: 110 },
        PyStmt::Assign {
            targets: vec![PyExpr::Tuple { elts: vec![name("a", 130), name("os", 133)] }],
            value: name("x", 140),
            start: 130,
        },
        PyStmt::Assign {
            targets: vec![name("pytest_plugins", 150)],
            value: PyExpr::List { elts: vec![s("plugins.one", 170), name("y", 185)] },
            start: 150,
        },
    ]
}

#[test]
fn module_level_names_in_order_without_fixtures() {
    let names = collect_module_level_names(&module_body());
    assert_eq!(names, vec!["os", "np", "Path", "*", "A", "helper", "Thing", "a", "pytest_plugins"]);
    assert_eq!(imported_names(&module_body()), vec!["Path", "A"]);
}

#[test]
fn import_map_spells_each_statement() {
    let map: Vec<(String, String, String)> = build_import_map(&module_body())
        .into_iter()
        .map(|(b, spec)| (b, spec.check_name, spec.import_statement))
        .collect();
    assert_eq!(
        map,
        vec![
            ("os".to_string(), "os".to_string(), "import os".to_string()),
            ("np".to_string(), "np".to_string(), "import numpy as np".to_string()),
            ("Path".to_string(), "Path".to_string(), "from ..pkg.util import Path".to_string()),
            ("A".to_string(), "A".to_string(), "from ..pkg.util import Any as A".to_string()),
        ]
    );
}

#[test]
fn imported_modules_with_levels() {
    assert_eq!(
        imported_modules(&module_body()),
        vec![
            ("os".to_string(), 0),
            ("numpy".to_string(), 0),
            ("pkg.util".to_string(), 2),
            ("pkg.util.Path".to_string(), 2),
            ("pkg.util.Any".to_string(), 2),
            ("plugins.one".to_string(), 0),
        ]
    );
    let dots_only = vec![PyStmt::Import { aliases: vec![alias("conftest", None)], from: Some(".".to_string()), start: 0 }];
    assert_eq!(imported_modules(&dots_only), vec![("".to_string(), 1), ("conftest".to_string(), 1)]);
}

#[test]
fn pytestmark_and_assignment_fixtures() {
    let mark_list = PyExpr::List { elts: vec![call(mark("usefixtures"), vec![s("db", 20)], vec![])] };
    let st = PyStmt::Assign { targets: vec![name("pytestmark", 0)], value: mark_list, start: 0 };
    let v = pytestmark_value(&st).expect("a pytestmark value");
    assert_eq!(ids(&usefixtures_from_expr(v)), vec![("db".to_string(), 20, 24)]);
    let other = PyStmt::Assign { targets: vec![name("marks", 0)], value: name("x", 8), start: 0 };
    assert!(pytestmark_value(&other).is_none());

    // client = pytest.fixture(scope="session")(make_client)
    let deco = call(attr(name("pytest", 9), "fixture"), vec![], vec![kw("scope", s("session", 30))]);
    let st = PyStmt::Assign {
        targets: vec![name("client", 0)],
        value: call(deco, vec![name("make_client", 42)], vec![]),
        start: 0,
    };
    let (targets, decorator) = assignment_fixtures(&st);
    assert_eq!(ids(&targets), vec![("client".to_string(), 0, 6)]);
    assert_eq!(fixture_scope(decorator.expect("the decorator call")), Some(FixtureScope::Session));
    let (none, no_deco) = assignment_fixtures(&other);
    assert!(none.is_empty() && no_deco.is_none());
}

#[test]
fn function_name_is_found_after_def() {
    let content = "import pytest\n\n@pytest.fixture\ndef my_fixture():\n    pass\n";
    assert_eq!(function_name_position(content, 3, "my_fixture"), Some((4, 14)));
    assert_eq!(function_name_position("x = 1\n", 1, "gone"), Some((0, 4)));
    assert_eq!(function_name_position("async def é_f():\n", 1, "é_f"), Some((10, 14)));
}

#[test]
fn later_same_file_definition_shadows_earlier() {
    let mut db = FixtureDatabase::new();
    let mut first = user_db_def();
    first.file_path = "/p/test_a.py".to_string();
    first.line = 3;
    let mut second = user_db_def();
    second.file_path = "/p/test_a.py".to_string();
    second.line = 10;
    db.record_fixture_definition(first);
    db.record_fixture_definition(second);
    db.record_fixture_definition(user_db_def());
    let r = db.resolve_fixture_for_file("/p/test_a.py", "user_db").expect("a definition");
    assert_eq!((r.file_path.as_str(), r.line), ("/p/test_a.py", 10));
    let r = db.resolve_fixture_for_file("/p/test_b.py", "user_db").expect("a definition");
    assert_eq!((r.file_path.as_str(), r.line), ("/p/conftest.py", 2));
}

#[test]
fn analyze_module_records_definitions_usages_and_undeclared() {
    let content = "import pytest\n\n@pytest.fixture\ndef user_db():\n    return 1\n\ndef test_x(a):\n    user_db.get()\n";
    let module = vec![
        PyStmt::Import { aliases: vec![alias("pytest", None)], from: None, start: 0 },
        PyStmt::FunctionDef {
            name: "user_db".to_string(),
            decorators: vec![attr(name("pytest", 16), "fixture")],
            params: vec![],
            return_annotation: None,
            body: vec![PyStmt::Return { value: Some(PyExpr::Other { children: vec![] }), start: 50 }],
            start: 31,
            end: 58,
        },
        PyStmt::FunctionDef {
            name: "test_x".to_string(),
            decorators: vec![],
            params: vec![PyParam { name: "a".to_string(), start: 71 }],
            return_annotation: None,
            body: vec![PyStmt::Expr { value: call(attr(name("user_db", 79), "get"), vec![], vec![]), start: 79 }],
            start: 60,
            end: 92,
        },
    ];
    let mut db = FixtureDatabase::new();
    let origin = ModuleOrigin { third_party: false, plugin: false, module: None };
    db.analyze_module("/p/test_m.py", content, &module, &[], &origin, true);
    assert_eq!(db.definitions.len(), 1);
    let d = &db.definitions[0];
    assert_eq!((d.name.as_str(), d.line, d.start_char, d.end_char), ("user_db", 4, 4, 11));
    assert_eq!(db.usages.len(), 1);
    let u = &db.usages[0];
    assert_eq!((u.name.as_str(), u.line, u.start_char, u.end_char), ("a", 7, 11, 12));
    assert_eq!(db.undeclared_fixtures.len(), 1);
    let n = &db.undeclared_fixtures[0];
    assert_eq!(
        (n.name.as_str(), n.line, n.start_char, n.end_char, n.function_name.as_str(), n.function_line),
        ("user_db", 8, 4, 11, "test_x", 7)
    );
    assert_eq!(db.imports_for_file("/p/test_m.py"), vec!["pytest".to_string(), "test_x".to_string()]);
}

#[test]
fn analyze_module_handles_marks_classes_generators_and_assigned_fixtures() {
    let content = "import pytest\nfrom typing import Generator\n\npytestmark = pytest.mark.usefixtures(\"db\")\n\n@pytest.fixture(scope=\"module\")\ndef conn() -> Generator[int, None, None]:\n    \"\"\"Conn.\"\"\"\n    yield 1\n\nclient = pytest.fixture()(make_client)\n\n@pytest.mark.usefixtures(\"conn\")\nclass TestA:\n    def test_one(self, conn):\n        pass\n";
    let module = vec![
        PyStmt::Import { aliases: vec![alias("pytest", None)], from: None, start: 0 },
        PyStmt::Import { aliases: vec![alias("Generator", None)], from: Some("typing".to_string()), start: 14 },
        PyStmt::Assign {
            targets: vec![name("pytestmark", 44)],
            value: call(mark("usefixtures"), vec![s("db", 81)], vec![]),
            start: 44,
        },
        PyStmt::FunctionDef {
            name: "conn".to_string(),
            decorators: vec![call(attr(name("pytest", 89), "fixture"), vec![], vec![kw("scope", s("module", 111))])],
            params: vec![],
            return_annotation: Some(PyAnnotation {
                start: 134,
                end: 160,
                slice: Some(PySlice { start: 144, end: 159, is_tuple: true, first: Some((144, 147)) }),
            }),
            body: vec![
                PyStmt::Expr { value: s("Conn.", 166), start: 166 },
                PyStmt::Expr { value: PyExpr::Yield { value: Some(Box::new(PyExpr::Other { children: vec![] })) }, start: 182 },
            ],
            start: 120,
            end: 189,
        },
        PyStmt::Assign {
            targets: vec![name("client", 191)],
            value: call(call(attr(name("pytest", 200), "fixture"), vec![], vec![]), vec![name("make_client", 217)], vec![]),
            start: 191,
        },
        PyStmt::ClassDef {
            name: "TestA".to_string(),
            decorators: vec![call(mark("usefixtures"), vec![s("conn", 256)], vec![])],
            body: vec![PyStmt::FunctionDef {
                name: "test_one".to_string(),
                decorators: vec![],
                params: vec![PyParam { name: "self".to_string(), start: 294 }, PyParam { name: "conn".to_string(), start: 300 }],
                return_annotation: None,
                body: vec![PyStmt::Other],
                start: 281,
                end: 319,
            }],
            start: 264,
        },
    ];
    let mut db = FixtureDatabase::new();
    let origin = ModuleOrigin { third_party: false, plugin: false, module: None };
    db.analyze_module("/p/test_c.py", content, &module, &[], &origin, true);
    let defs: Vec<(String, usize, usize, usize)> =
        db.definitions.iter().map(|d| (d.name.clone(), d.line, d.start_char, d.end_char)).collect();
    assert_eq!(defs, vec![("conn".to_string(), 7, 4, 8), ("client".to_string(), 11, 0, 6)]);
    let conn = &db.definitions[0];
    assert_eq!(conn.scope, FixtureScope::Module);
    assert_eq!(conn.return_type.as_deref(), Some("int"));
    assert_eq!(conn.docstring.as_deref(), Some("Conn."));
    assert_eq!(conn.yield_line, Some(9));
    assert_eq!(db.definitions[1].scope, FixtureScope::Function);
    let uses: Vec<(String, usize, usize, usize, bool)> = db
        .usages
        .iter()
        .map(|u| (u.name.clone(), u.line, u.start_char, u.end_char, u.is_parameter))
        .collect();
    assert_eq!(
        uses,
        vec![
            ("db".to_string(), 4, 38, 40, false),
            ("conn".to_string(), 13, 26, 30, false),
            ("conn".to_string(), 15, 23, 27, true),
        ]
    );
    assert!(db.undeclared_fixtures.is_empty());
}
