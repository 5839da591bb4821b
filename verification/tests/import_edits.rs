use pytest_language_server::imports::{
    build_import_edits, find_matching_from_import_line, find_sorted_insert_position,
    import_line_sort_key, import_sort_key, ImportGroup, ImportKind,
};
use pytest_language_server::types::TypeImportSpec;

fn spec(check_name: &str, import_statement: &str) -> TypeImportSpec {
    TypeImportSpec {
        check_name: check_name.to_string(),
        import_statement: import_statement.to_string(),
    }
}

fn names(v: &[&str]) -> Vec<String> {
    v.iter().map(|s| s.to_string()).collect()
}

// ── find_matching_from_import_line ──────────────────────────────────────

#[test]
fn test_find_matching_line_found() {
    let lines = vec!["import pytest", "from typing import Optional", "", "def test(): pass"];
    let result = find_matching_from_import_line(&lines, "typing");
    assert_eq!(result, Some((1, names(&["Optional"]))));
}

#[test]
fn test_find_matching_line_multiple_names() {
    let lines = vec!["from typing import Any, Optional, Union", "from pathlib import Path"];
    let result = find_matching_from_import_line(&lines, "typing");
    assert_eq!(result, Some((0, names(&["Any", "Optional", "Union"]))));
}

#[test]
fn test_find_matching_line_not_found() {
    let lines = vec!["import pytest", "from pathlib import Path"];
    assert_eq!(find_matching_from_import_line(&lines, "typing"), None);
}

#[test]
fn test_find_matching_line_skips_multiline() {
    let lines = vec!["from typing import (", "    Any,", "    Optional,", ")"];
    assert_eq!(find_matching_from_import_line(&lines, "typing"), None);
}

#[test]
fn test_find_matching_line_skips_inline_multiline() {
    let lines = vec!["from typing import (Any,", "    Optional)"];
    assert_eq!(find_matching_from_import_line(&lines, "typing"), None);
}

#[test]
fn test_find_matching_line_skips_star() {
    let lines = vec!["from typing import *"];
    assert_eq!(find_matching_from_import_line(&lines, "typing"), None);
}

#[test]
fn test_find_matching_line_ignores_indented() {
    let lines = vec!["import pytest", "", "def test():", "    from typing import Any"];
    assert_eq!(find_matching_from_import_line(&lines, "typing"), None);
}

#[test]
fn test_find_matching_line_with_inline_comment() {
    let lines = vec!["from typing import Any  # comment"];
    let result = find_matching_from_import_line(&lines, "typing");
    assert_eq!(result, Some((0, names(&["Any"]))));
}

#[test]
fn test_find_matching_line_multi_name_with_inline_comment() {
    let lines = vec!["from os import path, getcwd  # needed"];
    let result = find_matching_from_import_line(&lines, "os");
    assert_eq!(result, Some((0, names(&["path", "getcwd"]))));
}

#[test]
fn test_find_matching_line_multi_name_from_import() {
    let lines = vec!["from os import path, othermodule"];
    let result = find_matching_from_import_line(&lines, "os");
    assert_eq!(result, Some((0, names(&["path", "othermodule"]))));
}

#[test]
fn test_find_matching_line_aliases_preserved() {
    let lines = vec!["from os import path as p, getcwd as cwd"];
    let result = find_matching_from_import_line(&lines, "os");
    assert_eq!(result, Some((0, names(&["path as p", "getcwd as cwd"]))));
}

// ── import_sort_key ─────────────────────────────────────────────────────

#[test]
fn test_import_sort_key_plain() {
    assert_eq!(import_sort_key("Path"), "Path");
}

#[test]
fn test_import_sort_key_alias() {
    assert_eq!(import_sort_key("Path as P"), "Path");
}

// ── build_import_edits ──────────────────────────────────────────────────

#[test]
fn test_build_import_edits_merge_into_existing() {
    let lines = vec!["import pytest", "from typing import Optional", "", "def test(): pass"];
    let s = spec("Any", "from typing import Any");
    let edits = build_import_edits(&lines, &[&s], &[]);
    assert_eq!(edits.len(), 1);
    assert_eq!(edits[0].range.start.line, 1);
    assert_eq!(edits[0].range.start.character, 0);
    assert_eq!(edits[0].range.end.line, 1);
    assert_eq!(edits[0].new_text, "from typing import Any, Optional");
}

#[test]
fn test_build_import_edits_skips_already_imported() {
    let lines = vec!["from typing import Any"];
    let s = spec("Any", "from typing import Any");
    let existing = names(&["Any"]);
    let edits = build_import_edits(&lines, &[&s], &existing);
    assert!(edits.is_empty());
}

#[test]
fn test_build_import_edits_merge_multiple_into_existing() {
    let lines = vec!["from typing import Union", "", "def test(): pass"];
    let s1 = spec("Any", "from typing import Any");
    let s2 = spec("Optional", "from typing import Optional");
    let edits = build_import_edits(&lines, &[&s1, &s2], &[]);
    assert_eq!(edits.len(), 1);
    assert_eq!(edits[0].new_text, "from typing import Any, Optional, Union");
}

#[test]
fn test_build_import_edits_merge_preserves_alias() {
    let lines = vec!["from pathlib import Path as P", "", "def test(): pass"];
    let s = spec("PurePath", "from pathlib import PurePath");
    let edits = build_import_edits(&lines, &[&s], &[]);
    assert_eq!(edits.len(), 1);
    assert_eq!(edits[0].new_text, "from pathlib import Path as P, PurePath");
}

#[test]
fn test_build_import_edits_deduplicates_specs() {
    let lines = vec!["import pytest", "", "def test(): pass"];
    let s1 = spec("Path", "from pathlib import Path");
    let s2 = spec("Path", "from pathlib import Path");
    let edits = build_import_edits(&lines, &[&s1, &s2], &[]);
    let import_edits: Vec<_> = edits.iter().filter(|e| e.new_text.contains("Path")).collect();
    assert_eq!(import_edits.len(), 1);
    assert_eq!(import_edits[0].new_text, "from pathlib import Path\n");
}

#[test]
fn test_build_import_edits_merge_into_multi_name_existing() {
    let lines = vec!["from os import path, othermodule", "", "def test(): pass"];
    let s = spec("getcwd", "from os import getcwd");
    let edits = build_import_edits(&lines, &[&s], &[]);
    assert_eq!(edits.len(), 1);
    assert_eq!(edits[0].new_text, "from os import getcwd, othermodule, path");
}

#[test]
fn test_build_import_edits_merge_strips_comment() {
    let lines = vec!["from typing import Any  # needed for X", "", "def test(): pass"];
    let s = spec("Optional", "from typing import Optional");
    let edits = build_import_edits(&lines, &[&s], &[]);
    assert_eq!(edits.len(), 1);
    assert_eq!(edits[0].new_text, "from typing import Any, Optional");
    assert!(!edits[0].new_text.contains('#'), "merged line must not contain the original comment");
}

#[test]
fn test_build_import_edits_multiline_import_new_line_inserted() {
    let lines = vec![
        "from typing import (",
        "    Any,",
        "    Optional,",
        ")",
        "",
        "def test(): pass",
    ];
    let s = spec("Union", "from typing import Union");
    let edits = build_import_edits(&lines, &[&s], &[]);
    assert_eq!(edits.len(), 1);
    assert_eq!(edits[0].new_text, "from typing import Union\n");
}

// ── isort-group-aware insertion ─────────────────────────────────────────

#[test]
fn test_stdlib_import_into_existing_stdlib_group() {
    let lines = vec![
        "import time",
        "",
        "import pytest",
        "from vcc.framework import fixture",
        "",
        "LOGGING_TIME = 2",
    ];
    let s = spec("Any", "from typing import Any");
    let edits = build_import_edits(&lines, &[&s], &[]);
    assert_eq!(edits.len(), 1);
    assert_eq!(edits[0].range.start.line, 1);
    assert_eq!(edits[0].new_text, "from typing import Any\n");
}

#[test]
fn test_stdlib_import_before_third_party_when_no_stdlib_group() {
    let lines = vec!["import pytest", "from vcc.framework import fixture", "", "def test(): pass"];
    let s = spec("Any", "from typing import Any");
    let edits = build_import_edits(&lines, &[&s], &[]);
    assert_eq!(edits.len(), 2);
    assert_eq!(edits[0].new_text, "from typing import Any\n");
    assert_eq!(edits[0].range.start.line, 0);
    assert_eq!(edits[1].new_text, "\n");
    assert_eq!(edits[1].range.start.line, 0);
}

#[test]
fn test_third_party_import_after_stdlib_when_no_tp_group() {
    let lines = vec!["import os", "import time", "", "def test(): pass"];
    let s = spec("FlaskClient", "from flask.testing import FlaskClient");
    let edits = build_import_edits(&lines, &[&s], &[]);
    assert_eq!(edits.len(), 2);
    assert_eq!(edits[0].new_text, "\n");
    assert_eq!(edits[0].range.start.line, 2);
    assert_eq!(edits[1].new_text, "from flask.testing import FlaskClient\n");
    assert_eq!(edits[1].range.start.line, 2);
}

#[test]
fn test_third_party_import_into_existing_tp_group() {
    let lines = vec!["import time", "", "import pytest", "", "def test(): pass"];
    let s = spec("FlaskClient", "from flask.testing import FlaskClient");
    let edits = build_import_edits(&lines, &[&s], &[]);
    assert_eq!(edits.len(), 1);
    assert_eq!(edits[0].range.start.line, 3);
    assert_eq!(edits[0].new_text, "from flask.testing import FlaskClient\n");
}

#[test]
fn test_no_imports_at_all() {
    let lines = vec!["def test(): pass"];
    let s = spec("Path", "from pathlib import Path");
    let edits = build_import_edits(&lines, &[&s], &[]);
    assert_eq!(edits.len(), 1);
    assert_eq!(edits[0].range.start.line, 0);
    assert_eq!(edits[0].new_text, "from pathlib import Path\n");
}

#[test]
fn test_both_stdlib_and_tp_imports_no_existing_groups() {
    let lines = vec!["def test(): pass"];
    let s1 = spec("Any", "from typing import Any");
    let s2 = spec("FlaskClient", "from flask.testing import FlaskClient");
    let edits = build_import_edits(&lines, &[&s1, &s2], &[]);
    assert_eq!(edits.len(), 3);
    assert_eq!(edits[0].new_text, "from typing import Any\n");
    assert_eq!(edits[1].new_text, "\n");
    assert_eq!(edits[2].new_text, "from flask.testing import FlaskClient\n");
}

#[test]
fn test_bare_stdlib_import_sorted_within_group() {
    let lines = vec!["import os", "import time", "", "import pytest", "", "def test(): pass"];
    let s = spec("pathlib", "import pathlib");
    let edits = build_import_edits(&lines, &[&s], &[]);
    assert_eq!(edits.len(), 1);
    assert_eq!(edits[0].range.start.line, 1);
    assert_eq!(edits[0].new_text, "import pathlib\n");
}

#[test]
fn test_from_import_sorts_after_bare_imports_in_group() {
    let lines = vec!["import os", "import time", "", "def test(): pass"];
    let s = spec("Any", "from typing import Any");
    let edits = build_import_edits(&lines, &[&s], &[]);
    assert_eq!(edits.len(), 1);
    assert_eq!(edits[0].range.start.line, 2);
    assert_eq!(edits[0].new_text, "from typing import Any\n");
}

#[test]
fn test_mixed_stdlib_from_imports_grouped() {
    let lines = vec!["import time", "", "import pytest", "", "def test(): pass"];
    let s1 = spec("Any", "from typing import Any");
    let s2 = spec("Optional", "from typing import Optional");
    let edits = build_import_edits(&lines, &[&s1, &s2], &[]);
    assert_eq!(edits.len(), 1);
    assert_eq!(edits[0].range.start.line, 1);
    assert_eq!(edits[0].new_text, "from typing import Any, Optional\n");
}

#[test]
fn test_tp_from_import_sorted_before_existing() {
    let lines = vec![
        "import time",
        "",
        "import pytest",
        "from vcc.conxtfw.framework.pytest.fixtures.component import fixture",
        "",
        "LOGGING_TIME = 2",
    ];
    let s = spec("conx_canoe", "from vcc import conx_canoe");
    let edits = build_import_edits(&lines, &[&s], &[]);
    assert_eq!(edits.len(), 1);
    assert_eq!(edits[0].range.start.line, 3);
    assert_eq!(edits[0].new_text, "from vcc import conx_canoe\n");
}

#[test]
fn test_user_scenario_stdlib_into_correct_group() {
    let lines = vec![
        "import time",
        "",
        "import pytest",
        "from vcc.conxtfw.framework.pytest.fixtures.component import fixture",
        "",
        "LOGGING_TIME = 2",
    ];
    let s = spec("Any", "from typing import Any");
    let edits = build_import_edits(&lines, &[&s], &[]);
    assert_eq!(edits.len(), 1);
    assert_eq!(edits[0].range.start.line, 1);
    assert_eq!(edits[0].range.start.character, 0);
    assert_eq!(edits[0].new_text, "from typing import Any\n");
}

#[test]
fn test_user_scenario_fix_all_multi_import() {
    let lines = vec![
        "import time",
        "",
        "import pytest",
        "from vcc.conxtfw.framework.pytest.fixtures.component import fixture",
        "",
        "LOGGING_TIME = 2",
    ];
    let s_typing = spec("Any", "from typing import Any");
    let s_pathlib = spec("pathlib", "import pathlib");
    let s_vcc = spec("conx_canoe", "from vcc import conx_canoe");
    let edits = build_import_edits(&lines, &[&s_typing, &s_pathlib, &s_vcc], &[]);
    assert_eq!(edits.len(), 3);
    let pathlib_edit = edits.iter().find(|e| e.new_text.contains("pathlib")).unwrap();
    assert_eq!(pathlib_edit.range.start.line, 0);
    assert_eq!(pathlib_edit.new_text, "import pathlib\n");
    let typing_edit = edits.iter().find(|e| e.new_text.contains("typing")).unwrap();
    assert_eq!(typing_edit.range.start.line, 1);
    assert_eq!(typing_edit.new_text, "from typing import Any\n");
    let vcc_edit = edits.iter().find(|e| e.new_text.contains("conx_canoe")).unwrap();
    assert_eq!(vcc_edit.range.start.line, 3);
    assert_eq!(vcc_edit.new_text, "from vcc import conx_canoe\n");
}

#[test]
fn test_future_import_skipped_for_stdlib_insertion() {
    let lines = vec![
        "from __future__ import annotations",
        "",
        "import os",
        "import time",
        "",
        "import pytest",
        "",
        "def test(): pass",
    ];
    let s = spec("Any", "from typing import Any");
    let edits = build_import_edits(&lines, &[&s], &[]);
    assert_eq!(edits.len(), 1);
    assert_eq!(edits[0].range.start.line, 4);
    assert_eq!(edits[0].new_text, "from typing import Any\n");
}

#[test]
fn test_different_modules_stdlib_and_tp() {
    let lines = vec!["import os", "", "import pytest", "", "def test(): pass"];
    let s1 = spec("Any", "from typing import Any");
    let s2 = spec("FlaskClient", "from flask.testing import FlaskClient");
    let edits = build_import_edits(&lines, &[&s1, &s2], &[]);
    assert_eq!(edits.len(), 2);
    let stdlib_edit = edits.iter().find(|e| e.new_text.contains("typing")).unwrap();
    assert_eq!(stdlib_edit.range.start.line, 1);
    assert_eq!(stdlib_edit.new_text, "from typing import Any\n");
    let tp_edit = edits.iter().find(|e| e.new_text.contains("flask")).unwrap();
    assert_eq!(tp_edit.range.start.line, 3);
    assert_eq!(tp_edit.new_text, "from flask.testing import FlaskClient\n");
}

// ── import_line_sort_key ────────────────────────────────────────────────

#[test]
fn test_import_line_sort_key_bare_before_from() {
    let bare = import_line_sort_key("import os");
    let from = import_line_sort_key("from typing import Any");
    assert!(bare < from, "bare imports should sort before from-imports");
}

#[test]
fn test_import_line_sort_key_alphabetical_bare() {
    let a = import_line_sort_key("import os");
    let b = import_line_sort_key("import pathlib");
    let c = import_line_sort_key("import time");
    assert!(a < b);
    assert!(b < c);
}

#[test]
fn test_import_line_sort_key_alphabetical_from() {
    let a = import_line_sort_key("from pathlib import Path");
    let b = import_line_sort_key("from typing import Any");
    assert!(a < b);
}

#[test]
fn test_import_line_sort_key_dotted_module_ordering() {
    let short = import_line_sort_key("from vcc import conx_canoe");
    let long = import_line_sort_key("from vcc.conxtfw.framework import fixture");
    assert!(short < long, "shorter module path should sort before longer");
}

// ── find_sorted_insert_position ─────────────────────────────────────────

#[test]
fn test_sorted_position_bare_before_existing_bare() {
    let lines = vec!["import os", "import time"];
    let group = ImportGroup { first_line: 0, last_line: 1, kind: ImportKind::Stdlib };
    let key = import_line_sort_key("import pathlib");
    assert_eq!(find_sorted_insert_position(&lines, &group, &key), 1);
}

#[test]
fn test_sorted_position_from_after_all_bare() {
    let lines = vec!["import os", "import time"];
    let group = ImportGroup { first_line: 0, last_line: 1, kind: ImportKind::Stdlib };
    let key = import_line_sort_key("from typing import Any");
    assert_eq!(find_sorted_insert_position(&lines, &group, &key), 2);
}

#[test]
fn test_sorted_position_from_between_existing_froms() {
    let lines = vec!["import pytest", "from aaa import X", "from zzz import Y"];
    let group = ImportGroup { first_line: 0, last_line: 2, kind: ImportKind::ThirdParty };
    let key = import_line_sort_key("from mmm import Z");
    assert_eq!(find_sorted_insert_position(&lines, &group, &key), 2);
}

#[test]
fn test_sorted_position_before_everything() {
    let lines = vec!["import time", "from typing import Any"];
    let group = ImportGroup { first_line: 0, last_line: 1, kind: ImportKind::Stdlib };
    let key = import_line_sort_key("import os");
    assert_eq!(find_sorted_insert_position(&lines, &group, &key), 0);
}
