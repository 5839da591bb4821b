use pytest_language_server::imports::{
    classify_import_statement, extract_top_level_modules, kind_requested, parse_from_import,
    parse_import_groups, ImportKind,
};

const QUICKFIX: &str = "quickfix";
const SOURCE: &str = "source";
const SOURCE_FIX_ALL: &str = "source.fixAll";
const SOURCE_PYTEST_LSP: &str = "source.pytest-lsp";
const SOURCE_FIX_ALL_PYTEST_LSP: &str = "source.fixAll.pytest-lsp";

// ── extract_top_level_modules ───────────────────────────────────────────

#[test]
fn test_extract_top_level_module_from_import() {
    assert_eq!(extract_top_level_modules("from typing import Any"), vec!["typing"]);
}

#[test]
fn test_extract_top_level_module_dotted() {
    assert_eq!(
        extract_top_level_modules("from collections.abc import Sequence"),
        vec!["collections"]
    );
}

#[test]
fn test_extract_top_level_module_bare() {
    assert_eq!(extract_top_level_modules("import pathlib"), vec!["pathlib"]);
}

#[test]
fn test_extract_top_level_module_bare_dotted() {
    assert_eq!(extract_top_level_modules("import os.path"), vec!["os"]);
}

#[test]
fn test_extract_top_level_module_bare_alias() {
    assert_eq!(extract_top_level_modules("import pathlib as pl"), vec!["pathlib"]);
}

#[test]
fn test_extract_top_level_module_non_import() {
    assert!(extract_top_level_modules("x = 1").is_empty());
}

#[test]
fn test_extract_top_level_module_comma_separated() {
    assert_eq!(extract_top_level_modules("import os, sys"), vec!["os", "sys"]);
}

#[test]
fn test_extract_top_level_module_comma_no_space() {
    assert_eq!(extract_top_level_modules("import os,sys"), vec!["os", "sys"]);
}

#[test]
fn test_extract_top_level_module_comma_three_modules() {
    assert_eq!(extract_top_level_modules("import os, sys, re"), vec!["os", "sys", "re"]);
}

// ── classify_import_statement ───────────────────────────────────────────

#[test]
fn test_classify_stdlib() {
    assert_eq!(classify_import_statement("from typing import Any"), ImportKind::Stdlib);
    assert_eq!(classify_import_statement("import pathlib"), ImportKind::Stdlib);
    assert_eq!(
        classify_import_statement("from collections.abc import Sequence"),
        ImportKind::Stdlib
    );
}

#[test]
fn test_classify_third_party() {
    assert_eq!(classify_import_statement("import pytest"), ImportKind::ThirdParty);
    assert_eq!(
        classify_import_statement("from myapp.db import Database"),
        ImportKind::ThirdParty
    );
}

#[test]
fn test_classify_comma_separated_stdlib() {
    assert_eq!(classify_import_statement("import os, sys"), ImportKind::Stdlib);
}

// ── parse_import_groups ─────────────────────────────────────────────────

#[test]
fn test_parse_groups_stdlib_and_third_party() {
    let lines = vec![
        "import time",
        "",
        "import pytest",
        "from vcc.framework import fixture",
        "",
        "LOGGING_TIME = 2",
    ];
    let groups = parse_import_groups(&lines);
    assert_eq!(groups.len(), 2);
    assert_eq!(groups[0].first_line, 0);
    assert_eq!(groups[0].last_line, 0);
    assert_eq!(groups[0].kind, ImportKind::Stdlib);
    assert_eq!(groups[1].first_line, 2);
    assert_eq!(groups[1].last_line, 3);
    assert_eq!(groups[1].kind, ImportKind::ThirdParty);
}

#[test]
fn test_parse_groups_single_third_party() {
    let lines = vec!["import pytest", "", "def test(): pass"];
    let groups = parse_import_groups(&lines);
    assert_eq!(groups.len(), 1);
    assert_eq!(groups[0].kind, ImportKind::ThirdParty);
    assert_eq!(groups[0].first_line, 0);
    assert_eq!(groups[0].last_line, 0);
}

#[test]
fn test_parse_groups_no_imports() {
    let lines = vec!["def test(): pass"];
    let groups = parse_import_groups(&lines);
    assert!(groups.is_empty());
}

#[test]
fn test_parse_groups_empty_file() {
    let groups = parse_import_groups(&[]);
    assert!(groups.is_empty());
}

#[test]
fn test_parse_groups_with_docstring_preamble() {
    let lines = vec![
        r#""""Module docstring.""""#,
        "",
        "import pytest",
        "from pathlib import Path",
        "",
        "def test(): pass",
    ];
    let groups = parse_import_groups(&lines);
    assert_eq!(groups.len(), 1);
    assert_eq!(groups[0].first_line, 2);
    assert_eq!(groups[0].last_line, 3);
    assert_eq!(groups[0].kind, ImportKind::ThirdParty);
}

#[test]
fn test_parse_groups_ignores_indented_imports() {
    let lines = vec![
        "import pytest",
        "",
        "def test():",
        "    from .utils import helper",
        "    import os",
    ];
    let groups = parse_import_groups(&lines);
    assert_eq!(groups.len(), 1);
    assert_eq!(groups[0].first_line, 0);
    assert_eq!(groups[0].last_line, 0);
}

#[test]
fn test_parse_groups_future_then_stdlib_then_third_party() {
    let lines = vec![
        "from __future__ import annotations",
        "",
        "import os",
        "import time",
        "",
        "import pytest",
        "",
        "def test(): pass",
    ];
    let groups = parse_import_groups(&lines);
    assert_eq!(groups.len(), 3);
    assert_eq!(groups[0].kind, ImportKind::Stdlib);
    assert_eq!(groups[1].kind, ImportKind::Stdlib);
    assert_eq!(groups[2].kind, ImportKind::ThirdParty);
}

#[test]
fn test_parse_groups_with_comments_between() {
    let lines = vec![
        "import os",
        "# stdlib above, third-party below",
        "import pytest",
        "",
        "def test(): pass",
    ];
    let groups = parse_import_groups(&lines);
    assert_eq!(groups.len(), 2);
    assert_eq!(groups[0].kind, ImportKind::Stdlib);
    assert_eq!(groups[0].last_line, 0);
    assert_eq!(groups[1].kind, ImportKind::ThirdParty);
    assert_eq!(groups[1].first_line, 2);
}

#[test]
fn test_parse_groups_comma_separated_import_is_stdlib() {
    let lines = vec!["import os, sys", "", "import pytest", "", "def test(): pass"];
    let groups = parse_import_groups(&lines);
    assert_eq!(groups.len(), 2);
    assert_eq!(groups[0].kind, ImportKind::Stdlib);
    assert_eq!(groups[0].first_line, 0);
    assert_eq!(groups[0].last_line, 0);
    assert_eq!(groups[1].kind, ImportKind::ThirdParty);
}

#[test]
fn test_parse_groups_multiline_import_single_group() {
    let lines = vec!["from liba import (", "    moda,", "    modb", ")"];
    let groups = parse_import_groups(&lines);
    assert_eq!(groups.len(), 1);
    assert_eq!(groups[0].first_line, 0);
    assert_eq!(groups[0].last_line, 3);
    assert_eq!(groups[0].kind, ImportKind::ThirdParty);
}

#[test]
fn test_parse_groups_multiline_import_followed_by_third_party() {
    let lines = vec![
        "from liba import (",
        "    moda,",
        "    modb",
        ")",
        "",
        "import pytest",
        "",
        "def test(): pass",
    ];
    let groups = parse_import_groups(&lines);
    assert_eq!(groups.len(), 2);
    assert_eq!(groups[0].first_line, 0);
    assert_eq!(groups[0].last_line, 3);
    assert_eq!(groups[1].first_line, 5);
    assert_eq!(groups[1].last_line, 5);
    assert_eq!(groups[1].kind, ImportKind::ThirdParty);
}

#[test]
fn test_parse_groups_multiline_stdlib_then_third_party() {
    let lines = vec![
        "from typing import (",
        "    Any,",
        "    Optional,",
        ")",
        "",
        "import pytest",
        "",
        "def test(): pass",
    ];
    let groups = parse_import_groups(&lines);
    assert_eq!(groups.len(), 2);
    assert_eq!(groups[0].kind, ImportKind::Stdlib);
    assert_eq!(groups[0].first_line, 0);
    assert_eq!(groups[0].last_line, 3);
    assert_eq!(groups[1].kind, ImportKind::ThirdParty);
    assert_eq!(groups[1].first_line, 5);
    assert_eq!(groups[1].last_line, 5);
}

#[test]
fn test_parse_groups_inline_multiline_import() {
    let lines = vec!["from typing import (Any,", "    Optional)", "", "import pytest"];
    let groups = parse_import_groups(&lines);
    assert_eq!(groups.len(), 2);
    assert_eq!(groups[0].kind, ImportKind::Stdlib);
    assert_eq!(groups[0].first_line, 0);
    assert_eq!(groups[0].last_line, 1);
    assert_eq!(groups[1].kind, ImportKind::ThirdParty);
    assert_eq!(groups[1].first_line, 3);
    assert_eq!(groups[1].last_line, 3);
}

// ── kind_requested ──────────────────────────────────────────────────────

fn kinds(v: &[&str]) -> Option<Vec<String>> {
    Some(v.iter().map(|s| s.to_string()).collect())
}

#[test]
fn test_kind_requested_no_filter_accepts_everything() {
    assert!(kind_requested(&None, QUICKFIX));
    assert!(kind_requested(&None, SOURCE_PYTEST_LSP));
    assert!(kind_requested(&None, SOURCE_FIX_ALL_PYTEST_LSP));
}

#[test]
fn test_kind_requested_exact_match() {
    let only = kinds(&[QUICKFIX]);
    assert!(kind_requested(&only, QUICKFIX));
    assert!(!kind_requested(&only, SOURCE_PYTEST_LSP));
}

#[test]
fn test_kind_requested_parent_source_matches_children() {
    let only = kinds(&[SOURCE]);
    assert!(kind_requested(&only, SOURCE_PYTEST_LSP));
    assert!(kind_requested(&only, SOURCE_FIX_ALL_PYTEST_LSP));
    assert!(!kind_requested(&only, QUICKFIX));
}

#[test]
fn test_kind_requested_parent_source_fix_all_matches_child() {
    let only = kinds(&[SOURCE_FIX_ALL]);
    assert!(kind_requested(&only, SOURCE_FIX_ALL_PYTEST_LSP));
    assert!(!kind_requested(&only, SOURCE_PYTEST_LSP));
}

#[test]
fn test_kind_requested_specific_child_does_not_match_sibling() {
    let only = kinds(&[SOURCE_PYTEST_LSP]);
    assert!(kind_requested(&only, SOURCE_PYTEST_LSP));
    assert!(!kind_requested(&only, SOURCE_FIX_ALL_PYTEST_LSP));
}

#[test]
fn test_kind_requested_multiple_filters() {
    let only = kinds(&[QUICKFIX, SOURCE_FIX_ALL]);
    assert!(kind_requested(&only, QUICKFIX));
    assert!(kind_requested(&only, SOURCE_FIX_ALL_PYTEST_LSP));
    assert!(!kind_requested(&only, SOURCE_PYTEST_LSP));
}

#[test]
fn test_kind_requested_quickfix_only_rejects_source() {
    let only = kinds(&[QUICKFIX]);
    assert!(!kind_requested(&only, SOURCE_PYTEST_LSP));
    assert!(!kind_requested(&only, SOURCE_FIX_ALL_PYTEST_LSP));
}

// ── parse_from_import ───────────────────────────────────────────────────

fn pair(m: &str, n: &str) -> Option<(String, String)> {
    Some((m.to_string(), n.to_string()))
}

#[test]
fn test_parse_from_import_simple() {
    assert_eq!(parse_from_import("from typing import Any"), pair("typing", "Any"));
}

#[test]
fn test_parse_from_import_with_alias() {
    assert_eq!(parse_from_import("from pathlib import Path as P"), pair("pathlib", "Path as P"));
}

#[test]
fn test_parse_from_import_deep_module() {
    assert_eq!(
        parse_from_import("from collections.abc import Sequence"),
        pair("collections.abc", "Sequence")
    );
}

#[test]
fn test_parse_from_import_bare_import() {
    assert_eq!(parse_from_import("import pathlib"), None);
}

#[test]
fn test_parse_from_import_bare_import_with_alias() {
    assert_eq!(parse_from_import("import pathlib as pl"), None);
}
