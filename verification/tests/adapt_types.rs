use pytest_language_server::adapt::adapt_type_for_consumer;
use pytest_language_server::types::TypeImportSpec;

fn spec(check_name: &str, import_statement: &str) -> TypeImportSpec {
    TypeImportSpec {
        check_name: check_name.to_string(),
        import_statement: import_statement.to_string(),
    }
}

#[test]
fn test_adapt_dotted_to_short_when_consumer_has_from_import() {
    let fixture_imports = vec![spec("pathlib", "import pathlib")];
    let consumer = vec![spec("Path", "from pathlib import Path")];
    let (adapted, remaining) = adapt_type_for_consumer("pathlib.Path", &fixture_imports, &consumer);
    assert_eq!(adapted, "Path");
    assert!(remaining.is_empty(), "No import should remain: {:?}", remaining);
}

#[test]
fn test_adapt_no_rewrite_when_consumer_lacks_from_import() {
    let fixture_imports = vec![spec("pathlib", "import pathlib")];
    let consumer: Vec<TypeImportSpec> = Vec::new();
    let (adapted, remaining) = adapt_type_for_consumer("pathlib.Path", &fixture_imports, &consumer);
    assert_eq!(adapted, "pathlib.Path");
    assert_eq!(remaining.len(), 1);
    assert_eq!(remaining[0].import_statement, "import pathlib");
}

#[test]
fn test_adapt_no_rewrite_when_consumer_imports_from_different_module() {
    let fixture_imports = vec![spec("pathlib", "import pathlib")];
    let consumer = vec![spec("Path", "from mylib import Path")];
    let (adapted, remaining) = adapt_type_for_consumer("pathlib.Path", &fixture_imports, &consumer);
    assert_eq!(adapted, "pathlib.Path");
    assert_eq!(remaining.len(), 1);
}

#[test]
fn test_adapt_from_import_specs_pass_through_unchanged() {
    let fixture_imports = vec![spec("Path", "from pathlib import Path")];
    let consumer: Vec<TypeImportSpec> = Vec::new();
    let (adapted, remaining) = adapt_type_for_consumer("Path", &fixture_imports, &consumer);
    assert_eq!(adapted, "Path");
    assert_eq!(remaining.len(), 1);
    assert_eq!(remaining[0].check_name, "Path");
}

#[test]
fn test_adapt_complex_generic_with_dotted_and_from() {
    let fixture_imports = vec![
        spec("Optional", "from typing import Optional"),
        spec("pathlib", "import pathlib"),
    ];
    let consumer = vec![
        spec("Path", "from pathlib import Path"),
        spec("Optional", "from typing import Optional"),
    ];
    let (adapted, remaining) =
        adapt_type_for_consumer("Optional[pathlib.Path]", &fixture_imports, &consumer);
    assert_eq!(adapted, "Optional[Path]");
    assert_eq!(remaining.len(), 1);
    assert_eq!(remaining[0].check_name, "Optional");
}

#[test]
fn test_adapt_multiple_dotted_refs_same_module() {
    let fixture_imports = vec![spec("pathlib", "import pathlib")];
    let consumer = vec![
        spec("Path", "from pathlib import Path"),
        spec("PurePath", "from pathlib import PurePath"),
    ];
    let (adapted, remaining) =
        adapt_type_for_consumer("tuple[pathlib.Path, pathlib.PurePath]", &fixture_imports, &consumer);
    assert_eq!(adapted, "tuple[Path, PurePath]");
    assert!(remaining.is_empty());
}

#[test]
fn test_adapt_partial_match_one_name_missing() {
    let fixture_imports = vec![spec("pathlib", "import pathlib")];
    let consumer = vec![spec("Path", "from pathlib import Path")];
    let (adapted, remaining) =
        adapt_type_for_consumer("tuple[pathlib.Path, pathlib.PurePath]", &fixture_imports, &consumer);
    assert_eq!(adapted, "tuple[pathlib.Path, pathlib.PurePath]");
    assert_eq!(remaining.len(), 1);
}

#[test]
fn test_adapt_aliased_bare_import() {
    let fixture_imports = vec![spec("pl", "import pathlib as pl")];
    let consumer = vec![spec("Path", "from pathlib import Path")];
    let (adapted, remaining) = adapt_type_for_consumer("pl.Path", &fixture_imports, &consumer);
    assert_eq!(adapted, "Path");
    assert!(remaining.is_empty());
}

#[test]
fn test_adapt_no_false_match_on_prefix_substring() {
    let fixture_imports = vec![spec("pathlib", "import pathlib")];
    let consumer = vec![spec("Path", "from pathlib import Path")];
    let (adapted, remaining) = adapt_type_for_consumer("mypathlib.Path", &fixture_imports, &consumer);
    assert_eq!(adapted, "mypathlib.Path");
    assert_eq!(remaining.len(), 1);
}

#[test]
fn test_adapt_dotted_module_collections_abc() {
    let fixture_imports = vec![spec("collections.abc", "import collections.abc")];
    let consumer = vec![spec("Iterable", "from collections.abc import Iterable")];
    let (adapted, remaining) =
        adapt_type_for_consumer("collections.abc.Iterable[str]", &fixture_imports, &consumer);
    assert_eq!(adapted, "Iterable[str]");
    assert!(remaining.is_empty());
}

#[test]
fn test_adapt_consumer_has_bare_import_no_rewrite() {
    let fixture_imports = vec![spec("pathlib", "import pathlib")];
    let consumer = vec![spec("pathlib", "import pathlib")];
    let (adapted, remaining) = adapt_type_for_consumer("pathlib.Path", &fixture_imports, &consumer);
    assert_eq!(adapted, "pathlib.Path");
    assert_eq!(remaining.len(), 1);
}

#[test]
fn test_adapt_short_to_dotted_when_consumer_has_bare_import() {
    let fixture_imports = vec![spec("Path", "from pathlib import Path")];
    let consumer = vec![spec("pathlib", "import pathlib")];
    let (adapted, remaining) = adapt_type_for_consumer("Path", &fixture_imports, &consumer);
    assert_eq!(adapted, "pathlib.Path");
    assert!(remaining.is_empty(), "No import should remain: {:?}", remaining);
}

#[test]
fn test_adapt_short_to_dotted_consumer_has_aliased_bare_import() {
    let fixture_imports = vec![spec("Path", "from pathlib import Path")];
    let consumer = vec![spec("pl", "import pathlib as pl")];
    let (adapted, remaining) = adapt_type_for_consumer("Path", &fixture_imports, &consumer);
    assert_eq!(adapted, "pl.Path");
    assert!(remaining.is_empty());
}

#[test]
fn test_adapt_short_no_rewrite_when_consumer_lacks_bare_import() {
    let fixture_imports = vec![spec("Path", "from pathlib import Path")];
    let consumer: Vec<TypeImportSpec> = Vec::new();
    let (adapted, remaining) = adapt_type_for_consumer("Path", &fixture_imports, &consumer);
    assert_eq!(adapted, "Path");
    assert_eq!(remaining.len(), 1);
    assert_eq!(remaining[0].check_name, "Path");
}

#[test]
fn test_adapt_short_to_dotted_generic_type() {
    let fixture_imports = vec![
        spec("Optional", "from typing import Optional"),
        spec("Path", "from pathlib import Path"),
    ];
    let consumer = vec![spec("pathlib", "import pathlib")];
    let (adapted, remaining) = adapt_type_for_consumer("Optional[Path]", &fixture_imports, &consumer);
    assert_eq!(adapted, "Optional[pathlib.Path]");
    assert_eq!(remaining.len(), 1);
    assert_eq!(remaining[0].check_name, "Optional");
}

#[test]
fn test_adapt_short_to_dotted_word_boundary_safety() {
    let fixture_imports = vec![spec("Path", "from pathlib import Path")];
    let consumer = vec![spec("pathlib", "import pathlib")];
    let (adapted, remaining) = adapt_type_for_consumer("PathLike", &fixture_imports, &consumer);
    assert_eq!(adapted, "PathLike");
    assert_eq!(remaining.len(), 1);
    assert_eq!(remaining[0].check_name, "Path");
}

#[test]
fn test_adapt_short_to_dotted_multiple_occurrences() {
    let fixture_imports = vec![spec("Path", "from pathlib import Path")];
    let consumer = vec![spec("pathlib", "import pathlib")];
    let (adapted, remaining) = adapt_type_for_consumer("tuple[Path, Path]", &fixture_imports, &consumer);
    assert_eq!(adapted, "tuple[pathlib.Path, pathlib.Path]");
    assert!(remaining.is_empty());
}

#[test]
fn test_adapt_short_to_dotted_aliased_from_import() {
    let fixture_imports = vec![spec("P", "from pathlib import Path as P")];
    let consumer = vec![spec("pathlib", "import pathlib")];
    let (adapted, remaining) = adapt_type_for_consumer("P", &fixture_imports, &consumer);
    assert_eq!(adapted, "pathlib.Path");
    assert!(remaining.is_empty());
}

#[test]
fn test_adapt_short_to_dotted_collections_abc() {
    let fixture_imports = vec![spec("Iterable", "from collections.abc import Iterable")];
    let consumer = vec![spec("collections.abc", "import collections.abc")];
    let (adapted, remaining) = adapt_type_for_consumer("Iterable[str]", &fixture_imports, &consumer);
    assert_eq!(adapted, "collections.abc.Iterable[str]");
    assert!(remaining.is_empty());
}

#[test]
fn test_adapt_both_directions_in_one_call() {
    let fixture_imports = vec![
        spec("Sequence", "from typing import Sequence"),
        spec("pathlib", "import pathlib"),
    ];
    let consumer = vec![
        spec("Path", "from pathlib import Path"),
        spec("typing", "import typing"),
    ];
    let (adapted, remaining) =
        adapt_type_for_consumer("Sequence[pathlib.Path]", &fixture_imports, &consumer);
    assert_eq!(adapted, "typing.Sequence[Path]");
    assert!(remaining.is_empty(), "Both specs should be dropped: {:?}", remaining);
}
