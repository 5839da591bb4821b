use pytest_language_server::db::FixtureDatabase;
use pytest_language_server::plugins::{editable_pth_candidates, entry_point_module_parts, pth_stem_matches};

#[test]
fn test_parse_pytest11_entry_points_basic() {
    let content = r#"
[console_scripts]
my-cli = my_package:main

[pytest11]
my_plugin = my_package.plugin
another = another_pkg

[other_section]
foo = bar
"#;
    let entries = FixtureDatabase::parse_pytest11_entry_points(content);
    assert_eq!(entries.len(), 2);
    assert_eq!(entries[0].name, "my_plugin");
    assert_eq!(entries[0].module, "my_package.plugin");
    assert_eq!(entries[1].name, "another");
    assert_eq!(entries[1].module, "another_pkg");
}

#[test]
fn test_parse_pytest11_entry_points_empty_file() {
    let entries = FixtureDatabase::parse_pytest11_entry_points("");
    assert!(entries.is_empty());
}

#[test]
fn test_parse_pytest11_entry_points_no_pytest11_section() {
    let content = r#"
[console_scripts]
my-cli = my_package:main
"#;
    let entries = FixtureDatabase::parse_pytest11_entry_points(content);
    assert!(entries.is_empty());
}

#[test]
fn test_parse_pytest11_entry_points_with_comments() {
    let content = r#"
[pytest11]
# This is a comment
my_plugin = my_package.plugin
# Another comment
"#;
    let entries = FixtureDatabase::parse_pytest11_entry_points(content);
    assert_eq!(entries.len(), 1);
    assert_eq!(entries[0].name, "my_plugin");
}

#[test]
fn test_parse_pytest11_entry_points_with_whitespace() {
    let content = r#"
[pytest11]
   my_plugin   =   my_package.plugin
another=another_pkg
"#;
    let entries = FixtureDatabase::parse_pytest11_entry_points(content);
    assert_eq!(entries.len(), 2);
    assert_eq!(entries[0].name, "my_plugin");
    assert_eq!(entries[0].module, "my_package.plugin");
    assert_eq!(entries[1].name, "another");
    assert_eq!(entries[1].module, "another_pkg");
}

#[test]
fn test_parse_pytest11_entry_points_with_attr() {
    let content = r#"
[pytest11]
my_plugin = my_package.module:plugin_entry
"#;
    let entries = FixtureDatabase::parse_pytest11_entry_points(content);
    assert_eq!(entries.len(), 1);
    assert_eq!(entries[0].module, "my_package.module:plugin_entry");
}

#[test]
fn test_parse_pytest11_entry_points_multiple_sections_before_pytest11() {
    let content = r#"
[console_scripts]
cli = pkg:main

[gui_scripts]
gui = pkg:gui_main

[pytest11]
my_plugin = my_package.plugin

[other]
extra = something
"#;
    let entries = FixtureDatabase::parse_pytest11_entry_points(content);
    assert_eq!(entries.len(), 1);
    assert_eq!(entries[0].name, "my_plugin");
}

fn some_pair(a: &str, b: &str) -> Option<(String, String)> {
    Some((a.to_string(), b.to_string()))
}

#[test]
fn test_extract_package_name_from_dist_info() {
    assert_eq!(
        FixtureDatabase::extract_package_name_from_dist_info("mypackage-1.0.0.dist-info"),
        some_pair("mypackage", "mypackage")
    );
    assert_eq!(
        FixtureDatabase::extract_package_name_from_dist_info("my-package-1.0.0.dist-info"),
        some_pair("my-package", "my_package")
    );
    assert_eq!(
        FixtureDatabase::extract_package_name_from_dist_info("My.Package-2.3.4.dist-info"),
        some_pair("My.Package", "my_package")
    );
    assert_eq!(
        FixtureDatabase::extract_package_name_from_dist_info("pytest_mock-3.12.0.dist-info"),
        some_pair("pytest_mock", "pytest_mock")
    );
    assert_eq!(
        FixtureDatabase::extract_package_name_from_dist_info("mypackage-0.1.0.egg-info"),
        some_pair("mypackage", "mypackage")
    );
    assert_eq!(
        FixtureDatabase::extract_package_name_from_dist_info("mypackage.dist-info"),
        some_pair("mypackage", "mypackage")
    );
}

// The module path of an entry point, checked before any file is looked up.

#[test]
fn entry_point_module_strips_attr() {
    let parts = entry_point_module_parts("my_plugin.module:entry_function").unwrap();
    assert_eq!(parts, vec!["my_plugin".to_string(), "module".to_string()]);
}

#[test]
fn entry_point_module_rejects_dotdot_and_null_and_empty_segments() {
    assert!(entry_point_module_parts("..%2Fetc%2Fpasswd").is_none());
    assert!(entry_point_module_parts("valid...secret").is_none());
    assert!(entry_point_module_parts("module\0name").is_none());
    assert!(entry_point_module_parts("foo..bar").is_none());
}

#[test]
fn entry_point_module_plain_name() {
    assert_eq!(entry_point_module_parts("nonexistent_plugin"), Some(vec!["nonexistent_plugin".to_string()]));
}

#[test]
fn test_pth_prefix_matching_no_false_positive() {
    // "foo" should not match "foo-bar.pth" (a different package, not a version suffix)
    let foo = editable_pth_candidates("foo", "foo");
    assert!(!pth_stem_matches("foo-bar", &foo), "foo should not match foo-bar.pth (different package)");
    // "foo-bar" matches exactly
    let foo_bar = editable_pth_candidates("foo-bar", "foo_bar");
    assert!(pth_stem_matches("foo-bar", &foo_bar), "foo-bar should match foo-bar.pth exactly");
    // a version suffix still matches
    assert!(pth_stem_matches("foo-1.2", &foo));
}
