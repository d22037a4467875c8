//! Tests for violation message template expansion.

use pks::checker::{Violation, ViolationIdentifier};
use pks::checker_types::{CheckerConfiguration, CheckerType};
use pks::processed_file::SourceLocation;
use pks::template::{
    build_violation_vars, colorize_reference_location, expand, format_reference_location,
};

#[test]
fn test_expand_simple() {
    let vars = vec![("name".to_string(), "World".to_string())];
    assert_eq!(expand("Hello, {{name}}!", &vars), "Hello, World!");
}

#[test]
fn test_expand_multiple() {
    let vars = vec![
        ("a".to_string(), "1".to_string()),
        ("b".to_string(), "2".to_string()),
    ];
    assert_eq!(expand("{{a}} + {{b}} = 3", &vars), "1 + 2 = 3");
}

#[test]
fn test_expand_missing_var() {
    let vars: Vec<(String, String)> = Vec::new();
    assert_eq!(expand("Hello, {{name}}!", &vars), "Hello, {{name}}!");
}

#[test]
fn test_format_reference_location() {
    assert_eq!(format_reference_location("foo.rb", 10, 5), "foo.rb:10:5\n");
}

#[test]
fn test_colorize_reference_location() {
    assert_eq!(
        colorize_reference_location("foo.rb:10:5\n"),
        "\x1b[36mfoo.rb:10:5\x1b[0m\n"
    );
}

#[test]
fn test_colorize_reference_location_no_newline() {
    assert_eq!(
        colorize_reference_location("foo.rb:10:5"),
        "\x1b[36mfoo.rb:10:5\x1b[0m"
    );
}

#[test]
fn test_build_violation_vars_includes_location() {
    let v = Violation {
        identifier: ViolationIdentifier {
            violation_type: CheckerType::Privacy,
            strict: false,
            file: "foo/bar/file.rb".to_string(),
            constant_name: "Foo".to_string(),
            referencing_pack_name: "bar".to_string(),
            defining_pack_name: "foo".to_string(),
        },
        source_location: SourceLocation { line: 10, column: 5 },
        referencing_pack_relative_yml: "bar/package.yml".to_string(),
        defining_layer: None,
        referencing_layer: None,
    };
    let cfg = CheckerConfiguration::new(CheckerType::Privacy);
    let vars = build_violation_vars(&v, &cfg);
    assert!(vars.contains(&("violation_name".to_string(), "Privacy".to_string())));
    assert!(vars.contains(&("constant_name".to_string(), "Foo".to_string())));
    assert!(vars.contains(&(
        "reference_location".to_string(),
        "foo/bar/file.rb:10:5\n".to_string()
    )));
}
