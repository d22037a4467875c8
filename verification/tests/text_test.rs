//! Tests for the text output formatter.

use pks::check_all::CheckAllResult;
use pks::checker::{Violation, ViolationIdentifier};
use pks::checker_types::CheckerType;
use pks::configuration::Configuration;
use pks::processed_file::SourceLocation;
use pks::text::{format_location, format_violation_message, write_text, ColorMode};

fn sample_violation() -> Violation {
    Violation {
        identifier: ViolationIdentifier {
            violation_type: CheckerType::Privacy,
            strict: false,
            file: "foo/bar/file.rb".to_string(),
            constant_name: "Foo".to_string(),
            referencing_pack_name: "bar".to_string(),
            defining_pack_name: "foo".to_string(),
        },
        source_location: SourceLocation { line: 10, column: 5 },
        referencing_pack_relative_yml: "bar/package.yml".to_string(),
        defining_layer: None,
        referencing_layer: None,
    }
}

#[test]
fn test_format_location_with_color() {
    let result = format_location("foo.rb", 10, 5, ColorMode::Colored);
    assert_eq!(result, "\x1b[36mfoo.rb:10:5\x1b[0m");
}

#[test]
fn test_format_location_without_color() {
    let result = format_location("foo.rb", 10, 5, ColorMode::Plain);
    assert_eq!(result, "foo.rb:10:5");
}

#[test]
fn test_format_violation_message_with_color() {
    let result = format_violation_message(
        "Privacy violation: `Foo` is private",
        "foo/bar/file.rb",
        10,
        5,
        ColorMode::Colored,
    );
    assert_eq!(
        result,
        "\x1b[36mfoo/bar/file.rb:10:5\x1b[0m\nPrivacy violation: `Foo` is private"
    );
}

#[test]
fn test_format_violation_message_without_color() {
    let result = format_violation_message(
        "Privacy violation: `Foo` is private",
        "foo/bar/file.rb",
        10,
        5,
        ColorMode::Plain,
    );
    assert_eq!(
        result,
        "foo/bar/file.rb:10:5\nPrivacy violation: `Foo` is private"
    );
}

#[test]
fn test_format_violation_message_with_custom_template_no_color() {
    let result = format_violation_message(
        "{{reference_location}}Custom privacy error for `Foo`",
        "foo/bar/file.rb",
        10,
        5,
        ColorMode::Plain,
    );
    assert_eq!(result, "foo/bar/file.rb:10:5\nCustom privacy error for `Foo`");
}

#[test]
fn test_format_violation_message_with_custom_template_with_color() {
    let result = format_violation_message(
        "{{reference_location}}Custom privacy error for `Foo`",
        "foo/bar/file.rb",
        10,
        5,
        ColorMode::Colored,
    );
    assert_eq!(
        result,
        "\x1b[36mfoo/bar/file.rb:10:5\x1b[0m\nCustom privacy error for `Foo`"
    );
}

#[test]
fn test_write_text_no_violations() {
    let result = CheckAllResult {
        reportable_violations: Vec::new(),
        stale_violations: Vec::new(),
        strict_mode_violations: Vec::new(),
    };
    let configuration = Configuration::default();
    let output = write_text(&result, &configuration, ColorMode::Plain);
    assert_eq!(output, "No violations detected!\n");
}

#[test]
fn test_write_text_with_violations() {
    let result = CheckAllResult {
        reportable_violations: vec![sample_violation()],
        stale_violations: Vec::new(),
        strict_mode_violations: Vec::new(),
    };
    let configuration = Configuration::default();
    let text = write_text(&result, &configuration, ColorMode::Plain);
    assert!(text.contains("1 violation(s) detected:"));
    assert!(text.contains("foo/bar/file.rb:10:5"));
    assert!(text.contains("Privacy violation: `Foo` is private"));
}

#[test]
fn test_write_text_stale_hint() {
    let result = CheckAllResult {
        reportable_violations: Vec::new(),
        stale_violations: vec![sample_violation().identifier],
        strict_mode_violations: Vec::new(),
    };
    let configuration = Configuration::default();
    let text = write_text(&result, &configuration, ColorMode::Plain);
    assert!(text.contains("There were stale violations found, please run `pks update`"));
}

#[test]
fn test_write_text_strict_message() {
    let mut v = sample_violation();
    v.identifier.strict = true;
    let result = CheckAllResult {
        reportable_violations: Vec::new(),
        stale_violations: Vec::new(),
        strict_mode_violations: vec![v],
    };
    let configuration = Configuration::default();
    let text = write_text(&result, &configuration, ColorMode::Plain);
    assert!(text.contains(
        "bar cannot have privacy violations on foo because strict mode is enabled"
    ));
}
