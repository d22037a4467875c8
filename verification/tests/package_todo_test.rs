//! Tests for the ledger codec: canonical serialization, parsing, and the
//! format-drift validator.

use pks::checker_types::CheckerType;
use pks::package_todo::{
    canonicalize, parse_package_todo, serialize_package_todo, PackageTodo, TodoRecord,
};
use pks::todo_validator::{validate_package_todo_format, Checker};

fn record(pack: &str, t: CheckerType, constant: &str, file: &str) -> TodoRecord {
    TodoRecord {
        defining_pack_name: pack.to_string(),
        violation_type: t,
        constant_name: constant.to_string(),
        file: file.to_string(),
    }
}

fn sample_todo() -> PackageTodo {
    PackageTodo {
        records: vec![
            record(
                "packs/bar",
                CheckerType::Privacy,
                "::Baz",
                "packs/foo/app/services/foo.rb",
            ),
            record(
                "packs/bar",
                CheckerType::Dependency,
                "::Bar",
                "packs/foo/app/services/foo.rb",
            ),
            record(
                "packs/apple",
                CheckerType::Dependency,
                "::Apple",
                "packs/foo/app/services/foo.rb",
            ),
        ],
    }
}

#[test]
fn test_serialize_sorts_canonically() {
    let s = serialize_package_todo("packs/foo", &sample_todo(), true);
    let apple = s.find("packs/apple:").unwrap();
    let bar = s.find("packs/bar:").unwrap();
    assert!(apple < bar);
    let dep = s.find("  dependency:").unwrap();
    let priv_pos = s.find("  privacy:").unwrap();
    assert!(dep < priv_pos);
    assert!(s.starts_with("# This file contains a list of dependencies"));
    assert!(s.contains("# pks update"));
    assert!(s.contains("  - ::Bar: packs/foo/app/services/foo.rb"));
}

#[test]
fn test_serialize_then_parse_round_trip() {
    let todo = sample_todo();
    let s = serialize_package_todo("packs/foo", &todo, true);
    let parsed = parse_package_todo(s.as_str()).unwrap();
    let canon = canonicalize(&todo);
    assert_eq!(parsed.records.len(), canon.records.len());
    for (a, b) in parsed.records.iter().zip(canon.records.iter()) {
        assert_eq!(a.defining_pack_name, b.defining_pack_name);
        assert_eq!(a.violation_type, b.violation_type);
        assert_eq!(a.constant_name, b.constant_name);
        assert_eq!(a.file, b.file);
    }
}

#[test]
fn test_canonical_form_idempotence() {
    // serialize . deserialize . serialize == serialize . deserialize
    let first = serialize_package_todo("packs/foo", &sample_todo(), false);
    let once = parse_package_todo(first.as_str()).unwrap();
    let second = serialize_package_todo("packs/foo", &once, false);
    let twice = parse_package_todo(second.as_str()).unwrap();
    let third = serialize_package_todo("packs/foo", &twice, false);
    assert_eq!(second, third);
    assert_eq!(first, second);
}

#[test]
fn test_canonicalize_removes_duplicates() {
    let todo = PackageTodo {
        records: vec![
            record("packs/bar", CheckerType::Dependency, "::Bar", "a.rb"),
            record("packs/bar", CheckerType::Dependency, "::Bar", "a.rb"),
        ],
    };
    assert_eq!(canonicalize(&todo).records.len(), 1);
}

#[test]
fn test_parse_rejects_malformed_lines() {
    assert!(parse_package_todo("no marker here").is_none());
    assert!(parse_package_todo("---\n  - entry without pack: x\n").is_none());
    assert!(parse_package_todo("---\npacks/foo:\n  not_a_checker:\n").is_none());
    assert!(parse_package_todo("").is_none());
}

#[test]
fn test_validate_correctly_formatted_package_todo() {
    let s = serialize_package_todo("packs/foo", &sample_todo(), true);
    assert!(validate_package_todo_format(s.as_str(), "packs/foo", true).is_ok());
}

#[test]
fn test_validate_incorrectly_formatted_package_todo() {
    // ::Baz sorted before ::Bar is out of canonical order
    let out_of_order = "---\npacks/bar:\n  dependency:\n  - ::Baz: a.rb\n  - ::Bar: a.rb\n";
    let err = validate_package_todo_format(out_of_order, "packs/bar", false).unwrap_err();
    assert!(err.contains("is not in the expected format"));
    assert!(err.contains("bin/packwerk update-todo"));
}

#[test]
fn test_validator_collects_errors_per_file() {
    let good = serialize_package_todo("packs/foo", &sample_todo(), true);
    let bad = "---\npacks/bar:\n  dependency:\n  - ::Baz: a.rb\n  - ::Bar: a.rb\n".to_string();
    let checker = Checker;
    let files = vec![
        ("packs/foo".to_string(), good),
        ("packs/bar".to_string(), bad),
    ];
    let errors = checker.validate(&files, true).unwrap();
    assert_eq!(errors.len(), 1);
    assert!(errors[0].contains("packs/bar"));
    assert!(errors[0].contains("pks update"));

    let all_good = vec![(
        "packs/foo".to_string(),
        serialize_package_todo("packs/foo", &sample_todo(), true),
    )];
    assert!(checker.validate(&all_good, true).is_none());
}

#[test]
fn test_parse_failure_message() {
    let err = validate_package_todo_format("not yaml at all", "packs/foo", true).unwrap_err();
    assert!(err.contains("Failed to parse"));
}
