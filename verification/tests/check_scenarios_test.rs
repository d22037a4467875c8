//! End-to-end scenarios through the full check pipeline.

use pks::check_all::{check_all, update};
use pks::pack::IgnoreRules;
use pks::checker::check_reference;
use pks::checker_types::{CheckerSetting, CheckerType};
use pks::configuration::Configuration;
use pks::pack::Pack;
use pks::pack_set::PackSet;
use pks::package_todo::{parse_package_todo, PackageTodo, TodoRecord};
use pks::processed_file::SourceLocation;
use pks::reference::Reference;

fn base_reference() -> Reference {
    Reference {
        constant_name: "::Bar".to_string(),
        defining_pack_name: Some("packs/bar".to_string()),
        relative_defining_file: Some("packs/bar/app/services/bar.rb".to_string()),
        referencing_pack_name: "packs/foo".to_string(),
        relative_referencing_file: "packs/foo/app/services/foo.rb".to_string(),
        source_location: SourceLocation { line: 3, column: 4 },
    }
}

fn two_pack_config(privacy: CheckerSetting, foo_todo: PackageTodo) -> Configuration {
    let root = Pack {
        name: ".".to_string(),
        relative_path: "".to_string(),
        ..Pack::default()
    };
    let foo = Pack {
        name: "packs/foo".to_string(),
        relative_path: "packs/foo".to_string(),
        enforce_dependencies: Some(CheckerSetting::True),
        package_todo: foo_todo,
        ..Pack::default()
    };
    let bar = Pack {
        name: "packs/bar".to_string(),
        relative_path: "packs/bar".to_string(),
        enforce_privacy: Some(privacy),
        ..Pack::default()
    };
    Configuration {
        pack_set: PackSet::build(vec![root, foo, bar], Vec::new()).unwrap(),
        ..Configuration::default()
    }
}

#[test]
fn test_undeclared_dependency_and_privacy_violations() {
    let config = two_pack_config(CheckerSetting::True, PackageTodo::default());
    let references = vec![base_reference()];
    let result = check_all(&config, &references).unwrap();

    assert_eq!(result.reportable_violations.len(), 2);
    assert_eq!(result.strict_mode_violations.len(), 0);
    assert_eq!(result.stale_violations.len(), 0);
    for v in &result.reportable_violations {
        assert_eq!(v.identifier.referencing_pack_name, "packs/foo");
        assert_eq!(v.identifier.defining_pack_name, "packs/bar");
        assert_eq!(v.identifier.constant_name, "::Bar");
        assert!(!v.identifier.strict);
    }
    let types: Vec<CheckerType> = result
        .reportable_violations
        .iter()
        .map(|v| v.identifier.violation_type)
        .collect();
    assert!(types.contains(&CheckerType::Dependency));
    assert!(types.contains(&CheckerType::Privacy));
}

#[test]
fn test_strict_privacy_is_never_suppressed() {
    // the ledger records the privacy violation, but strict mode reports it anyway
    let todo = PackageTodo {
        records: vec![TodoRecord {
            defining_pack_name: "packs/bar".to_string(),
            violation_type: CheckerType::Privacy,
            constant_name: "::Bar".to_string(),
            file: "packs/foo/app/services/foo.rb".to_string(),
        }],
    };
    let config = two_pack_config(CheckerSetting::Strict, todo);
    let references = vec![base_reference()];
    let result = check_all(&config, &references).unwrap();

    assert_eq!(result.strict_mode_violations.len(), 1);
    assert_eq!(
        result.strict_mode_violations[0].identifier.violation_type,
        CheckerType::Privacy
    );
    assert!(result.strict_mode_violations[0].identifier.strict);
    for v in &result.reportable_violations {
        assert!(v.identifier.violation_type != CheckerType::Privacy);
    }
}

#[test]
fn test_stale_ledger_entry_is_reported() {
    // packs/foo's ledger records a dependency violation at a file that no
    // longer references ::Bar
    let todo = PackageTodo {
        records: vec![TodoRecord {
            defining_pack_name: "packs/bar".to_string(),
            violation_type: CheckerType::Dependency,
            constant_name: "::Bar".to_string(),
            file: "packs/foo/app/services/other_foo.rb".to_string(),
        }],
    };
    let config = two_pack_config(CheckerSetting::True, todo);
    let references = vec![base_reference()];
    let result = check_all(&config, &references).unwrap();

    assert_eq!(result.stale_violations.len(), 1);
    let stale = &result.stale_violations[0];
    assert_eq!(stale.violation_type, CheckerType::Dependency);
    assert_eq!(stale.file, "packs/foo/app/services/other_foo.rb");
    assert_eq!(stale.constant_name, "::Bar");
    assert_eq!(stale.referencing_pack_name, "packs/foo");
    assert_eq!(stale.defining_pack_name, "packs/bar");
    for v in &result.reportable_violations {
        assert!(v.identifier.file != "packs/foo/app/services/other_foo.rb");
    }
    // the text report hints at the update operation
    let text = pks::text::write_text(&result, &config, pks::text::ColorMode::Plain);
    assert!(text.contains("There were stale violations found, please run `pks update`"));
}

#[test]
fn test_ledger_round_trip_update_then_check() {
    let config = two_pack_config(CheckerSetting::True, PackageTodo::default());
    let references = vec![base_reference()];
    let files = update(&config, &references).unwrap();
    assert_eq!(files.len(), 1);
    assert_eq!(files[0].pack_name, "packs/foo");

    // reload the written ledgers into the packs and check again
    let reloaded = parse_package_todo(files[0].content.as_str()).unwrap();
    let config2 = two_pack_config(CheckerSetting::True, reloaded);
    let result = check_all(&config2, &references).unwrap();
    assert_eq!(result.reportable_violations.len(), 0);
    assert_eq!(result.stale_violations.len(), 0);
}

#[test]
fn test_reference_inside_one_pack_is_never_a_violation() {
    let config = two_pack_config(CheckerSetting::True, PackageTodo::default());
    let reference = Reference {
        constant_name: "::Foo".to_string(),
        defining_pack_name: Some("packs/foo".to_string()),
        relative_defining_file: Some("packs/foo/app/services/helper.rb".to_string()),
        referencing_pack_name: "packs/foo".to_string(),
        relative_referencing_file: "packs/foo/app/services/foo.rb".to_string(),
        source_location: SourceLocation { line: 1, column: 1 },
    };
    for t in [
        CheckerType::Dependency,
        CheckerType::Privacy,
        CheckerType::FolderPrivacy,
        CheckerType::Visibility,
        CheckerType::Layer,
    ] {
        assert!(check_reference(&config, t, &reference).unwrap().is_none());
    }
}

#[test]
fn test_global_disable_suppresses_exactly_one_checker() {
    let mut config = two_pack_config(CheckerSetting::True, PackageTodo::default());
    config.disable_enforce_dependencies = true;
    let references = vec![base_reference()];
    let result = check_all(&config, &references).unwrap();

    // the privacy violation is untouched, the dependency violation is gone
    assert_eq!(result.reportable_violations.len(), 1);
    assert_eq!(
        result.reportable_violations[0].identifier.violation_type,
        CheckerType::Privacy
    );
}

#[test]
fn test_ignore_recorded_violations_reports_ledgered() {
    let todo = PackageTodo {
        records: vec![TodoRecord {
            defining_pack_name: "packs/bar".to_string(),
            violation_type: CheckerType::Dependency,
            constant_name: "::Bar".to_string(),
            file: "packs/foo/app/services/foo.rb".to_string(),
        }],
    };
    let mut config = two_pack_config(CheckerSetting::False, todo);
    config.ignore_recorded_violations = true;
    let references = vec![base_reference()];
    let result = check_all(&config, &references).unwrap();
    let types: Vec<CheckerType> = result
        .reportable_violations
        .iter()
        .map(|v| v.identifier.violation_type)
        .collect();
    assert!(types.contains(&CheckerType::Dependency));
}

#[test]
fn test_layer_violation_carries_layer_names() {
    let root = Pack {
        name: ".".to_string(),
        ..Pack::default()
    };
    let foo = Pack {
        name: "packs/foo".to_string(),
        relative_path: "packs/foo".to_string(),
        enforce_layers: Some(CheckerSetting::True),
        layer: Some("utilities".to_string()),
        ..Pack::default()
    };
    let bar = Pack {
        name: "packs/bar".to_string(),
        relative_path: "packs/bar".to_string(),
        layer: Some("product".to_string()),
        ..Pack::default()
    };
    let config = Configuration {
        pack_set: PackSet::build(vec![root, foo, bar], Vec::new()).unwrap(),
        layers: vec!["utilities".to_string(), "product".to_string()],
        ..Configuration::default()
    };
    let v = check_reference(&config, CheckerType::Layer, &base_reference())
        .unwrap()
        .unwrap();
    assert_eq!(v.defining_layer, Some("product".to_string()));
    assert_eq!(v.referencing_layer, Some("utilities".to_string()));

    // in the other direction the reference is allowed
    let back = Reference {
        constant_name: "::Foo".to_string(),
        defining_pack_name: Some("packs/foo".to_string()),
        relative_defining_file: Some("packs/foo/app/services/foo.rb".to_string()),
        referencing_pack_name: "packs/bar".to_string(),
        relative_referencing_file: "packs/bar/app/services/bar.rb".to_string(),
        source_location: SourceLocation { line: 1, column: 1 },
    };
    // the rules pack is the referencing pack for layer checks
    let mut config2 = config;
    config2.pack_set.packs[2].enforce_layers = Some(CheckerSetting::True);
    assert!(check_reference(&config2, CheckerType::Layer, &back)
        .unwrap()
        .is_none());
}

#[test]
fn test_visibility_allow_list() {
    let root = Pack {
        name: ".".to_string(),
        ..Pack::default()
    };
    let foo = Pack {
        name: "packs/foo".to_string(),
        relative_path: "packs/foo".to_string(),
        ..Pack::default()
    };
    let bar = Pack {
        name: "packs/bar".to_string(),
        relative_path: "packs/bar".to_string(),
        enforce_visibility: Some(CheckerSetting::True),
        visible_to: vec!["packs/foo".to_string()],
        ..Pack::default()
    };
    let config = Configuration {
        pack_set: PackSet::build(vec![root, foo, bar], Vec::new()).unwrap(),
        ..Configuration::default()
    };
    // packs/foo is allow-listed, so no violation
    assert!(
        check_reference(&config, CheckerType::Visibility, &base_reference())
            .unwrap()
            .is_none()
    );
}

#[test]
fn test_privacy_public_path_is_allowed() {
    let config = two_pack_config(CheckerSetting::True, PackageTodo::default());
    let mut reference = base_reference();
    reference.relative_defining_file = Some("packs/bar/app/public/bar.rb".to_string());
    assert!(
        check_reference(&config, CheckerType::Privacy, &reference)
            .unwrap()
            .is_none()
    );
}

#[test]
fn test_checker_ignore_globs_exempt_files() {
    let mut config = two_pack_config(CheckerSetting::True, PackageTodo::default());
    // the referencing pack exempts the defining file from dependency checks
    config.pack_set.packs[1].ignores = vec![IgnoreRules {
        checker_type: CheckerType::Dependency,
        globs: vec!["packs/bar/**".to_string()],
    }];
    let result = check_all(&config, &vec![base_reference()]).unwrap();
    let types: Vec<CheckerType> = result
        .reportable_violations
        .iter()
        .map(|v| v.identifier.violation_type)
        .collect();
    assert!(!types.contains(&CheckerType::Dependency));
    assert!(types.contains(&CheckerType::Privacy));
}
