//! Tests for the checkability conditions and violation construction.

use pks::checker::PackChecker;
use pks::checker_types::{CheckerConfiguration, CheckerType};
use pks::configuration::Configuration;
use pks::pack::Pack;
use pks::pack_set::PackSet;
use pks::processed_file::SourceLocation;
use pks::reference::Reference;

fn build_config_refer() -> (Configuration, Reference) {
    let root_pack = Pack {
        name: String::from("."),
        ..Pack::default()
    };
    let defining_pack = Pack {
        name: String::from("packs/foo"),
        ..Pack::default()
    };
    let referencing_pack_bar = Pack {
        name: String::from("packs/bar"),
        ..Pack::default()
    };
    let referencing_pack_baz = Pack {
        name: String::from("packs/baz"),
        dependencies: vec![String::from("packs/foo")],
        ..Pack::default()
    };
    let mut checker_map = Vec::new();
    checker_map.push(CheckerConfiguration::new(CheckerType::Dependency));
    checker_map.push(CheckerConfiguration::new(CheckerType::Privacy));
    checker_map.push(CheckerConfiguration::new(CheckerType::FolderPrivacy));
    checker_map.push(CheckerConfiguration::new(CheckerType::Visibility));
    checker_map.push(CheckerConfiguration::new(CheckerType::Layer));

    let config = Configuration {
        pack_set: PackSet::build(
            vec![
                root_pack,
                defining_pack,
                referencing_pack_bar,
                referencing_pack_baz,
            ],
            Vec::new(),
        )
        .unwrap(),
        checker_configuration: checker_map,
        ..Configuration::default()
    };

    let refer = Reference {
        constant_name: "Foo".into(),
        defining_pack_name: Some("packs/foo".into()),
        relative_defining_file: None,
        referencing_pack_name: "packs/baz".into(),
        relative_referencing_file: "packs/baz/public/baz.rb".into(),
        source_location: SourceLocation { line: 3, column: 4 },
    };
    (config, refer)
}

#[test]
fn folder_privacy_test() {
    let (config, refer) = build_config_refer();
    let checker = PackChecker::new(&config, CheckerType::FolderPrivacy, &refer).unwrap();

    assert!(!checker.is_strict());
    // nothing is enforced, so the reference is not checkable
    assert!(!checker.checkable());

    let violation = checker.violation(None).unwrap();
    assert_eq!(
        violation.identifier.violation_type,
        CheckerType::FolderPrivacy
    );
    assert_eq!(violation.identifier.constant_name, "Foo");
    assert_eq!(violation.identifier.defining_pack_name, "packs/foo");
    assert_eq!(violation.identifier.referencing_pack_name, "packs/baz");
    assert!(violation.defining_layer.is_none());
    assert!(violation.referencing_layer.is_none());
}

#[test]
fn privacy_test() {
    let (config, refer) = build_config_refer();
    let checker = PackChecker::new(&config, CheckerType::Privacy, &refer).unwrap();

    let violation = checker.violation(None).unwrap();
    assert_eq!(violation.identifier.violation_type, CheckerType::Privacy);
}

#[test]
fn dependency_test() {
    let (config, refer) = build_config_refer();
    let checker = PackChecker::new(&config, CheckerType::Dependency, &refer).unwrap();

    let violation = checker.violation(None).unwrap();
    assert_eq!(violation.identifier.violation_type, CheckerType::Dependency);
}

#[test]
fn layer_test() {
    let (config, refer) = build_config_refer();
    let checker = PackChecker::new(&config, CheckerType::Layer, &refer).unwrap();

    // layer violations carry layer names for message context
    let violation = checker
        .violation(Some(("product".to_string(), "utilities".to_string())))
        .unwrap();
    assert_eq!(violation.identifier.violation_type, CheckerType::Layer);
    assert_eq!(violation.defining_layer, Some("product".to_string()));
    assert_eq!(violation.referencing_layer, Some("utilities".to_string()));
}

#[test]
fn visibility_test() {
    let (config, refer) = build_config_refer();
    let checker = PackChecker::new(&config, CheckerType::Visibility, &refer).unwrap();

    let violation = checker.violation(None).unwrap();
    assert_eq!(violation.identifier.violation_type, CheckerType::Visibility);
}

#[test]
fn test_new_fails_for_unknown_pack() {
    let (config, _) = build_config_refer();
    let refer = Reference {
        constant_name: "Foo".into(),
        defining_pack_name: Some("packs/absent".into()),
        relative_defining_file: None,
        referencing_pack_name: "packs/baz".into(),
        relative_referencing_file: "packs/baz/public/baz.rb".into(),
        source_location: SourceLocation { line: 1, column: 1 },
    };
    assert!(PackChecker::new(&config, CheckerType::Dependency, &refer).is_err());
}
