//! Tests for unused-dependency detection and dependency graph validation.

use pks::configuration::Configuration;
use pks::dependencies::{
    check_unnecessary_dependencies, update_dependencies_for_constant, used_dependencies, validate,
};
use pks::pack::Pack;
use pks::pack_set::PackSet;
use pks::processed_file::SourceLocation;
use pks::reference::Reference;

fn reference_from_to(from: &str, to: &str) -> Reference {
    Reference {
        constant_name: "::X".to_string(),
        defining_pack_name: Some(to.to_string()),
        relative_defining_file: Some(format!("{}/app/services/x.rb", to)),
        referencing_pack_name: from.to_string(),
        relative_referencing_file: format!("{}/app/services/y.rb", from),
        source_location: SourceLocation { line: 1, column: 1 },
    }
}

fn config_with(packs: Vec<Pack>) -> Configuration {
    Configuration {
        pack_set: PackSet::build(packs, Vec::new()).unwrap(),
        ..Configuration::default()
    }
}

#[test]
fn test_check_unnecessary_dependencies() {
    // A depends on B and C, but only B is actually referenced
    let a = Pack {
        name: "packs/a".to_string(),
        relative_path: "packs/a".to_string(),
        dependencies: vec!["packs/b".to_string(), "packs/c".to_string()],
        ..Pack::default()
    };
    let b = Pack {
        name: "packs/b".to_string(),
        relative_path: "packs/b".to_string(),
        ..Pack::default()
    };
    let c = Pack {
        name: "packs/c".to_string(),
        relative_path: "packs/c".to_string(),
        ..Pack::default()
    };
    let config = config_with(vec![a, b, c]);
    let references = vec![reference_from_to("packs/a", "packs/b")];

    let unused = check_unnecessary_dependencies(&config, &references);
    assert_eq!(
        unused,
        vec![("packs/a".to_string(), "packs/c".to_string())]
    );

    // auto-correct keeps exactly the used edge
    let corrected = used_dependencies(&config.pack_set.packs[0], &references);
    assert_eq!(corrected, vec!["packs/b".to_string()]);
}

#[test]
fn test_check_unnecessary_dependencies_no_issue() {
    let a = Pack {
        name: "packs/a".to_string(),
        dependencies: vec!["packs/b".to_string()],
        ..Pack::default()
    };
    let b = Pack {
        name: "packs/b".to_string(),
        ..Pack::default()
    };
    let config = config_with(vec![a, b]);
    let references = vec![reference_from_to("packs/a", "packs/b")];
    assert!(check_unnecessary_dependencies(&config, &references).is_empty());
}

#[test]
fn test_validate_detects_cycle() {
    let a = Pack {
        name: "packs/a".to_string(),
        dependencies: vec!["packs/b".to_string()],
        ..Pack::default()
    };
    let b = Pack {
        name: "packs/b".to_string(),
        dependencies: vec!["packs/a".to_string()],
        ..Pack::default()
    };
    let config = config_with(vec![a, b]);
    let errors = validate(&config).unwrap_err();
    assert!(errors[0].contains("cycle"));
}

#[test]
fn test_validate_detects_missing_dependency() {
    let a = Pack {
        name: "packs/a".to_string(),
        dependencies: vec!["packs/ghost".to_string()],
        ..Pack::default()
    };
    let config = config_with(vec![a]);
    let errors = validate(&config).unwrap_err();
    assert!(errors[0].contains("does not name an existing pack"));
    assert!(errors[0].contains("packs/ghost"));
}

#[test]
fn test_validate_accepts_acyclic_graph() {
    let a = Pack {
        name: "packs/a".to_string(),
        dependencies: vec!["packs/b".to_string(), "packs/c".to_string()],
        ..Pack::default()
    };
    let b = Pack {
        name: "packs/b".to_string(),
        dependencies: vec!["packs/c".to_string()],
        ..Pack::default()
    };
    let c = Pack {
        name: "packs/c".to_string(),
        ..Pack::default()
    };
    let config = config_with(vec![a, b, c]);
    assert!(validate(&config).is_ok());
}

#[test]
fn test_update_dependencies_for_constant() {
    // packs/a references ::X in packs/b without declaring the dependency
    let a = Pack {
        name: "packs/a".to_string(),
        ..Pack::default()
    };
    let b = Pack {
        name: "packs/b".to_string(),
        ..Pack::default()
    };
    let config = config_with(vec![a, b]);
    let references = vec![
        reference_from_to("packs/a", "packs/b"),
        reference_from_to("packs/a", "packs/b"),
    ];
    let edges = update_dependencies_for_constant(&config, &references, "::X");
    assert_eq!(edges, vec![("packs/a".to_string(), "packs/b".to_string())]);
    // an unrelated constant updates nothing
    assert!(update_dependencies_for_constant(&config, &references, "::Y").is_empty());
}

#[test]
fn test_add_dependency_appends() {
    let a = Pack {
        name: "packs/a".to_string(),
        ..Pack::default()
    };
    let b = Pack {
        name: "packs/b".to_string(),
        ..Pack::default()
    };
    let a2 = a.add_dependency(&b);
    assert_eq!(a2.dependencies, vec!["packs/b".to_string()]);
    assert_eq!(a2.name, "packs/a");
}
