//! Tests for pack lookup by name and by file ownership.

use pks::pack::Pack;
use pks::pack_set::PackSet;

fn simple_app_pack_set() -> PackSet {
    let root = Pack {
        name: ".".to_string(),
        relative_path: "".to_string(),
        ..Pack::default()
    };
    let foo = Pack {
        name: "packs/foo".to_string(),
        relative_path: "packs/foo".to_string(),
        ..Pack::default()
    };
    let bar = Pack {
        name: "packs/bar".to_string(),
        relative_path: "packs/bar".to_string(),
        ..Pack::default()
    };
    PackSet::build(vec![root, foo, bar], Vec::new()).unwrap()
}

#[test]
fn test_for_file() {
    let pack_set = simple_app_pack_set();
    assert_eq!(
        String::from("packs/foo"),
        pack_set
            .for_file("packs/foo/app/services/foo.rb")
            .unwrap()
            .name
    );
}

#[test]
fn test_for_file_falls_back_to_root() {
    let pack_set = simple_app_pack_set();
    assert_eq!(
        String::from("."),
        pack_set.for_file("app/services/top.rb").unwrap().name
    );
}

#[test]
fn test_for_file_longest_match_wins() {
    let root = Pack {
        name: ".".to_string(),
        relative_path: "".to_string(),
        ..Pack::default()
    };
    let outer = Pack {
        name: "packs/foo".to_string(),
        relative_path: "packs/foo".to_string(),
        ..Pack::default()
    };
    let inner = Pack {
        name: "packs/foo/inner".to_string(),
        relative_path: "packs/foo/inner".to_string(),
        ..Pack::default()
    };
    let pack_set = PackSet::build(vec![root, outer, inner], Vec::new()).unwrap();
    assert_eq!(
        "packs/foo/inner",
        pack_set.for_file("packs/foo/inner/app/x.rb").unwrap().name
    );
}

#[test]
fn test_for_pack_missing_is_err() {
    let pack_set = simple_app_pack_set();
    assert!(pack_set.for_pack("packs/absent").is_err());
    assert!(pack_set.for_pack("packs/foo").is_ok());
}

#[test]
fn test_build_rejects_duplicate_names() {
    let a = Pack {
        name: "packs/foo".to_string(),
        ..Pack::default()
    };
    let b = Pack {
        name: "packs/foo".to_string(),
        ..Pack::default()
    };
    assert!(PackSet::build(vec![a, b], Vec::new()).is_err());
}

#[test]
fn test_build_rejects_self_dependency() {
    let a = Pack {
        name: "packs/foo".to_string(),
        dependencies: vec!["packs/foo".to_string()],
        ..Pack::default()
    };
    assert!(PackSet::build(vec![a], Vec::new()).is_err());
}
