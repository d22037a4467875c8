//! Tests for string utilities, glob matching, reference enrichment and
//! pack creation.

use pks::configuration::Configuration;
use pks::creator::{create, new_package_yml_contents, readme, CreateResult};
use pks::globs::glob_matches;
use pks::pack::Pack;
use pks::pack_set::PackSet;
use pks::processed_file::SourceLocation;
use pks::reference_extractor::{get_all_references, PackageNames, RawReference};
use pks::strutil::{join_lines, split_lines, str_contains, str_replace, u64_to_string};

#[test]
fn test_u64_to_string() {
    assert_eq!(u64_to_string(0), "0");
    assert_eq!(u64_to_string(7), "7");
    assert_eq!(u64_to_string(1234), "1234");
    assert_eq!(u64_to_string(1000000), "1000000");
}

#[test]
fn test_str_replace_all_occurrences() {
    assert_eq!(str_replace("a-b-c", "-", "::"), "a::b::c");
    assert_eq!(str_replace("aaa", "aa", "b"), "ba");
    assert_eq!(str_replace("hello", "x", "y"), "hello");
}

#[test]
fn test_str_contains() {
    assert!(str_contains("hello world", "lo wo"));
    assert!(!str_contains("hello", "world"));
    assert!(str_contains("anything", ""));
}

#[test]
fn test_split_and_join_lines() {
    let lines = split_lines("a\nb\nc\n");
    assert_eq!(lines, vec!["a", "b", "c"]);
    assert_eq!(join_lines(&lines), "a\nb\nc\n");
    let partial = split_lines("a\nb");
    assert_eq!(partial, vec!["a", "b"]);
    let empty: Vec<String> = split_lines("");
    assert!(empty.is_empty());
}

#[test]
fn test_glob_matching() {
    assert!(glob_matches("packs/foo/**", "packs/foo/app/services/x.rb"));
    assert!(glob_matches("**/*.rb", "packs/foo/app/x.rb"));
    assert!(glob_matches("packs/*/app", "packs/foo/app"));
    assert!(!glob_matches("packs/*/app", "packs/foo/bar/app"));
    assert!(!glob_matches("packs/foo/**", "packs/bar/x.rb"));
}

#[test]
fn test_create_already_exists() {
    let foo = Pack {
        name: "packs/foo".to_string(),
        ..Pack::default()
    };
    let config = Configuration {
        pack_set: PackSet::build(vec![foo], Vec::new()).unwrap(),
        ..Configuration::default()
    };
    assert_eq!(create(&config, "packs/foo"), CreateResult::AlreadyExists);
    assert_eq!(create(&config, "packs/new"), CreateResult::Success);
}

#[test]
fn test_create_scaffolding_contents() {
    assert_eq!(
        new_package_yml_contents(),
        "enforce_dependencies: true\nenforce_privacy: true\nenforce_layers: true"
    );
    let r = readme("packs/foo");
    assert!(r.starts_with("Welcome to `packs/foo`!"));
    assert!(r.contains("README.md should change as your public API changes."));
}

#[test]
fn test_reference_enrichment_drops_unowned_files() {
    let names = PackageNames::new(vec![
        (
            "packs/foo/app/services/foo.rb".to_string(),
            "packs/foo".to_string(),
        ),
        (
            "packs/bar/app/services/bar.rb".to_string(),
            "packs/bar".to_string(),
        ),
    ]);
    assert_eq!(
        names.find_pack_name("packs/foo/app/services/foo.rb"),
        Some("packs/foo".to_string())
    );
    assert_eq!(names.find_pack_name("unknown.rb"), None);

    let raws = vec![
        RawReference {
            constant_name: "::Bar".to_string(),
            relative_referencing_file: "packs/foo/app/services/foo.rb".to_string(),
            relative_defining_file: Some("packs/bar/app/services/bar.rb".to_string()),
            source_location: SourceLocation { line: 3, column: 4 },
        },
        RawReference {
            constant_name: "::Qux".to_string(),
            relative_referencing_file: "orphan.rb".to_string(),
            relative_defining_file: None,
            source_location: SourceLocation { line: 1, column: 1 },
        },
    ];
    let refs = get_all_references(&names, &raws);
    assert_eq!(refs.len(), 1);
    assert_eq!(refs[0].referencing_pack_name, "packs/foo");
    assert_eq!(refs[0].defining_pack_name, Some("packs/bar".to_string()));
    assert_eq!(refs[0].constant_name, "::Bar");
}
