//! Tests for the two constant-resolution strategies.

use pks::processed_file::{ParsedDefinition, ProcessedFile, SourceLocation};
use pks::resolver::{
    get_experimental_constant_resolver, list_definitions, ConstantResolver, ZeitwerkResolver,
};

fn file_defining(path: &str, fqn: &str) -> ProcessedFile {
    ProcessedFile {
        absolute_path: path.to_string(),
        unresolved_references: Vec::new(),
        definitions: vec![ParsedDefinition {
            fully_qualified_name: fqn.to_string(),
            location: SourceLocation { line: 1, column: 1 },
        }],
    }
}

#[test]
fn test_list_definitions_experimental() {
    let files = vec![
        file_defining("/root/packs/foo/app/services/foo.rb", "::Foo"),
        file_defining("/root/packs/bar/app/services/bar.rb", "::Bar"),
    ];
    let resolver = get_experimental_constant_resolver(&files);
    let all = list_definitions(&ConstantResolver::Experimental(resolver), false).unwrap();
    assert_eq!(all.len(), 2);
    assert_eq!(all[0].fully_qualified_name, "::Foo");
    assert_eq!(
        all[0].absolute_path_of_definition,
        "/root/packs/foo/app/services/foo.rb"
    );
}

#[test]
fn test_list_definitions_with_ambiguous_experimental() {
    let files = vec![
        file_defining("/root/a.rb", "::Foo"),
        file_defining("/root/b.rb", "::Foo"),
        file_defining("/root/c.rb", "::Bar"),
    ];
    let resolver = get_experimental_constant_resolver(&files);
    let definitions = resolver.definitions_for("::Foo");
    assert_eq!(definitions.len(), 2);
    let ambiguous =
        list_definitions(&ConstantResolver::Experimental(resolver), true).unwrap();
    assert_eq!(ambiguous.len(), 2);
    for d in &ambiguous {
        assert_eq!(d.fully_qualified_name, "::Foo");
    }
}

#[test]
fn test_ambiguous_mode_is_an_error_for_zeitwerk() {
    let zeitwerk = ZeitwerkResolver {
        autoload_roots: Vec::new(),
        acronyms: Vec::new(),
        included_files: Vec::new(),
    };
    let r = list_definitions(&ConstantResolver::Zeitwerk(zeitwerk), true);
    assert!(r.is_err());
    assert!(r
        .unwrap_err()
        .contains("Ambiguous mode is not supported for the Zeitwerk parser"));
}

#[test]
fn test_resolve_searches_nesting_innermost_first() {
    let files = vec![
        file_defining("/root/a.rb", "::Outer::Inner::Name"),
        file_defining("/root/b.rb", "::Name"),
    ];
    let resolver = get_experimental_constant_resolver(&files);
    let nesting = vec!["Outer".to_string(), "Inner".to_string()];
    let found = resolver.resolve("Name", &nesting).unwrap();
    assert_eq!(found.len(), 1);
    assert_eq!(found[0].fully_qualified_name, "::Outer::Inner::Name");
    assert_eq!(found[0].absolute_path_of_definition, "/root/a.rb");

    // without the nesting, the top-level definition is found
    let top = resolver.resolve("Name", &Vec::new()).unwrap();
    assert_eq!(top[0].absolute_path_of_definition, "/root/b.rb");

    // an unknown name resolves to nothing
    assert!(resolver.resolve("Absent", &nesting).is_none());
}

#[test]
fn test_zeitwerk_resolves_by_file_existence() {
    let zeitwerk = ZeitwerkResolver {
        autoload_roots: vec![
            ("/root/app/models".to_string(), "".to_string()),
            ("/root/app/services".to_string(), "".to_string()),
        ],
        acronyms: Vec::new(),
        included_files: vec!["/root/app/services/foo_bar/baz.rb".to_string()],
    };
    let d = zeitwerk.resolve("FooBar::Baz").unwrap();
    assert_eq!(
        d.absolute_path_of_definition,
        "/root/app/services/foo_bar/baz.rb"
    );
    assert_eq!(d.fully_qualified_name, "FooBar::Baz");
    assert!(zeitwerk.resolve("Missing").is_none());
}

#[test]
fn test_zeitwerk_namespaced_root() {
    // a root mapped to a namespace prefix only serves constants below it
    let zeitwerk = ZeitwerkResolver {
        autoload_roots: vec![(
            "/root/app/domain".to_string(),
            "Domain".to_string(),
        )],
        acronyms: Vec::new(),
        included_files: vec!["/root/app/domain/billing/invoice.rb".to_string()],
    };
    let d = zeitwerk.resolve("Domain::Billing::Invoice").unwrap();
    assert_eq!(
        d.absolute_path_of_definition,
        "/root/app/domain/billing/invoice.rb"
    );
    assert!(zeitwerk.resolve("Billing::Invoice").is_none());
}

#[test]
fn test_zeitwerk_applies_acronym_overrides() {
    let zeitwerk = ZeitwerkResolver {
        autoload_roots: vec![("/root/app/services".to_string(), "".to_string())],
        acronyms: vec![("api".to_string(), "API".to_string())],
        included_files: vec!["/root/app/services/api/client.rb".to_string()],
    };
    let d = zeitwerk.resolve("::API::Client").unwrap();
    assert_eq!(
        d.absolute_path_of_definition,
        "/root/app/services/api/client.rb"
    );
}
