//! The data handed over by the parsing collaborator: per file, the raw
//! references and raw definitions it extracted, with source locations.

use vstd::prelude::*;

verus! {

/// A 1-based line and column.
#[derive(Debug, Clone, Copy, PartialEq, Eq, Structural)]
pub struct SourceLocation {
    pub line: usize,
    pub column: usize,
}

impl Default for SourceLocation {
    /// The zero location.
    fn default() -> (r: Self)
        ensures
            r.line == 0 && r.column == 0,
    {
        SourceLocation { line: 0, column: 0 }
    }
}

/// One symbolic reference as the parser saw it, with its lexical nesting
/// (outermost first).
#[derive(Debug)]
pub struct UnresolvedReference {
    pub name: String,
    pub namespace_path: Vec<String>,
    pub location: SourceLocation,
}

/// One definition as the parser saw it.
#[derive(Debug)]
pub struct ParsedDefinition {
    pub fully_qualified_name: String,
    pub location: SourceLocation,
}

/// One parsed source file: its references and definitions.
#[derive(Debug)]
pub struct ProcessedFile {
    pub absolute_path: String,
    pub unresolved_references: Vec<UnresolvedReference>,
    pub definitions: Vec<ParsedDefinition>,
}

/// One place a fully qualified symbol is defined.
#[derive(Debug)]
pub struct ConstantDefinition {
    pub fully_qualified_name: String,
    pub absolute_path_of_definition: String,
    pub location: SourceLocation,
}

impl Clone for ConstantDefinition {
    fn clone(&self) -> (res: Self)
        ensures
            res.fully_qualified_name@ == self.fully_qualified_name@,
            res.absolute_path_of_definition@ == self.absolute_path_of_definition@,
            res.location == self.location,
    {
        ConstantDefinition {
            fully_qualified_name: self.fully_qualified_name.clone(),
            absolute_path_of_definition: self.absolute_path_of_definition.clone(),
            location: self.location,
        }
    }
}

} // verus!
