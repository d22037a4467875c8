//! Enforcement of architectural boundaries ("packs") inside one codebase:
//! every cross-boundary reference to a named symbol is resolved to the file
//! and pack defining it and judged against the packs' declared
//! dependencies, privacy, layering and visibility rules; fresh violations
//! are reconciled against each pack's recorded ledger of previously
//! accepted ones.
//!
//! File discovery, source parsing, YAML configuration loading and all file
//! writes belong to outside collaborators, which exchange plain values
//! with this library.

pub mod check_all;
pub mod checker;
pub mod checker_types;
pub mod configuration;
pub mod creator;
pub mod dependencies;
pub mod globs;
pub mod pack;
pub mod pack_set;
pub mod package_todo;
pub mod processed_file;
pub mod reference;
pub mod reference_extractor;
pub mod resolver;
pub mod strutil;
pub mod template;
pub mod text;
pub mod todo_validator;
