//! The closed set of checker types, the per-pack enforcement levels, and the
//! per-run configuration a checker carries (its name and message template).

use vstd::prelude::*;

verus! {

/// The five boundary checkers. The set is closed: every dispatch is an
/// exhaustive match.
#[derive(Debug, Clone, Copy, PartialEq, Eq, Structural)]
pub enum CheckerType {
    Dependency,
    Privacy,
    FolderPrivacy,
    Visibility,
    Layer,
}

/// A pack's enforcement level for one checker: not enforced, enforced, or
/// enforced so strictly that the ledger may not grandfather a violation.
#[derive(Debug, Clone, Copy, PartialEq, Eq, Structural)]
pub enum CheckerSetting {
    False,
    True,
    Strict,
}

impl CheckerSetting {
    /// The checker is switched off for the pack.
    pub fn is_false(&self) -> (r: bool)
        ensures
            r == (*self == CheckerSetting::False),
    {
        match self {
            CheckerSetting::False => true,
            _ => false,
        }
    }

    /// The checker is enforced without grandfathering.
    pub fn is_strict(&self) -> (r: bool)
        ensures
            r == (*self == CheckerSetting::Strict),
    {
        match self {
            CheckerSetting::Strict => true,
            _ => false,
        }
    }
}

/// The canonical lower-case name of a checker type; this is the key used in
/// the recorded ledger and in per-checker ignore rules.
pub open spec fn spec_checker_name(t: CheckerType) -> Seq<char> {
    match t {
        CheckerType::Dependency => "dependency"@,
        CheckerType::Privacy => "privacy"@,
        CheckerType::FolderPrivacy => "folder_privacy"@,
        CheckerType::Visibility => "visibility"@,
        CheckerType::Layer => "layer"@,
    }
}

/// The capitalised name of a checker type, used in rendered messages.
pub open spec fn spec_pretty_checker_name(t: CheckerType) -> Seq<char> {
    match t {
        CheckerType::Dependency => "Dependency"@,
        CheckerType::Privacy => "Privacy"@,
        CheckerType::FolderPrivacy => "Folder Privacy"@,
        CheckerType::Visibility => "Visibility"@,
        CheckerType::Layer => "Layer"@,
    }
}

/// Per-run configuration of one checker: its type and an optional
/// user-supplied message template overriding the built-in one.
#[derive(Debug, Clone)]
pub struct CheckerConfiguration {
    pub checker_type: CheckerType,
    pub error_template: Option<String>,
}

impl CheckerConfiguration {
    /// A configuration with the built-in message template.
    pub fn new(checker_type: CheckerType) -> (r: Self)
        ensures
            r.checker_type == checker_type,
            r.error_template is None,
    {
        CheckerConfiguration { checker_type, error_template: None }
    }

    /// The ledger / ignore-rule name of this checker.
    pub fn checker_name(&self) -> (r: String)
        ensures
            r@ == spec_checker_name(self.checker_type),
    {
        match self.checker_type {
            CheckerType::Dependency => String::from_str("dependency"),
            CheckerType::Privacy => String::from_str("privacy"),
            CheckerType::FolderPrivacy => String::from_str("folder_privacy"),
            CheckerType::Visibility => String::from_str("visibility"),
            CheckerType::Layer => String::from_str("layer"),
        }
    }

    /// The capitalised name of this checker, for rendered messages.
    pub fn pretty_checker_name(&self) -> (r: String)
        ensures
            r@ == spec_pretty_checker_name(self.checker_type),
    {
        match self.checker_type {
            CheckerType::Dependency => String::from_str("Dependency"),
            CheckerType::Privacy => String::from_str("Privacy"),
            CheckerType::FolderPrivacy => String::from_str("Folder Privacy"),
            CheckerType::Visibility => String::from_str("Visibility"),
            CheckerType::Layer => String::from_str("Layer"),
        }
    }
}

} // verus!
