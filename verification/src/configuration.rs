//! The per-run configuration: the pack set, the five checker
//! configurations, run-wide checker disables, the global layer order, and
//! run flags.

use vstd::prelude::*;

use crate::checker_types::{CheckerConfiguration, CheckerType};
use crate::pack_set::PackSet;

verus! {

/// Everything one run needs to evaluate references.
#[derive(Debug)]
pub struct Configuration {
    pub pack_set: PackSet,
    pub checker_configuration: Vec<CheckerConfiguration>,
    pub disable_enforce_dependencies: bool,
    pub disable_enforce_privacy: bool,
    pub disable_enforce_folder_privacy: bool,
    pub disable_enforce_layers: bool,
    pub disable_enforce_visibility: bool,
    /// The global layer order, lowest layer first; a pack in a later layer
    /// may not be referenced from a pack in an earlier one.
    pub layers: Vec<String>,
    pub packs_first_mode: bool,
    /// When set, ledger-recorded violations are reported anyway.
    pub ignore_recorded_violations: bool,
}

impl Default for Configuration {
    /// An empty pack set, the five default checker configurations, nothing
    /// disabled, no layers.
    fn default() -> (r: Self)
        ensures
            r.pack_set.packs@.len() == 0,
            r.checker_configuration@.len() == 5,
            r.checker_configuration@[0].checker_type == CheckerType::Dependency,
            r.checker_configuration@[1].checker_type == CheckerType::Privacy,
            r.checker_configuration@[2].checker_type == CheckerType::FolderPrivacy,
            r.checker_configuration@[3].checker_type == CheckerType::Visibility,
            r.checker_configuration@[4].checker_type == CheckerType::Layer,
            forall|i: int|
                0 <= i < 5 ==> (#[trigger] r.checker_configuration@[i]).error_template is None,
            !r.disable_enforce_dependencies,
            !r.disable_enforce_privacy,
            !r.disable_enforce_folder_privacy,
            !r.disable_enforce_layers,
            !r.disable_enforce_visibility,
            r.layers@.len() == 0,
            !r.packs_first_mode,
            !r.ignore_recorded_violations,
    {
        let mut checker_configuration: Vec<CheckerConfiguration> = Vec::new();
        checker_configuration.push(CheckerConfiguration::new(CheckerType::Dependency));
        checker_configuration.push(CheckerConfiguration::new(CheckerType::Privacy));
        checker_configuration.push(CheckerConfiguration::new(CheckerType::FolderPrivacy));
        checker_configuration.push(CheckerConfiguration::new(CheckerType::Visibility));
        checker_configuration.push(CheckerConfiguration::new(CheckerType::Layer));
        Configuration {
            pack_set: PackSet { packs: Vec::new(), owning_package_yml_for_file: Vec::new() },
            checker_configuration,
            disable_enforce_dependencies: false,
            disable_enforce_privacy: false,
            disable_enforce_folder_privacy: false,
            disable_enforce_layers: false,
            disable_enforce_visibility: false,
            layers: Vec::new(),
            packs_first_mode: false,
            ignore_recorded_violations: false,
        }
    }
}

/// The user template for checker `t`, if one was configured: taken from the
/// first checker configuration of that type.
pub open spec fn spec_template_for(
    cc: Seq<CheckerConfiguration>,
    t: CheckerType,
) -> Option<Seq<char>>
    decreases cc.len(),
{
    if cc.len() == 0 {
        None
    } else if cc[0].checker_type == t {
        crate::pack::opt_view(cc[0].error_template)
    } else {
        spec_template_for(cc.skip(1), t)
    }
}

impl Configuration {
    /// The configured message template for checker `t`, if any.
    pub fn template_for(&self, t: CheckerType) -> (r: Option<String>)
        ensures
            crate::pack::opt_view(r) == spec_template_for(self.checker_configuration@, t),
    {
        let ghost cc = self.checker_configuration@;
        let mut i: usize = 0;
        proof {
            assert(cc.skip(0) =~= cc);
        }
        while i < self.checker_configuration.len()
            invariant
                i <= cc.len(),
                cc == self.checker_configuration@,
                spec_template_for(cc, t) == spec_template_for(cc.skip(i as int), t),
            decreases cc.len() - i,
        {
            let ghost rest = cc.skip(i as int);
            proof {
                assert(rest[0] == cc[i as int]);
                assert(rest.skip(1) =~= cc.skip(i + 1));
            }
            let c = &self.checker_configuration[i];
            let mut same = false;
            match (c.checker_type, t) {
                (CheckerType::Dependency, CheckerType::Dependency) => {
                    same = true;
                },
                (CheckerType::Privacy, CheckerType::Privacy) => {
                    same = true;
                },
                (CheckerType::FolderPrivacy, CheckerType::FolderPrivacy) => {
                    same = true;
                },
                (CheckerType::Visibility, CheckerType::Visibility) => {
                    same = true;
                },
                (CheckerType::Layer, CheckerType::Layer) => {
                    same = true;
                },
                _ => {},
            }
            if same {
                match &c.error_template {
                    Some(s) => {
                        return Some(s.clone());
                    },
                    None => {
                        return None;
                    },
                }
            }
            i = i + 1;
        }
        None
    }
}

} // verus!
