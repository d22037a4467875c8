//! Creating a new pack: the decision whether the pack already exists, and
//! the exact file contents the scaffolding collaborator writes.

use vstd::prelude::*;

use crate::configuration::Configuration;
use crate::pack_set::spec_for_pack;

verus! {

/// The outcome of a create request.
#[derive(Debug, PartialEq, Eq, Structural)]
pub enum CreateResult {
    Success,
    AlreadyExists,
}

/// The manifest contents of a freshly created pack.
pub open spec fn spec_new_package_yml() -> Seq<char> {
    "enforce_dependencies: true\nenforce_privacy: true\nenforce_layers: true"@
}

/// The manifest a freshly created pack starts with.
pub fn new_package_yml_contents() -> (r: String)
    ensures
        r@ == spec_new_package_yml(),
{
    String::from_str("enforce_dependencies: true\nenforce_privacy: true\nenforce_layers: true")
}

/// The placeholder README of a freshly created pack.
pub open spec fn spec_readme(pack_name: Seq<char>) -> Seq<char> {
    "Welcome to `"@ + pack_name
        + "`!\n\nIf you're the author, please consider replacing this file with a README.md, which may contain:\n- What your pack is and does\n- How you expect people to use your pack\n- Example usage of your pack's public API and where to find it\n- Limitations, risks, and important considerations of usage\n- How to get in touch with eng and other stakeholders for questions or issues pertaining to this pack\n- What SLAs/SLOs (service level agreements/objectives), if any, your package provides\n- When in doubt, keep it simple\n- Anything else you may want to include!\n\nREADME.md should change as your public API changes.\n\nSee https://github.com/rubyatscale/pks#readme for more info!"@
}

/// Build the placeholder README of a new pack.
pub fn readme(pack_name: &str) -> (r: String)
    ensures
        r@ == spec_readme(pack_name@),
{
    let mut s = String::from_str("Welcome to `");
    s.append(pack_name);
    s.append(
        "`!\n\nIf you're the author, please consider replacing this file with a README.md, which may contain:\n- What your pack is and does\n- How you expect people to use your pack\n- Example usage of your pack's public API and where to find it\n- Limitations, risks, and important considerations of usage\n- How to get in touch with eng and other stakeholders for questions or issues pertaining to this pack\n- What SLAs/SLOs (service level agreements/objectives), if any, your package provides\n- When in doubt, keep it simple\n- Anything else you may want to include!\n\nREADME.md should change as your public API changes.\n\nSee https://github.com/rubyatscale/pks#readme for more info!",
    );
    proof {
        assert(s@ =~= spec_readme(pack_name@));
    }
    s
}

/// Decides a create request: a pack of that name must not already exist.
/// The scaffolding collaborator writes the manifest and directories on
/// `Success`.
pub fn create(configuration: &Configuration, name: &str) -> (r: CreateResult)
    ensures
        r == CreateResult::AlreadyExists <==> spec_for_pack(
            configuration.pack_set.packs@,
            name@,
        ) is Some,
{
    match configuration.pack_set.for_pack(name) {
        Ok(_) => CreateResult::AlreadyExists,
        Err(_) => CreateResult::Success,
    }
}

} // verus!