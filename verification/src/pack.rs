//! The pack model: one named boundary unit with its declared policy —
//! dependencies, enforcement levels, layer, visibility allow-list, and
//! per-checker ignore rules.

use vstd::prelude::*;

use crate::checker_types::{CheckerSetting, CheckerType};
use crate::globs::glob_match;
use crate::package_todo::PackageTodo;
use crate::strutil;

verus! {

/// Glob patterns exempting files from one checker when this pack owns the
/// rules for the check.
#[derive(Debug)]
pub struct IgnoreRules {
    pub checker_type: CheckerType,
    pub globs: Vec<String>,
}

impl Clone for IgnoreRules {
    fn clone(&self) -> (res: Self)
        ensures
            res.checker_type == self.checker_type,
            res.globs.deep_view() == self.globs.deep_view(),
    {
        let globs = self.globs.clone();
        proof {
            broadcast use vstd::std_specs::vec::vec_clone_deep_view_proof;

        }
        IgnoreRules { checker_type: self.checker_type, globs }
    }
}

/// One boundary unit and its declared policy. `"."` names the implicit root
/// pack. Values are immutable after construction; `add_dependency` produces
/// a new value.
#[derive(Debug)]
pub struct Pack {
    pub name: String,
    pub relative_path: String,
    pub dependencies: Vec<String>,
    pub enforce_dependencies: Option<CheckerSetting>,
    pub enforce_privacy: Option<CheckerSetting>,
    pub enforce_folder_privacy: Option<CheckerSetting>,
    pub enforce_layers: Option<CheckerSetting>,
    pub enforce_visibility: Option<CheckerSetting>,
    pub layer: Option<String>,
    pub visible_to: Vec<String>,
    pub public_folder: Option<String>,
    pub ignores: Vec<IgnoreRules>,
    /// The recorded ledger of violations this pack causes, as loaded from
    /// its `package_todo.yml` by the persistence collaborator.
    pub package_todo: PackageTodo,
}

/// An optional string, viewed as an optional character sequence.
pub open spec fn opt_view(o: Option<String>) -> Option<Seq<char>> {
    match o {
        Some(s) => Some(s@),
        None => None,
    }
}

/// The ghost image of a pack's ignore rules.
pub open spec fn ignores_view(v: Seq<IgnoreRules>) -> Seq<(CheckerType, Seq<Seq<char>>)> {
    v.map_values(|r: IgnoreRules| (r.checker_type, r.globs.deep_view()))
}

/// Two packs carry the same data.
pub open spec fn pack_equiv(a: Pack, b: Pack) -> bool {
    a.name@ == b.name@ && a.relative_path@ == b.relative_path@ && a.dependencies.deep_view()
        == b.dependencies.deep_view() && a.enforce_dependencies == b.enforce_dependencies
        && a.enforce_privacy == b.enforce_privacy && a.enforce_folder_privacy
        == b.enforce_folder_privacy && a.enforce_layers == b.enforce_layers
        && a.enforce_visibility == b.enforce_visibility && opt_view(a.layer) == opt_view(b.layer)
        && a.visible_to.deep_view() == b.visible_to.deep_view() && opt_view(a.public_folder)
        == opt_view(b.public_folder) && ignores_view(a.ignores@) == ignores_view(b.ignores@)
        && a.package_todo@ == b.package_todo@
}

impl Clone for Pack {
    fn clone(&self) -> (res: Self)
        ensures
            pack_equiv(res, *self),
    {
        let ignores_c = {
            let mut acc: Vec<IgnoreRules> = Vec::new();
            let mut k: usize = 0;
            while k < self.ignores.len()
                invariant
                    k <= self.ignores@.len(),
                    acc@.len() == k,
                    forall|j: int|
                        0 <= j < k ==> (#[trigger] acc@[j]).checker_type
                            == self.ignores@[j].checker_type && acc@[j].globs.deep_view()
                            == self.ignores@[j].globs.deep_view(),
                decreases self.ignores@.len() - k,
            {
                acc.push(self.ignores[k].clone());
                k = k + 1;
            }
            acc
        };
        let res = Pack {
            name: self.name.clone(),
            relative_path: self.relative_path.clone(),
            dependencies: self.dependencies.clone(),
            enforce_dependencies: self.enforce_dependencies,
            enforce_privacy: self.enforce_privacy,
            enforce_folder_privacy: self.enforce_folder_privacy,
            enforce_layers: self.enforce_layers,
            enforce_visibility: self.enforce_visibility,
            layer: match &self.layer {
                Some(l) => Some(l.clone()),
                None => None,
            },
            visible_to: self.visible_to.clone(),
            public_folder: match &self.public_folder {
                Some(p) => Some(p.clone()),
                None => None,
            },
            ignores: ignores_c,
            package_todo: self.package_todo.clone(),
        };
        proof {
            broadcast use vstd::std_specs::vec::vec_clone_deep_view_proof;

            assert(ignores_view(res.ignores@) =~= ignores_view(self.ignores@));
        }
        res
    }
}

impl Default for Pack {
    /// A pack with empty name and path, no dependencies and nothing enforced.
    fn default() -> (r: Self)
        ensures
            r.name@ == Seq::<char>::empty(),
            r.relative_path@ == Seq::<char>::empty(),
            r.dependencies@.len() == 0,
            r.enforce_dependencies is None,
            r.enforce_privacy is None,
            r.enforce_folder_privacy is None,
            r.enforce_layers is None,
            r.enforce_visibility is None,
            r.layer is None,
            r.visible_to@.len() == 0,
            r.public_folder is None,
            r.ignores@.len() == 0,
            r.package_todo@.len() == 0,
    {
        Pack {
            name: String::new(),
            relative_path: String::new(),
            dependencies: Vec::new(),
            enforce_dependencies: None,
            enforce_privacy: None,
            enforce_folder_privacy: None,
            enforce_layers: None,
            enforce_visibility: None,
            layer: None,
            visible_to: Vec::new(),
            public_folder: None,
            ignores: Vec::new(),
            package_todo: PackageTodo::default(),
        }
    }
}

/// The pack's manifest path relative to the project root.
pub open spec fn spec_relative_yml(p: Pack) -> Seq<char> {
    if p.relative_path@ =~= Seq::<char>::empty() || p.relative_path@ =~= "."@ {
        "package.yml"@
    } else {
        p.relative_path@ + "/package.yml"@
    }
}

/// The pack's enforcement level for one checker type, `None` meaning the
/// manifest does not mention it (which defaults to disabled).
pub open spec fn spec_enforcement_for(p: Pack, t: CheckerType) -> Option<CheckerSetting> {
    match t {
        CheckerType::Dependency => p.enforce_dependencies,
        CheckerType::Privacy => p.enforce_privacy,
        CheckerType::FolderPrivacy => p.enforce_folder_privacy,
        CheckerType::Layer => p.enforce_layers,
        CheckerType::Visibility => p.enforce_visibility,
    }
}

/// Whether the pack's ignore rules for checker `t` exempt `file`.
pub open spec fn spec_is_ignored(p: Pack, t: CheckerType, file: Seq<char>) -> bool {
    exists|k: int|
        0 <= k < p.ignores@.len() && (#[trigger] p.ignores@[k]).checker_type == t && (exists|
            m: int,
        |
            0 <= m < p.ignores@[k].globs.deep_view().len() && glob_match(
                #[trigger] p.ignores@[k].globs.deep_view()[m],
                file,
            ))
}

impl Pack {
    /// The manifest path of this pack, relative to the project root.
    pub fn relative_yml(&self) -> (r: String)
        ensures
            r@ == spec_relative_yml(*self),
    {
        let rp = strutil::str_to_chars(self.relative_path.as_str());
        let dot = strutil::str_to_chars(".");
        if rp.len() == 0 || strutil::chars_eq(&rp, &dot) {
            proof {
                if rp@.len() == 0 {
                    assert(self.relative_path@ =~= Seq::<char>::empty());
                }
            }
            String::from_str("package.yml")
        } else {
            let mut r = self.relative_path.clone();
            r.append("/package.yml");
            r
        }
    }

    /// The enforcement level this pack declares for checker `t`.
    pub fn enforcement_for(&self, t: CheckerType) -> (r: Option<CheckerSetting>)
        ensures
            r == spec_enforcement_for(*self, t),
    {
        match t {
            CheckerType::Dependency => self.enforce_dependencies,
            CheckerType::Privacy => self.enforce_privacy,
            CheckerType::FolderPrivacy => self.enforce_folder_privacy,
            CheckerType::Layer => self.enforce_layers,
            CheckerType::Visibility => self.enforce_visibility,
        }
    }

    /// Whether this pack's ignore rules for checker `t` exempt `file`.
    pub fn is_ignored(&self, file: &str, t: CheckerType) -> (r: bool)
        ensures
            r == spec_is_ignored(*self, t, file@),
    {
        let mut k: usize = 0;
        while k < self.ignores.len()
            invariant
                k <= self.ignores@.len(),
                forall|j: int|
                    0 <= j < k ==> !((#[trigger] self.ignores@[j]).checker_type == t
                        && (exists|m: int|
                        0 <= m < self.ignores@[j].globs.deep_view().len() && glob_match(
                            #[trigger] self.ignores@[j].globs.deep_view()[m],
                            file@,
                        ))),
            decreases self.ignores@.len() - k,
        {
            let rule = &self.ignores[k];
            let mut same = false;
            match (rule.checker_type, t) {
                (CheckerType::Dependency, CheckerType::Dependency) => {
                    same = true;
                },
                (CheckerType::Privacy, CheckerType::Privacy) => {
                    same = true;
                },
                (CheckerType::FolderPrivacy, CheckerType::FolderPrivacy) => {
                    same = true;
                },
                (CheckerType::Visibility, CheckerType::Visibility) => {
                    same = true;
                },
                (CheckerType::Layer, CheckerType::Layer) => {
                    same = true;
                },
                _ => {},
            }
            if same {
                if crate::globs::any_glob_matches(&rule.globs, file) {
                    return true;
                }
            }
            k = k + 1;
        }
        false
    }

    /// Whether `dep` is in this pack's declared dependency set.
    pub fn has_dependency(&self, dep: &str) -> (r: bool)
        ensures
            r == self.dependencies.deep_view().contains(dep@),
    {
        let mut k: usize = 0;
        while k < self.dependencies.len()
            invariant
                k <= self.dependencies@.len(),
                forall|j: int|
                    0 <= j < k ==> #[trigger] self.dependencies.deep_view()[j] != dep@,
            decreases self.dependencies@.len() - k,
        {
            let a = strutil::str_to_chars(self.dependencies[k].as_str());
            let b = strutil::str_to_chars(dep);
            if strutil::chars_eq(&a, &b) {
                proof {
                    assert(self.dependencies.deep_view()[k as int] == dep@);
                }
                return true;
            }
            k = k + 1;
        }
        false
    }

    /// A copy of this pack that additionally declares `to` as a dependency.
    pub fn add_dependency(&self, to: &Pack) -> (r: Pack)
        ensures
            r.name@ == self.name@,
            r.relative_path@ == self.relative_path@,
            r.dependencies.deep_view() == self.dependencies.deep_view().push(to.name@),
            r.enforce_dependencies == self.enforce_dependencies,
            r.enforce_privacy == self.enforce_privacy,
            r.enforce_folder_privacy == self.enforce_folder_privacy,
            r.enforce_layers == self.enforce_layers,
            r.enforce_visibility == self.enforce_visibility,
            opt_view(r.layer) == opt_view(self.layer),
            r.visible_to.deep_view() == self.visible_to.deep_view(),
            opt_view(r.public_folder) == opt_view(self.public_folder),
            ignores_view(r.ignores@) == ignores_view(self.ignores@),
            r.package_todo@ == self.package_todo@,
    {
        let mut r = self.clone();
        r.dependencies.push(to.name.clone());
        proof {
            assert(r.dependencies.deep_view() =~= self.dependencies.deep_view().push(to.name@));
        }
        r
    }
}

} // verus!
