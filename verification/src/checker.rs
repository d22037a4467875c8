//! Boundary checking: the checkability conditions shared by the five checkers,
//! the per-type policy, and the construction of violations with their
//! stable identifiers.

use vstd::prelude::*;

use crate::checker_types::{spec_checker_name, CheckerSetting, CheckerType};
use crate::configuration::Configuration;
use crate::pack::{opt_view, spec_enforcement_for, spec_is_ignored, spec_relative_yml, Pack};
use crate::pack_set::{path_owns, spec_for_pack};
use crate::processed_file::SourceLocation;
use crate::reference::Reference;
use crate::strutil;

verus! {

/// The stable identity of a violation, independent of message text; the
/// join key against the recorded ledger.
#[derive(Debug, PartialEq, Eq)]
pub struct ViolationIdentifier {
    pub violation_type: CheckerType,
    pub strict: bool,
    pub file: String,
    pub constant_name: String,
    pub referencing_pack_name: String,
    pub defining_pack_name: String,
}

/// The ghost image of a violation identifier.
pub struct IdView {
    pub violation_type: CheckerType,
    pub strict: bool,
    pub file: Seq<char>,
    pub constant_name: Seq<char>,
    pub referencing_pack_name: Seq<char>,
    pub defining_pack_name: Seq<char>,
}

impl View for ViolationIdentifier {
    type V = IdView;

    open spec fn view(&self) -> IdView {
        IdView {
            violation_type: self.violation_type,
            strict: self.strict,
            file: self.file@,
            constant_name: self.constant_name@,
            referencing_pack_name: self.referencing_pack_name@,
            defining_pack_name: self.defining_pack_name@,
        }
    }
}

impl Clone for ViolationIdentifier {
    fn clone(&self) -> (res: Self)
        ensures
            res@ == self@,
    {
        ViolationIdentifier {
            violation_type: self.violation_type,
            strict: self.strict,
            file: self.file.clone(),
            constant_name: self.constant_name.clone(),
            referencing_pack_name: self.referencing_pack_name.clone(),
            defining_pack_name: self.defining_pack_name.clone(),
        }
    }
}

/// One detected violation: its identifier, where it occurred, the
/// referencing pack's manifest path, and (layer checks only) both layer
/// names.
#[derive(Debug, PartialEq, Eq)]
pub struct Violation {
    pub identifier: ViolationIdentifier,
    pub source_location: SourceLocation,
    pub referencing_pack_relative_yml: String,
    pub defining_layer: Option<String>,
    pub referencing_layer: Option<String>,
}

/// The ghost image of a violation.
pub struct ViolationView {
    pub identifier: IdView,
    pub source_location: SourceLocation,
    pub referencing_pack_relative_yml: Seq<char>,
    pub defining_layer: Option<Seq<char>>,
    pub referencing_layer: Option<Seq<char>>,
}

impl View for Violation {
    type V = ViolationView;

    open spec fn view(&self) -> ViolationView {
        ViolationView {
            identifier: self.identifier@,
            source_location: self.source_location,
            referencing_pack_relative_yml: self.referencing_pack_relative_yml@,
            defining_layer: opt_view(self.defining_layer),
            referencing_layer: opt_view(self.referencing_layer),
        }
    }
}

impl Clone for Violation {
    fn clone(&self) -> (res: Self)
        ensures
            res@ == self@,
    {
        Violation {
            identifier: self.identifier.clone(),
            source_location: self.source_location,
            referencing_pack_relative_yml: self.referencing_pack_relative_yml.clone(),
            defining_layer: match &self.defining_layer {
                Some(s) => Some(s.clone()),
                None => None,
            },
            referencing_layer: match &self.referencing_layer {
                Some(s) => Some(s.clone()),
                None => None,
            },
        }
    }
}

/// Dependency and Layer look outward from the referencing pack; the other
/// checkers look inward at the defining pack.
pub open spec fn is_outgoing(t: CheckerType) -> bool {
    t == CheckerType::Dependency || t == CheckerType::Layer
}

/// The pack that owns the referencing file, by name lookup.
pub open spec fn ref_referencing_pack(config: Configuration, r: Reference) -> Option<Pack> {
    spec_for_pack(config.pack_set.packs@, r.referencing_pack_name@)
}

/// The pack that owns the defining file, if the reference was resolved.
pub open spec fn ref_defining_pack(config: Configuration, r: Reference) -> Option<Pack> {
    match r.defining_pack_name {
        Some(n) => spec_for_pack(config.pack_set.packs@, n@),
        None => None,
    }
}

/// Every pack name the reference mentions resolves to a pack.
pub open spec fn spec_lookup_ok(config: Configuration, r: Reference) -> bool {
    ref_referencing_pack(config, r) is Some && (r.defining_pack_name is Some
        ==> ref_defining_pack(config, r) is Some)
}

/// The pack whose declared rules govern checker `t` for this reference.
pub open spec fn spec_rules_pack(config: Configuration, t: CheckerType, r: Reference) -> Pack {
    if is_outgoing(t) {
        ref_referencing_pack(config, r)->0
    } else {
        ref_defining_pack(config, r)->0
    }
}

/// The rule-owning pack's enforcement level, absence meaning disabled.
pub open spec fn spec_setting(config: Configuration, t: CheckerType, r: Reference) -> CheckerSetting {
    match spec_enforcement_for(spec_rules_pack(config, t, r), t) {
        Some(s) => s,
        None => CheckerSetting::False,
    }
}

/// The run-wide disable switch for checker `t`.
pub open spec fn spec_globally_disabled(config: Configuration, t: CheckerType) -> bool {
    match t {
        CheckerType::Dependency => config.disable_enforce_dependencies,
        CheckerType::Privacy => config.disable_enforce_privacy,
        CheckerType::FolderPrivacy => config.disable_enforce_folder_privacy,
        CheckerType::Layer => config.disable_enforce_layers,
        CheckerType::Visibility => config.disable_enforce_visibility,
    }
}

/// The file the rule-owning pack's ignore rules are matched against: the
/// defining file for outgoing checks, the referencing file for incoming
/// ones.
pub open spec fn spec_relevant_file(t: CheckerType, r: Reference) -> Option<Seq<char>> {
    if is_outgoing(t) {
        opt_view(r.relative_defining_file)
    } else {
        Some(r.relative_referencing_file@)
    }
}

/// Whether the rule-owning pack's ignore rules exempt this reference.
pub open spec fn spec_gate_ignored(config: Configuration, t: CheckerType, r: Reference) -> bool {
    match spec_relevant_file(t, r) {
        Some(f) => spec_is_ignored(spec_rules_pack(config, t, r), t, f),
        None => false,
    }
}

/// The checkability test: a violation is possible only when the defining
/// pack is resolved and differs from the referencing pack, the rule-owning
/// pack enforces the checker, the checker is not disabled run-wide, and the
/// relevant file is not exempted.
pub open spec fn spec_checkable(config: Configuration, t: CheckerType, r: Reference) -> bool {
    &&& ref_defining_pack(config, r) is Some
    &&& (ref_defining_pack(config, r)->0).name@ != (ref_referencing_pack(config, r)->0).name@
    &&& spec_setting(config, t, r) != CheckerSetting::False
    &&& !spec_globally_disabled(config, t)
    &&& !spec_gate_ignored(config, t, r)
}

/// The enforcement is strict: the ledger may not suppress the violation.
pub open spec fn spec_is_strict(config: Configuration, t: CheckerType, r: Reference) -> bool {
    spec_setting(config, t, r) == CheckerSetting::Strict
}

/// The directory of the pack's public files: as configured, or
/// `<pack>/app/public` by default.
pub open spec fn spec_public_folder(p: Pack) -> Seq<char> {
    match opt_view(p.public_folder) {
        Some(f) => f,
        None => p.relative_path@ + "/app/public"@,
    }
}

/// The index of the last `/` in `p`, or `-1`.
pub open spec fn last_slash(p: Seq<char>) -> int
    decreases p.len(),
{
    if p.len() == 0 {
        -1
    } else if p[p.len() - 1] == '/' {
        p.len() - 1
    } else {
        last_slash(p.take(p.len() - 1))
    }
}

/// The directory part of a path, empty when the path has no `/`.
pub open spec fn parent_dir(p: Seq<char>) -> Seq<char> {
    if last_slash(p) < 0 {
        Seq::empty()
    } else {
        p.take(last_slash(p))
    }
}

/// The position of `l` in the global layer order, `-1` when unknown.
pub open spec fn spec_layer_index(layers: Seq<Seq<char>>, l: Seq<char>) -> int
    decreases layers.len(),
{
    if layers.len() == 0 {
        -1
    } else if layers[0] == l {
        0
    } else {
        let r = spec_layer_index(layers.skip(1), l);
        if r < 0 {
            -1
        } else {
            r + 1
        }
    }
}

/// The policy of each checker type, evaluated once the reference is checkable.
pub open spec fn spec_policy_violated(config: Configuration, t: CheckerType, r: Reference) -> bool {
    let refg = ref_referencing_pack(config, r)->0;
    let def = ref_defining_pack(config, r)->0;
    match t {
        CheckerType::Dependency => !refg.dependencies.deep_view().contains(def.name@),
        CheckerType::Privacy => match opt_view(r.relative_defining_file) {
            Some(f) => !path_owns(spec_public_folder(def), f),
            None => true,
        },
        CheckerType::FolderPrivacy => parent_dir(def.relative_path@) != parent_dir(
            refg.relative_path@,
        ),
        CheckerType::Visibility => !def.visible_to.deep_view().contains(refg.name@),
        CheckerType::Layer => match (opt_view(def.layer), opt_view(refg.layer)) {
            (Some(dl), Some(rl)) => {
                let di = spec_layer_index(config.layers.deep_view(), dl);
                let ri = spec_layer_index(config.layers.deep_view(), rl);
                di >= 0 && ri >= 0 && di > ri
            },
            _ => false,
        },
    }
}

/// Checker `t` reports this reference: the reference is checkable and the
/// policy is violated.
pub open spec fn spec_reports(config: Configuration, t: CheckerType, r: Reference) -> bool {
    spec_checkable(config, t, r) && spec_policy_violated(config, t, r)
}

/// The identifier the violation would carry.
pub open spec fn spec_identifier(config: Configuration, t: CheckerType, r: Reference) -> IdView {
    IdView {
        violation_type: t,
        strict: spec_is_strict(config, t, r),
        file: r.relative_referencing_file@,
        constant_name: r.constant_name@,
        referencing_pack_name: (ref_referencing_pack(config, r)->0).name@,
        defining_pack_name: (ref_defining_pack(config, r)->0).name@,
    }
}

/// The full violation the checker would construct.
pub open spec fn spec_violation_of(config: Configuration, t: CheckerType, r: Reference) -> ViolationView {
    let refg = ref_referencing_pack(config, r)->0;
    let def = ref_defining_pack(config, r)->0;
    ViolationView {
        identifier: spec_identifier(config, t, r),
        source_location: r.source_location,
        referencing_pack_relative_yml: spec_relative_yml(refg),
        defining_layer: if t == CheckerType::Layer {
            opt_view(def.layer)
        } else {
            None
        },
        referencing_layer: if t == CheckerType::Layer {
            opt_view(refg.layer)
        } else {
            None
        },
    }
}

fn path_owns_exec(rel: &str, file: &str) -> (r: bool)
    ensures
        r == path_owns(rel@, file@),
{
    let rv = strutil::str_to_chars(rel);
    let fv = strutil::str_to_chars(file);
    if rv.len() < fv.len() {
        if strutil::chars_starts_with(&fv, &rv) {
            fv[rv.len()] == '/'
        } else {
            false
        }
    } else {
        false
    }
}

fn layer_index_exec(layers: &Vec<String>, l: &str) -> (r: Option<usize>)
    ensures
        match r {
            Some(i) => i as int == spec_layer_index(layers.deep_view(), l@) && i < layers@.len(),
            None => spec_layer_index(layers.deep_view(), l@) < 0,
        },
{
    let ghost lv = layers.deep_view();
    let mut i: usize = 0;
    proof {
        assert(lv.skip(0) =~= lv);
    }
    while i < layers.len()
        invariant
            i <= lv.len(),
            lv == layers.deep_view(),
            spec_layer_index(lv, l@) == (if spec_layer_index(lv.skip(i as int), l@) < 0 {
                -1int
            } else {
                spec_layer_index(lv.skip(i as int), l@) + i
            }),
        decreases lv.len() - i,
    {
        let ghost rest = lv.skip(i as int);
        proof {
            assert(rest[0] == lv[i as int]);
            assert(rest.skip(1) =~= lv.skip(i + 1));
        }
        if strutil::str_eq(layers[i].as_str(), l) {
            proof {
                assert(rest[0] == l@);
            }
            return Some(i);
        }
        i = i + 1;
    }
    proof {
        assert(lv.skip(i as int).len() == 0);
    }
    None
}

/// The checkability and policy state for one reference under one checker type,
/// borrowed from the configuration for the duration of the check.
pub struct PackChecker<'a> {
    pub configuration: &'a Configuration,
    pub checker_type: CheckerType,
    pub referencing_pack: &'a Pack,
    pub defining_pack: Option<&'a Pack>,
    pub reference: &'a Reference,
}

/// The checker's borrowed packs are exactly what its reference's pack
/// names resolve to.
pub open spec fn pc_wf(pc: PackChecker) -> bool {
    &&& ref_referencing_pack(*pc.configuration, *pc.reference) == Some(*pc.referencing_pack)
    &&& (match pc.defining_pack {
        Some(p) => ref_defining_pack(*pc.configuration, *pc.reference) == Some(*p),
        None => ref_defining_pack(*pc.configuration, *pc.reference) is None,
    })
}

impl<'a> PackChecker<'a> {
    /// Resolves the reference's pack names; an unresolvable name is a
    /// configuration error.
    pub fn new(
        configuration: &'a Configuration,
        checker_type: CheckerType,
        reference: &'a Reference,
    ) -> (r: Result<Self, String>)
        ensures
            r is Ok <==> spec_lookup_ok(*configuration, *reference),
            r matches Ok(pc) ==> pc_wf(pc) && pc.configuration == configuration
                && pc.checker_type == checker_type && pc.reference == reference,
    {
        let referencing_pack = match configuration.pack_set.for_pack(
            reference.referencing_pack_name.as_str(),
        ) {
            Ok(p) => p,
            Err(_) => {
                return Err(String::from_str("referencing pack not found"));
            },
        };
        let defining_pack = match &reference.defining_pack_name {
            Some(n) => match configuration.pack_set.for_pack(n.as_str()) {
                Ok(p) => Some(p),
                Err(_) => {
                    return Err(String::from_str("defining pack not found"));
                },
            },
            None => None,
        };
        Ok(PackChecker { configuration, checker_type, referencing_pack, defining_pack, reference })
    }

    /// The checkability test of this reference for this checker.
    pub fn checkable(&self) -> (r: bool)
        requires
            pc_wf(*self),
        ensures
            r == spec_checkable(*self.configuration, self.checker_type, *self.reference),
    {
        let defining_pack = match self.defining_pack {
            Some(p) => p,
            None => {
                return false;
            },
        };
        if strutil::str_eq(defining_pack.name.as_str(), self.referencing_pack.name.as_str()) {
            return false;
        }
        if match self.rules_pack().enforcement_for(self.checker_type) {
            Some(s) => s.is_false(),
            None => true,
        } {
            return false;
        }
        if self.violation_globally_disabled() {
            return false;
        }
        if self.is_ignored() {
            return false;
        }
        true
    }

    /// The rule-owning pack enforces this checker strictly.
    pub fn is_strict(&self) -> (r: bool)
        requires
            pc_wf(*self),
            spec_checkable(*self.configuration, self.checker_type, *self.reference)
                || self.defining_pack is Some,
        ensures
            r == spec_is_strict(*self.configuration, self.checker_type, *self.reference),
    {
        match self.rules_pack().enforcement_for(self.checker_type) {
            Some(s) => s.is_strict(),
            None => false,
        }
    }

    fn rules_pack(&self) -> (r: &Pack)
        requires
            pc_wf(*self),
            self.defining_pack is Some,
        ensures
            *r == spec_rules_pack(*self.configuration, self.checker_type, *self.reference),
    {
        match self.checker_type {
            CheckerType::Dependency | CheckerType::Layer => self.referencing_pack,
            CheckerType::Privacy | CheckerType::FolderPrivacy | CheckerType::Visibility => {
                match self.defining_pack {
                    Some(p) => p,
                    None => self.referencing_pack,
                }
            },
        }
    }

    fn violation_globally_disabled(&self) -> (r: bool)
        ensures
            r == spec_globally_disabled(*self.configuration, self.checker_type),
    {
        match self.checker_type {
            CheckerType::Dependency => self.configuration.disable_enforce_dependencies,
            CheckerType::Privacy => self.configuration.disable_enforce_privacy,
            CheckerType::FolderPrivacy => self.configuration.disable_enforce_folder_privacy,
            CheckerType::Layer => self.configuration.disable_enforce_layers,
            CheckerType::Visibility => self.configuration.disable_enforce_visibility,
        }
    }

    fn is_ignored(&self) -> (r: bool)
        requires
            pc_wf(*self),
            self.defining_pack is Some,
        ensures
            r == spec_gate_ignored(*self.configuration, self.checker_type, *self.reference),
    {
        let outgoing = match self.checker_type {
            CheckerType::Dependency | CheckerType::Layer => true,
            _ => false,
        };
        let rules = self.rules_pack();
        if outgoing {
            match &self.reference.relative_defining_file {
                Some(f) => rules.is_ignored(f.as_str(), self.checker_type),
                None => false,
            }
        } else {
            rules.is_ignored(self.reference.relative_referencing_file.as_str(), self.checker_type)
        }
    }

    /// The stable identifier of the violation this reference would cause.
    pub fn violation_identifier(&self) -> (r: ViolationIdentifier)
        requires
            pc_wf(*self),
            self.defining_pack is Some,
        ensures
            r@ == spec_identifier(*self.configuration, self.checker_type, *self.reference),
    {
        let defining_pack = match self.defining_pack {
            Some(p) => p,
            None => self.referencing_pack,
        };
        ViolationIdentifier {
            violation_type: self.checker_type,
            strict: self.is_strict(),
            file: self.reference.relative_referencing_file.clone(),
            constant_name: self.reference.constant_name.clone(),
            referencing_pack_name: self.referencing_pack.name.clone(),
            defining_pack_name: defining_pack.name.clone(),
        }
    }

    /// The violation itself, with optional layer names for message context.
    pub fn violation(&self, layer_info: Option<(String, String)>) -> (r: Option<Violation>)
        requires
            pc_wf(*self),
            self.defining_pack is Some,
        ensures
            r matches Some(v) && v@ == (ViolationView {
                identifier: spec_identifier(*self.configuration, self.checker_type, *self.reference),
                source_location: self.reference.source_location,
                referencing_pack_relative_yml: spec_relative_yml(*self.referencing_pack),
                defining_layer: (match layer_info {
                    Some(li) => Some(li.0@),
                    None => None,
                }),
                referencing_layer: (match layer_info {
                    Some(li) => Some(li.1@),
                    None => None,
                }),
            }),
    {
        let (defining_layer, referencing_layer) = match layer_info {
            Some(li) => (Some(li.0), Some(li.1)),
            None => (None, None),
        };
        Some(
            Violation {
                identifier: self.violation_identifier(),
                source_location: self.reference.source_location,
                referencing_pack_relative_yml: self.referencing_pack.relative_yml(),
                defining_layer,
                referencing_layer,
            },
        )
    }
}

/// Runs checker `checker_type` on one reference: `Err` when a pack name
/// does not resolve, `Ok(None)` when the checkability test or the policy lets the
/// reference pass, and `Ok(Some(v))` with the exact violation otherwise.
pub fn check_reference(
    configuration: &Configuration,
    checker_type: CheckerType,
    reference: &Reference,
) -> (r: Result<Option<Violation>, String>)
    ensures
        r is Ok <==> spec_lookup_ok(*configuration, *reference),
        r matches Ok(opt) ==> {
            &&& (opt is Some <==> spec_reports(*configuration, checker_type, *reference))
            &&& (opt matches Some(v) ==> v@ == spec_violation_of(
                *configuration,
                checker_type,
                *reference,
            ))
        },
{
    let pc = match PackChecker::new(configuration, checker_type, reference) {
        Ok(pc) => pc,
        Err(e) => {
            return Err(e);
        },
    };
    if !pc.checkable() {
        return Ok(None);
    }
    let defining_pack = match pc.defining_pack {
        Some(p) => p,
        None => {
            return Ok(None);
        },
    };
    let violated: bool = match checker_type {
        CheckerType::Dependency => !pc.referencing_pack.has_dependency(
            defining_pack.name.as_str(),
        ),
        CheckerType::Privacy => {
            match &reference.relative_defining_file {
                Some(f) => {
                    let public_folder: String = match &defining_pack.public_folder {
                        Some(pf) => pf.clone(),
                        None => {
                            let mut s = defining_pack.relative_path.clone();
                            s.append("/app/public");
                            s
                        },
                    };
                    !path_owns_exec(public_folder.as_str(), f.as_str())
                },
                None => true,
            }
        },
        CheckerType::FolderPrivacy => {
            let dp = parent_dir_exec(defining_pack.relative_path.as_str());
            let rp = parent_dir_exec(pc.referencing_pack.relative_path.as_str());
            !strutil::chars_eq(&dp, &rp)
        },
        CheckerType::Visibility => !strutil::contains_string(
            &defining_pack.visible_to,
            pc.referencing_pack.name.as_str(),
        ),
        CheckerType::Layer => {
            match (&defining_pack.layer, &pc.referencing_pack.layer) {
                (Some(dl), Some(rl)) => {
                    match (
                        layer_index_exec(&configuration.layers, dl.as_str()),
                        layer_index_exec(&configuration.layers, rl.as_str()),
                    ) {
                        (Some(di), Some(ri)) => di > ri,
                        _ => false,
                    }
                },
                _ => false,
            }
        },
    };
    if !violated {
        return Ok(None);
    }
    let layer_info: Option<(String, String)> = match checker_type {
        CheckerType::Layer => {
            match (&defining_pack.layer, &pc.referencing_pack.layer) {
                (Some(dl), Some(rl)) => Some((dl.clone(), rl.clone())),
                _ => None,
            }
        },
        _ => None,
    };
    let v = pc.violation(layer_info);
    Ok(v)
}

/// A reference whose defining pack is the referencing pack itself is never
/// reported, by any checker: the checkability test always refuses a
/// self-reference.
pub proof fn lemma_internal_reference_never_reported(
    config: Configuration,
    r: Reference,
    t: CheckerType,
)
    requires
        r.defining_pack_name matches Some(n) && n@ == r.referencing_pack_name@,
    ensures
        !spec_reports(config, t, r),
{
    let n = r.defining_pack_name->0;
    assert(ref_defining_pack(config, r) == spec_for_pack(config.pack_set.packs@, n@));
    assert(ref_referencing_pack(config, r) == spec_for_pack(
        config.pack_set.packs@,
        r.referencing_pack_name@,
    ));
    assert(n@ == r.referencing_pack_name@);
    if ref_defining_pack(config, r) is Some {
        assert((ref_defining_pack(config, r)->0).name@ == (ref_referencing_pack(
            config,
            r,
        )->0).name@);
        assert(!spec_checkable(config, t, r));
    }
}

/// Disabling one checker globally suppresses exactly that checker's
/// violations: under the disabled configuration the checker reports
/// nothing, and every other checker reports exactly what it reported
/// before, for any reference.
pub proof fn lemma_global_disable_suppresses_exactly(
    c1: Configuration,
    c2: Configuration,
    t: CheckerType,
    r: Reference,
    t2: CheckerType,
)
    requires
        c2.pack_set == c1.pack_set,
        c2.layers == c1.layers,
        spec_globally_disabled(c2, t),
        forall|u: CheckerType| u != t ==> spec_globally_disabled(c2, u) == spec_globally_disabled(c1, u),
    ensures
        !spec_reports(c2, t, r),
        t2 != t ==> spec_reports(c2, t2, r) == spec_reports(c1, t2, r),
{
    assert(!spec_checkable(c2, t, r));
    if t2 != t {
        assert(ref_referencing_pack(c2, r) == ref_referencing_pack(c1, r));
        assert(ref_defining_pack(c2, r) == ref_defining_pack(c1, r));
        assert(spec_globally_disabled(c2, t2) == spec_globally_disabled(c1, t2));
        assert(spec_checkable(c2, t2, r) == spec_checkable(c1, t2, r));
        assert(spec_policy_violated(c2, t2, r) == spec_policy_violated(c1, t2, r));
    }
}

fn parent_dir_exec(p: &str) -> (r: Vec<char>)
    ensures
        r@ == parent_dir(p@),
{
    let chars = strutil::str_to_chars(p);
    let mut best: Option<usize> = None;
    let mut i: usize = 0;
    proof {
        assert(chars@.take(0) =~= Seq::<char>::empty());
    }
    while i < chars.len()
        invariant
            i <= chars@.len(),
            chars@ == p@,
            match best {
                Some(b) => b < i && last_slash(p@.take(i as int)) == b as int,
                None => last_slash(p@.take(i as int)) < 0,
            },
        decreases chars@.len() - i,
    {
        proof {
            assert(p@.take(i + 1).take(i as int) =~= p@.take(i as int));
            assert(p@.take(i + 1)[i as int] == p@[i as int]);
        }
        if chars[i] == '/' {
            best = Some(i);
        }
        i = i + 1;
    }
    proof {
        assert(p@.take(i as int) =~= p@);
    }
    match best {
        Some(b) => strutil::chars_take(&chars, b),
        None => {
            proof {
                assert(parent_dir(p@) =~= Seq::<char>::empty());
            }
            Vec::new()
        },
    }
}

} // verus!
