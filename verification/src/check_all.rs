//! Orchestration: run every checker on every reference, partition the
//! result against the recorded ledgers into reportable, strict-mode and
//! stale violations, and recompute the ledgers for `update`.

use vstd::prelude::*;

use crate::checker::{
    check_reference, spec_identifier, spec_is_strict, spec_reports, spec_violation_of, IdView,
    Violation, ViolationIdentifier, ViolationView,
};
use crate::checker_types::CheckerType;
use crate::configuration::Configuration;
use crate::package_todo::{
    canon_spec, canonicalize, has_record, serialize_package_todo, ser_todo_lines, PackageTodo,
    TodoRecord, TodoRecordView,
};
use crate::pack::Pack;
use crate::pack_set::spec_for_pack;
use crate::reference::Reference;
use crate::strutil;

verus! {

/// A ledger record carrying the identifier's data.
pub open spec fn record_of_id(id: IdView) -> TodoRecordView {
    TodoRecordView {
        defining_pack_name: id.defining_pack_name,
        violation_type: id.violation_type,
        constant_name: id.constant_name,
        file: id.file,
    }
}

/// A ledger record of pack `pack_name` matches identifier `id`, strictness
/// aside.
pub open spec fn id_matches_rec(id: IdView, pack_name: Seq<char>, rec: TodoRecordView) -> bool {
    id.violation_type == rec.violation_type && id.file == rec.file && id.constant_name
        == rec.constant_name && id.defining_pack_name == rec.defining_pack_name
        && id.referencing_pack_name == pack_name
}

/// The identifier under which a stale ledger record is reported.
pub open spec fn stale_id(pack_name: Seq<char>, rec: TodoRecordView) -> IdView {
    IdView {
        violation_type: rec.violation_type,
        strict: false,
        file: rec.file,
        constant_name: rec.constant_name,
        referencing_pack_name: pack_name,
        defining_pack_name: rec.defining_pack_name,
    }
}

/// The referencing pack's ledger has a record matching `id`.
pub open spec fn spec_recorded(config: Configuration, id: IdView) -> bool {
    match spec_for_pack(config.pack_set.packs@, id.referencing_pack_name) {
        Some(p) => exists|j: int|
            0 <= j < p.package_todo@.len() && id_matches_rec(id, id.referencing_pack_name, #[trigger] p.package_todo@[j]),
        None => false,
    }
}

/// A reference's violation is reportable: reported, not strict, and not
/// suppressed by the ledger.
pub open spec fn spec_reportable(config: Configuration, t: CheckerType, r: Reference) -> bool {
    spec_reports(config, t, r) && !spec_is_strict(config, t, r) && (
    config.ignore_recorded_violations || !spec_recorded(config, spec_identifier(config, t, r)))
}

/// `v` is the violation image of some reported reference.
pub open spec fn is_report_image(config: Configuration, refs: Seq<Reference>, v: ViolationView) -> bool {
    exists|i: int, t: CheckerType|
        0 <= i < refs.len() && #[trigger] spec_reports(config, t, refs[i]) && v
            == spec_violation_of(config, t, refs[i])
}

/// A ledger record of `pack_name` is still backed by a current violation.
pub open spec fn rec_is_current(
    config: Configuration,
    refs: Seq<Reference>,
    pack_name: Seq<char>,
    rec: TodoRecordView,
) -> bool {
    exists|i: int, t: CheckerType|
        0 <= i < refs.len() && #[trigger] spec_reports(config, t, refs[i]) && id_matches_rec(
            spec_identifier(config, t, refs[i]),
            pack_name,
            rec,
        )
}

/// The record belongs in `pack_name`'s recomputed ledger: some current,
/// non-strict violation of that referencing pack carries its data.
pub open spec fn in_update_ledger(
    config: Configuration,
    refs: Seq<Reference>,
    pack_name: Seq<char>,
    rec: TodoRecordView,
) -> bool {
    exists|i: int, t: CheckerType|
        0 <= i < refs.len() && #[trigger] spec_reports(config, t, refs[i]) && !spec_is_strict(
            config,
            t,
            refs[i],
        ) && spec_identifier(config, t, refs[i]).referencing_pack_name == pack_name && rec
            == record_of_id(spec_identifier(config, t, refs[i]))
}

/// `vs` is a complete and sound tally of the violations of `refs`: every
/// entry is the image of some reporting (reference, checker) pair, and
/// every reporting pair has its image in `vs`.
pub open spec fn all_violations_ok(
    config: Configuration,
    refs: Seq<Reference>,
    vs: Seq<Violation>,
) -> bool {
    &&& forall|k: int|
        0 <= k < vs.len() ==> is_report_image(config, refs, (#[trigger] vs[k])@)
    &&& forall|i: int, t: CheckerType|
        0 <= i < refs.len() && #[trigger] spec_reports(config, t, refs[i]) ==> exists|k: int|
            0 <= k < vs.len() && (#[trigger] vs[k])@ == spec_violation_of(config, t, refs[i])
}

/// Every pack name the references mention resolves.
pub open spec fn all_lookups_ok(config: Configuration, refs: Seq<Reference>) -> bool {
    forall|i: int|
        0 <= i < refs.len() ==> crate::checker::spec_lookup_ok(config, #[trigger] refs[i])
}

/// The three outcomes of a full check.
#[derive(Debug)]
pub struct CheckAllResult {
    pub reportable_violations: Vec<Violation>,
    pub stale_violations: Vec<ViolationIdentifier>,
    pub strict_mode_violations: Vec<Violation>,
}

impl CheckAllResult {
    /// Whether anything at all has to be reported.
    pub fn has_violations(&self) -> (r: bool)
        ensures
            r == (self.reportable_violations@.len() > 0 || self.stale_violations@.len() > 0
                || self.strict_mode_violations@.len() > 0),
    {
        self.reportable_violations.len() > 0 || self.stale_violations.len() > 0
            || self.strict_mode_violations.len() > 0
    }
}

fn checker_types() -> (r: Vec<CheckerType>)
    ensures
        r@.len() == 5,
        r@[0] == CheckerType::Dependency,
        r@[1] == CheckerType::Privacy,
        r@[2] == CheckerType::FolderPrivacy,
        r@[3] == CheckerType::Visibility,
        r@[4] == CheckerType::Layer,
{
    let mut r: Vec<CheckerType> = Vec::new();
    r.push(CheckerType::Dependency);
    r.push(CheckerType::Privacy);
    r.push(CheckerType::FolderPrivacy);
    r.push(CheckerType::Visibility);
    r.push(CheckerType::Layer);
    r
}

/// All violations of all references, one entry per reporting
/// (reference, checker) pair.
fn compute_all_violations(configuration: &Configuration, references: &Vec<Reference>) -> (r:
    Result<Vec<Violation>, String>)
    ensures
        r is Ok <==> all_lookups_ok(*configuration, references@),
        r matches Ok(vs) ==> all_violations_ok(*configuration, references@, vs@),
{
    let types = checker_types();
    let mut vs: Vec<Violation> = Vec::new();
    let mut i: usize = 0;
    while i < references.len()
        invariant
            i <= references@.len(),
            types@.len() == 5,
            types@[0] == CheckerType::Dependency,
            types@[1] == CheckerType::Privacy,
            types@[2] == CheckerType::FolderPrivacy,
            types@[3] == CheckerType::Visibility,
            types@[4] == CheckerType::Layer,
            forall|i2: int|
                0 <= i2 < i ==> crate::checker::spec_lookup_ok(
                    *configuration,
                    #[trigger] references@[i2],
                ),
            forall|k: int|
                0 <= k < vs@.len() ==> is_report_image(
                    *configuration,
                    references@,
                    (#[trigger] vs@[k])@,
                ),
            forall|i2: int, t: CheckerType|
                0 <= i2 < i && #[trigger] spec_reports(*configuration, t, references@[i2])
                    ==> exists|k: int|
                    0 <= k < vs@.len() && (#[trigger] vs@[k])@ == spec_violation_of(
                        *configuration,
                        t,
                        references@[i2],
                    ),
        decreases references@.len() - i,
    {
        let reference = &references[i];
        let mut j: usize = 0;
        while j < types.len()
            invariant
                i < references@.len(),
                j <= types@.len(),
                types@.len() == 5,
                types@[0] == CheckerType::Dependency,
                types@[1] == CheckerType::Privacy,
                types@[2] == CheckerType::FolderPrivacy,
                types@[3] == CheckerType::Visibility,
                types@[4] == CheckerType::Layer,
                reference == &references@[i as int],
                forall|i2: int|
                    0 <= i2 < i ==> crate::checker::spec_lookup_ok(
                        *configuration,
                        #[trigger] references@[i2],
                    ),
                j > 0 ==> crate::checker::spec_lookup_ok(*configuration, references@[i as int]),
                forall|k: int|
                    0 <= k < vs@.len() ==> is_report_image(
                        *configuration,
                        references@,
                        (#[trigger] vs@[k])@,
                    ),
                forall|i2: int, t: CheckerType|
                    0 <= i2 < i && #[trigger] spec_reports(*configuration, t, references@[i2])
                        ==> exists|k: int|
                        0 <= k < vs@.len() && (#[trigger] vs@[k])@ == spec_violation_of(
                            *configuration,
                            t,
                            references@[i2],
                        ),
                forall|jj: int|
                    0 <= jj < j && spec_reports(
                        *configuration,
                        #[trigger] types@[jj],
                        references@[i as int],
                    ) ==> exists|k: int|
                        0 <= k < vs@.len() && (#[trigger] vs@[k])@ == spec_violation_of(
                            *configuration,
                            types@[jj],
                            references@[i as int],
                        ),
            decreases types@.len() - j,
        {
            let t = types[j];
            match check_reference(configuration, t, reference) {
                Ok(Some(v)) => {
                    proof {
                        assert(spec_reports(*configuration, t, references@[i as int]));
                    }
                    let ghost prev = vs@;
                    vs.push(v);
                    proof {
                        assert(vs@ =~= prev.push(v));
                        assert(vs@[vs@.len() - 1]@ == spec_violation_of(
                            *configuration,
                            t,
                            references@[i as int],
                        ));
                        assert(is_report_image(*configuration, references@, vs@[vs@.len() - 1]@));
                        assert forall|i2: int, t2: CheckerType|
                            0 <= i2 < i && #[trigger] spec_reports(
                                *configuration,
                                t2,
                                references@[i2],
                            ) implies exists|k: int|
                            0 <= k < vs@.len() && (#[trigger] vs@[k])@ == spec_violation_of(
                                *configuration,
                                t2,
                                references@[i2],
                            ) by {
                            let k = choose|k: int|
                                0 <= k < prev.len() && (#[trigger] prev[k])@ == spec_violation_of(
                                    *configuration,
                                    t2,
                                    references@[i2],
                                );
                            assert(vs@[k] == prev[k]);
                        }
                        assert forall|jj: int|
                            0 <= jj < j + 1 && spec_reports(
                                *configuration,
                                #[trigger] types@[jj],
                                references@[i as int],
                            ) implies exists|k: int|
                            0 <= k < vs@.len() && (#[trigger] vs@[k])@ == spec_violation_of(
                                *configuration,
                                types@[jj],
                                references@[i as int],
                            ) by {
                            if jj < j {
                                let k = choose|k: int|
                                    0 <= k < prev.len() && (#[trigger] prev[k])@
                                        == spec_violation_of(
                                        *configuration,
                                        types@[jj],
                                        references@[i as int],
                                    );
                                assert(vs@[k] == prev[k]);
                            } else {
                                assert(vs@[vs@.len() - 1]@ == spec_violation_of(
                                    *configuration,
                                    types@[jj],
                                    references@[i as int],
                                ));
                            }
                        }
                    }
                },
                Ok(None) => {},
                Err(e) => {
                    proof {
                        assert(!crate::checker::spec_lookup_ok(
                            *configuration,
                            references@[i as int],
                        ));
                    }
                    return Err(e);
                },
            }
            j = j + 1;
        }
        proof {
            assert forall|t: CheckerType|
                spec_reports(*configuration, t, references@[i as int]) implies exists|k: int|
                0 <= k < vs@.len() && (#[trigger] vs@[k])@ == spec_violation_of(
                    *configuration,
                    t,
                    references@[i as int],
                ) by {
                match t {
                    CheckerType::Dependency => {
                        assert(spec_reports(*configuration, types@[0], references@[i as int]));
                    },
                    CheckerType::Privacy => {
                        assert(spec_reports(*configuration, types@[1], references@[i as int]));
                    },
                    CheckerType::FolderPrivacy => {
                        assert(spec_reports(*configuration, types@[2], references@[i as int]));
                    },
                    CheckerType::Visibility => {
                        assert(spec_reports(*configuration, types@[3], references@[i as int]));
                    },
                    CheckerType::Layer => {
                        assert(spec_reports(*configuration, types@[4], references@[i as int]));
                    },
                }
            }
        }
        i = i + 1;
    }
    proof {
        assert(all_lookups_ok(*configuration, references@));
        assert(all_violations_ok(*configuration, references@, vs@));
    }
    Ok(vs)
}

/// Whether the referencing pack's recorded ledger contains this violation.
fn recorded(configuration: &Configuration, id: &ViolationIdentifier) -> (r: bool)
    ensures
        r == spec_recorded(*configuration, id@),
{
    let pack = match configuration.pack_set.for_pack(id.referencing_pack_name.as_str()) {
        Ok(p) => p,
        Err(_) => {
            return false;
        },
    };
    let mut j: usize = 0;
    while j < pack.package_todo.records.len()
        invariant
            j <= pack.package_todo@.len(),
            spec_for_pack(configuration.pack_set.packs@, id.referencing_pack_name@) == Some(*pack),
            forall|j2: int|
                0 <= j2 < j ==> !id_matches_rec(
                    id@,
                    id.referencing_pack_name@,
                    #[trigger] pack.package_todo@[j2],
                ),
        decreases pack.package_todo@.len() - j,
    {
        let rec = &pack.package_todo.records[j];
        proof {
            assert(pack.package_todo@[j as int] == rec@);
        }
        if record_matches_identifier(rec, id) {
            return true;
        }
        j = j + 1;
    }
    false
}

fn record_matches_identifier(rec: &TodoRecord, id: &ViolationIdentifier) -> (r: bool)
    ensures
        r == id_matches_rec(id@, id.referencing_pack_name@, rec@),
{
    let mut same_type = false;
    match (rec.violation_type, id.violation_type) {
        (CheckerType::Dependency, CheckerType::Dependency) => {
            same_type = true;
        },
        (CheckerType::Privacy, CheckerType::Privacy) => {
            same_type = true;
        },
        (CheckerType::FolderPrivacy, CheckerType::FolderPrivacy) => {
            same_type = true;
        },
        (CheckerType::Visibility, CheckerType::Visibility) => {
            same_type = true;
        },
        (CheckerType::Layer, CheckerType::Layer) => {
            same_type = true;
        },
        _ => {},
    }
    if !same_type {
        return false;
    }
    if !strutil::str_eq(rec.file.as_str(), id.file.as_str()) {
        return false;
    }
    if !strutil::str_eq(rec.constant_name.as_str(), id.constant_name.as_str()) {
        return false;
    }
    strutil::str_eq(rec.defining_pack_name.as_str(), id.defining_pack_name.as_str())
}

/// `vs` has an entry whose image is `v`.
pub open spec fn contains_image(vs: Seq<Violation>, v: ViolationView) -> bool {
    exists|k: int| 0 <= k < vs.len() && (#[trigger] vs[k])@ == v
}

/// `sv` has an entry whose image is `id`.
pub open spec fn contains_id(sv: Seq<ViolationIdentifier>, id: IdView) -> bool {
    exists|k: int| 0 <= k < sv.len() && (#[trigger] sv[k])@ == id
}

/// Pushing keeps every image already present.
pub proof fn lemma_contains_image_push(vs: Seq<Violation>, y: Violation, x: ViolationView)
    requires
        contains_image(vs, x),
    ensures
        contains_image(vs.push(y), x),
{
    let k = choose|k: int| 0 <= k < vs.len() && (#[trigger] vs[k])@ == x;
    assert(vs.push(y)[k]@ == x);
}

/// Pushing keeps every identifier already present.
pub proof fn lemma_contains_id_push(sv: Seq<ViolationIdentifier>, y: ViolationIdentifier, x: IdView)
    requires
        contains_id(sv, x),
    ensures
        contains_id(sv.push(y), x),
{
    let k = choose|k: int| 0 <= k < sv.len() && (#[trigger] sv[k])@ == x;
    assert(sv.push(y)[k]@ == x);
}

/// The packs of a configuration.
pub open spec fn spec_packs(config: Configuration) -> Seq<Pack> {
    config.pack_set.packs@
}

/// Ledger record `j` of pack `p`.
pub open spec fn pack_rec(config: Configuration, p: int, j: int) -> TodoRecordView {
    spec_packs(config)[p].package_todo@[j]
}

/// The record indices `(p, j)` name a ledger record.
pub open spec fn rec_index_ok(config: Configuration, p: int, j: int) -> bool {
    0 <= p < spec_packs(config).len() && 0 <= j < spec_packs(config)[p].package_todo@.len()
}

/// Every entry of `rv` is a current, non-strict, unsuppressed violation.
pub open spec fn reportable_entries_ok(
    config: Configuration,
    refs: Seq<Reference>,
    rv: Seq<Violation>,
) -> bool {
    forall|k: int|
        0 <= k < rv.len() ==> is_report_image(config, refs, (#[trigger] rv[k])@) && !(rv[k])@.identifier.strict
            && (config.ignore_recorded_violations || !spec_recorded(config, (rv[k])@.identifier))
}

/// Every entry of `sv` is a current, strict violation.
pub open spec fn strict_entries_ok(
    config: Configuration,
    refs: Seq<Reference>,
    sv: Seq<Violation>,
) -> bool {
    forall|k: int|
        0 <= k < sv.len() ==> is_report_image(config, refs, (#[trigger] sv[k])@) && (sv[k])@.identifier.strict
}

/// Every entry of `st` is the image of some stale ledger record.
pub open spec fn stale_entries_ok(
    config: Configuration,
    refs: Seq<Reference>,
    st: Seq<ViolationIdentifier>,
) -> bool {
    forall|k: int|
        0 <= k < st.len() ==> exists|p: int, j: int|
            rec_index_ok(config, p, j) && !rec_is_current(
                config,
                refs,
                spec_packs(config)[p].name@,
                pack_rec(config, p, j),
            ) && (#[trigger] st[k])@ == stale_id(spec_packs(config)[p].name@, pack_rec(config, p, j))
}

/// Every stale ledger record appears in `st`.
pub open spec fn stale_complete(
    config: Configuration,
    refs: Seq<Reference>,
    st: Seq<ViolationIdentifier>,
) -> bool {
    forall|p: int, j: int|
        rec_index_ok(config, p, j) && !rec_is_current(
            config,
            refs,
            spec_packs(config)[p].name@,
            #[trigger] pack_rec(config, p, j),
        ) ==> contains_id(st, stale_id(spec_packs(config)[p].name@, pack_rec(config, p, j)))
}

/// `res` is the correct partition of the violations of `refs` against the
/// recorded ledgers.
pub open spec fn check_result_ok(
    config: Configuration,
    refs: Seq<Reference>,
    res: CheckAllResult,
) -> bool {
    &&& reportable_entries_ok(config, refs, res.reportable_violations@)
    &&& forall|i: int, t: CheckerType|
        0 <= i < refs.len() && #[trigger] spec_reportable(config, t, refs[i]) ==> contains_image(
            res.reportable_violations@,
            spec_violation_of(config, t, refs[i]),
        )
    &&& strict_entries_ok(config, refs, res.strict_mode_violations@)
    &&& forall|i: int, t: CheckerType|
        0 <= i < refs.len() && #[trigger] spec_reports(config, t, refs[i]) && spec_is_strict(
            config,
            t,
            refs[i],
        ) ==> contains_image(res.strict_mode_violations@, spec_violation_of(config, t, refs[i]))
    &&& stale_entries_ok(config, refs, res.stale_violations@)
    &&& stale_complete(config, refs, res.stale_violations@)
}

fn violation_is_current(vs: &Vec<Violation>, pack_name: &str, rec: &TodoRecord) -> (r: bool)
    ensures
        r == exists|k: int|
            0 <= k < vs@.len() && id_matches_rec((#[trigger] vs@[k])@.identifier, pack_name@, rec@),
{
    let mut k: usize = 0;
    while k < vs.len()
        invariant
            k <= vs@.len(),
            forall|k2: int|
                0 <= k2 < k ==> !id_matches_rec(
                    (#[trigger] vs@[k2])@.identifier,
                    pack_name@,
                    rec@,
                ),
        decreases vs@.len() - k,
    {
        let id = &vs[k].identifier;
        if strutil::str_eq(id.referencing_pack_name.as_str(), pack_name) {
            if record_matches_identifier(rec, id) {
                proof {
                    assert(id_matches_rec(vs@[k as int]@.identifier, pack_name@, rec@));
                }
                return true;
            }
        }
        proof {
            assert(!id_matches_rec(vs@[k as int]@.identifier, pack_name@, rec@));
        }
        k = k + 1;
    }
    false
}

#[verifier::rlimit(60)]
fn compute_stale(configuration: &Configuration, references: &Vec<Reference>, all: &Vec<Violation>) -> (st: Vec<ViolationIdentifier>)
    requires
        all_violations_ok(*configuration, references@, all@),
    ensures
        stale_entries_ok(*configuration, references@, st@),
        stale_complete(*configuration, references@, st@),
{
    let ghost config = *configuration;
    let ghost refs = references@;
    let mut st: Vec<ViolationIdentifier> = Vec::new();
    let mut p: usize = 0;
    while p < configuration.pack_set.packs.len()
        invariant
            p <= spec_packs(config).len(),
            config == *configuration,
            refs == references@,
            all_violations_ok(config, refs, all@),
            stale_entries_ok(config, refs, st@),
            forall|p2: int, j2: int|
                0 <= p2 < p && 0 <= j2 < spec_packs(config)[p2].package_todo@.len()
                    && !rec_is_current(
                    config,
                    refs,
                    spec_packs(config)[p2].name@,
                    #[trigger] pack_rec(config, p2, j2),
                ) ==> contains_id(st@, stale_id(spec_packs(config)[p2].name@, pack_rec(config, p2, j2))),
        decreases spec_packs(config).len() - p,
    {
        let pack = &configuration.pack_set.packs[p];
        let mut j: usize = 0;
        while j < pack.package_todo.records.len()
            invariant
                p < spec_packs(config).len(),
                config == *configuration,
                refs == references@,
                pack == &spec_packs(config)[p as int],
                j <= pack.package_todo@.len(),
                all_violations_ok(config, refs, all@),
                stale_entries_ok(config, refs, st@),
                forall|p2: int, j2: int|
                    0 <= p2 < p && 0 <= j2 < spec_packs(config)[p2].package_todo@.len()
                        && !rec_is_current(
                        config,
                        refs,
                        spec_packs(config)[p2].name@,
                        #[trigger] pack_rec(config, p2, j2),
                    ) ==> contains_id(
                        st@,
                        stale_id(spec_packs(config)[p2].name@, pack_rec(config, p2, j2)),
                    ),
                forall|j2: int|
                    0 <= j2 < j && !rec_is_current(
                        config,
                        refs,
                        spec_packs(config)[p as int].name@,
                        #[trigger] pack_rec(config, p as int, j2),
                    ) ==> contains_id(
                        st@,
                        stale_id(spec_packs(config)[p as int].name@, pack_rec(config, p as int, j2)),
                    ),
            decreases pack.package_todo@.len() - j,
        {
            let rec = &pack.package_todo.records[j];
            proof {
                assert(pack_rec(config, p as int, j as int) == rec@);
            }
            let current = violation_is_current(all, pack.name.as_str(), rec);
            proof {
                if current {
                    let kk = choose|kk: int|
                        0 <= kk < all@.len() && id_matches_rec(
                            (#[trigger] all@[kk])@.identifier,
                            pack.name@,
                            rec@,
                        );
                    assert(is_report_image(config, refs, all@[kk]@));
                    let (i2, t2) = choose|i2: int, t2: CheckerType|
                        0 <= i2 < refs.len() && #[trigger] spec_reports(config, t2, refs[i2])
                            && all@[kk]@ == spec_violation_of(config, t2, refs[i2]);
                    assert(rec_is_current(config, refs, pack.name@, rec@));
                } else {
                    if rec_is_current(config, refs, pack.name@, rec@) {
                        let (i2, t2) = choose|i2: int, t2: CheckerType|
                            0 <= i2 < refs.len() && #[trigger] spec_reports(config, t2, refs[i2])
                                && id_matches_rec(
                                spec_identifier(config, t2, refs[i2]),
                                pack.name@,
                                rec@,
                            );
                        let kk = choose|kk: int|
                            0 <= kk < all@.len() && (#[trigger] all@[kk])@ == spec_violation_of(
                                config,
                                t2,
                                refs[i2],
                            );
                        assert(id_matches_rec(all@[kk]@.identifier, pack.name@, rec@));
                    }
                }
            }
            if !current {
                let ghost prev = st@;
                st.push(
                    ViolationIdentifier {
                        violation_type: rec.violation_type,
                        strict: false,
                        file: rec.file.clone(),
                        constant_name: rec.constant_name.clone(),
                        referencing_pack_name: pack.name.clone(),
                        defining_pack_name: rec.defining_pack_name.clone(),
                    },
                );
                proof {
                    assert(st@ =~= prev.push(st@.last()));
                    assert(st@.last()@ == stale_id(pack.name@, rec@));
                    assert(st@[st@.len() - 1]@ == stale_id(pack.name@, rec@));
                    assert(rec_index_ok(config, p as int, j as int));
                    assert(pack_rec(config, p as int, j as int) == rec@);
                    assert forall|k2: int| 0 <= k2 < st@.len() implies exists|p2: int, j2: int|
                        rec_index_ok(config, p2, j2) && !rec_is_current(
                            config,
                            refs,
                            spec_packs(config)[p2].name@,
                            pack_rec(config, p2, j2),
                        ) && (#[trigger] st@[k2])@ == stale_id(
                            spec_packs(config)[p2].name@,
                            pack_rec(config, p2, j2),
                        ) by {
                        if k2 < prev.len() {
                            assert(st@[k2] == prev[k2]);
                        } else {
                            assert(st@[k2]@ == stale_id(
                                spec_packs(config)[p as int].name@,
                                pack_rec(config, p as int, j as int),
                            ));
                        }
                    }
                    assert forall|p2: int, j2: int|
                        0 <= p2 < p && 0 <= j2 < spec_packs(config)[p2].package_todo@.len()
                            && !rec_is_current(
                            config,
                            refs,
                            spec_packs(config)[p2].name@,
                            #[trigger] pack_rec(config, p2, j2),
                        ) implies contains_id(
                        st@,
                        stale_id(spec_packs(config)[p2].name@, pack_rec(config, p2, j2)),
                    ) by {
                        lemma_contains_id_push(
                            prev,
                            st@.last(),
                            stale_id(spec_packs(config)[p2].name@, pack_rec(config, p2, j2)),
                        );
                    }
                    assert forall|j2: int|
                        0 <= j2 < j && !rec_is_current(
                            config,
                            refs,
                            spec_packs(config)[p as int].name@,
                            #[trigger] pack_rec(config, p as int, j2),
                        ) implies contains_id(
                        st@,
                        stale_id(spec_packs(config)[p as int].name@, pack_rec(config, p as int, j2)),
                    ) by {
                        lemma_contains_id_push(
                            prev,
                            st@.last(),
                            stale_id(
                                spec_packs(config)[p as int].name@,
                                pack_rec(config, p as int, j2),
                            ),
                        );
                    }
                }
            }
            j = j + 1;
        }
        p = p + 1;
    }
    st
}

/// Computes all current violations of `references`, then partitions them:
/// strict violations are always surfaced; the rest are reportable unless
/// the referencing pack's ledger records them; ledger records matched by no
/// current violation are stale.
#[verifier::rlimit(60)]
pub fn check_all(configuration: &Configuration, references: &Vec<Reference>) -> (r: Result<
    CheckAllResult,
    String,
>)
    ensures
        r is Ok <==> all_lookups_ok(*configuration, references@),
        r matches Ok(res) ==> check_result_ok(*configuration, references@, res),
{
    let ghost config = *configuration;
    let ghost refs = references@;
    let all = match compute_all_violations(configuration, references) {
        Ok(vs) => vs,
        Err(e) => {
            return Err(e);
        },
    };
    let mut reportable_violations: Vec<Violation> = Vec::new();
    let mut strict_mode_violations: Vec<Violation> = Vec::new();
    let mut k: usize = 0;
    while k < all.len()
        invariant
            k <= all@.len(),
            config == *configuration,
            refs == references@,
            all_violations_ok(config, refs, all@),
            reportable_entries_ok(config, refs, reportable_violations@),
            strict_entries_ok(config, refs, strict_mode_violations@),
            forall|k2: int|
                0 <= k2 < k && !(#[trigger] all@[k2])@.identifier.strict && (
                config.ignore_recorded_violations || !spec_recorded(
                    config,
                    all@[k2]@.identifier,
                )) ==> contains_image(reportable_violations@, all@[k2]@),
            forall|k2: int|
                0 <= k2 < k && (#[trigger] all@[k2])@.identifier.strict ==> contains_image(
                    strict_mode_violations@,
                    all@[k2]@,
                ),
        decreases all@.len() - k,
    {
        let v = &all[k];
        if v.identifier.strict {
            let ghost prev = strict_mode_violations@;
            strict_mode_violations.push(v.clone());
            proof {
                assert(strict_mode_violations@ =~= prev.push(strict_mode_violations@.last()));
                assert(strict_mode_violations@.last()@ == all@[k as int]@);
                assert(strict_mode_violations@[strict_mode_violations@.len() - 1]@ == all@[
                    k as int]@);
                assert forall|k2: int|
                    0 <= k2 < k + 1 && (#[trigger] all@[k2])@.identifier.strict implies
                    contains_image(strict_mode_violations@, all@[k2]@) by {
                    if k2 < k {
                        lemma_contains_image_push(
                            prev,
                            strict_mode_violations@.last(),
                            all@[k2]@,
                        );
                    }
                }
            }
        } else {
            let suppressed = if configuration.ignore_recorded_violations {
                false
            } else {
                recorded(configuration, &v.identifier)
            };
            if !suppressed {
                let ghost prev = reportable_violations@;
                reportable_violations.push(v.clone());
                proof {
                    assert(reportable_violations@ =~= prev.push(reportable_violations@.last()));
                    assert(reportable_violations@.last()@ == all@[k as int]@);
                    assert(reportable_violations@[reportable_violations@.len() - 1]@ == all@[
                        k as int]@);
                    assert forall|k2: int|
                        0 <= k2 < k + 1 && !(#[trigger] all@[k2])@.identifier.strict && (
                        config.ignore_recorded_violations || !spec_recorded(
                            config,
                            all@[k2]@.identifier,
                        )) implies contains_image(reportable_violations@, all@[k2]@) by {
                        if k2 < k {
                            lemma_contains_image_push(
                                prev,
                                reportable_violations@.last(),
                                all@[k2]@,
                            );
                        }
                    }
                }
            }
        }
        k = k + 1;
    }
    let stale_violations = compute_stale(configuration, references, &all);
    let res = CheckAllResult { reportable_violations, stale_violations, strict_mode_violations };
    proof {
        assert forall|i: int, t: CheckerType|
            0 <= i < refs.len() && #[trigger] spec_reportable(config, t, refs[i]) implies
            contains_image(res.reportable_violations@, spec_violation_of(config, t, refs[i])) by {
            assert(spec_reports(config, t, refs[i]));
            let k2 = choose|k2: int|
                0 <= k2 < all@.len() && (#[trigger] all@[k2])@ == spec_violation_of(
                    config,
                    t,
                    refs[i],
                );
            assert(!all@[k2]@.identifier.strict);
        }
        assert forall|i: int, t: CheckerType|
            0 <= i < refs.len() && #[trigger] spec_reports(config, t, refs[i]) && spec_is_strict(
                config,
                t,
                refs[i],
            ) implies contains_image(
            res.strict_mode_violations@,
            spec_violation_of(config, t, refs[i]),
        ) by {
            let k2 = choose|k2: int|
                0 <= k2 < all@.len() && (#[trigger] all@[k2])@ == spec_violation_of(
                    config,
                    t,
                    refs[i],
                );
            assert(all@[k2]@.identifier.strict);
        }
        assert(check_result_ok(config, refs, res));
    }
    Ok(res)
}

/// One recomputed ledger file: the pack it belongs to, its records in
/// canonical order, and the exact text to write.
#[derive(Debug)]
pub struct TodoFile {
    pub pack_name: String,
    pub todo: PackageTodo,
    pub content: String,
}

/// The file carries exactly the pack's recomputed ledger, canonically
/// serialized.
pub open spec fn todo_file_ok(config: Configuration, refs: Seq<Reference>, f: TodoFile) -> bool {
    &&& crate::package_todo::canonical(f.todo@)
    &&& forall|rec: TodoRecordView|
        #![trigger has_record(f.todo@, rec)]
        has_record(f.todo@, rec) <==> in_update_ledger(config, refs, f.pack_name@, rec)
    &&& f.content@ == crate::strutil::join_lines_spec(
        ser_todo_lines(f.pack_name@, f.todo@, config.packs_first_mode),
    )
}

/// The recomputed ledger files: one per pack with at least one current,
/// non-strict violation, and none for any other pack.
pub open spec fn update_ok(config: Configuration, refs: Seq<Reference>, files: Seq<TodoFile>) -> bool {
    &&& forall|k: int|
        0 <= k < files.len() ==> todo_file_ok(config, refs, #[trigger] files[k]) && files[k].todo@.len()
            > 0
    &&& forall|p: int|
        0 <= p < spec_packs(config).len() && (exists|rec: TodoRecordView|
            in_update_ledger(config, refs, (#[trigger] spec_packs(config)[p]).name@, rec))
            ==> exists|k: int|
            0 <= k < files.len() && (#[trigger] files[k]).pack_name@ == spec_packs(config)[p].name@
}

/// Recomputes every pack's ledger from the current violations. A pack
/// appears in the result exactly when it causes at least one non-strict
/// violation; its file holds those violations in canonical order. Ledger
/// files of packs not in the result are to be removed.
#[verifier::rlimit(60)]
pub fn update(configuration: &Configuration, references: &Vec<Reference>) -> (r: Result<
    Vec<TodoFile>,
    String,
>)
    ensures
        r is Ok <==> all_lookups_ok(*configuration, references@),
        r matches Ok(files) ==> update_ok(*configuration, references@, files@),
{
    let ghost config = *configuration;
    let ghost refs = references@;
    let all = match compute_all_violations(configuration, references) {
        Ok(vs) => vs,
        Err(e) => {
            return Err(e);
        },
    };
    let mut files: Vec<TodoFile> = Vec::new();
    let mut p: usize = 0;
    while p < configuration.pack_set.packs.len()
        invariant
            p <= spec_packs(config).len(),
            config == *configuration,
            refs == references@,
            all_violations_ok(config, refs, all@),
            forall|k: int|
                0 <= k < files@.len() ==> todo_file_ok(config, refs, #[trigger] files@[k])
                    && files@[k].todo@.len() > 0,
            forall|p2: int|
                0 <= p2 < p && (exists|rec: TodoRecordView|
                    in_update_ledger(config, refs, (#[trigger] spec_packs(config)[p2]).name@, rec))
                    ==> exists|k: int|
                    0 <= k < files@.len() && (#[trigger] files@[k]).pack_name@ == spec_packs(
                        config,
                    )[p2].name@,
        decreases spec_packs(config).len() - p,
    {
        let pack = &configuration.pack_set.packs[p];
        let mut recs: Vec<TodoRecord> = Vec::new();
        let mut k: usize = 0;
        while k < all.len()
            invariant
                p < spec_packs(config).len(),
                pack == &spec_packs(config)[p as int],
                k <= all@.len(),
                config == *configuration,
                refs == references@,
                all_violations_ok(config, refs, all@),
                forall|x: int|
                    0 <= x < recs@.len() ==> exists|k2: int|
                        0 <= k2 < all@.len() && !(#[trigger] all@[k2])@.identifier.strict && all@[
                            k2
                        ]@.identifier.referencing_pack_name == pack.name@ && (
                        #[trigger] recs@[x])@ == record_of_id(all@[k2]@.identifier),
                forall|k2: int|
                    0 <= k2 < k && !(#[trigger] all@[k2])@.identifier.strict && all@[
                        k2
                    ]@.identifier.referencing_pack_name == pack.name@ ==> has_record(
                        crate::package_todo::records_view(recs@),
                        record_of_id(all@[k2]@.identifier),
                    ),
            decreases all@.len() - k,
        {
            let v = &all[k];
            if !v.identifier.strict {
                if strutil::str_eq(v.identifier.referencing_pack_name.as_str(), pack.name.as_str())
                {
                    let ghost prev = recs@;
                    recs.push(
                        TodoRecord {
                            defining_pack_name: v.identifier.defining_pack_name.clone(),
                            violation_type: v.identifier.violation_type,
                            constant_name: v.identifier.constant_name.clone(),
                            file: v.identifier.file.clone(),
                        },
                    );
                    proof {
                        assert(recs@ =~= prev.push(recs@.last()));
                        assert(recs@.last()@ == record_of_id(all@[k as int]@.identifier));
                        assert(recs@[recs@.len() - 1]@ == record_of_id(all@[k as int]@.identifier));
                        let rv = crate::package_todo::records_view(recs@);
                        assert(rv[rv.len() - 1] == record_of_id(all@[k as int]@.identifier));
                        assert forall|k2: int|
                            0 <= k2 < k + 1 && !(#[trigger] all@[k2])@.identifier.strict && all@[
                                k2
                            ]@.identifier.referencing_pack_name == pack.name@ implies has_record(
                            crate::package_todo::records_view(recs@),
                            record_of_id(all@[k2]@.identifier),
                        ) by {
                            let prv = crate::package_todo::records_view(prev);
                            if k2 < k {
                                let x = choose|x: int|
                                    0 <= x < prv.len() && prv[x] == record_of_id(
                                        all@[k2]@.identifier,
                                    );
                                assert(crate::package_todo::records_view(recs@)[x] == prv[x]);
                            } else {
                                assert(crate::package_todo::records_view(recs@)[rv.len() - 1]
                                    == record_of_id(all@[k2]@.identifier));
                            }
                        }
                    }
                }
            }
            k = k + 1;
        }
        if recs.len() > 0 {
            let todo = PackageTodo { records: recs };
            proof {
                assert(todo@ =~= crate::package_todo::records_view(todo.records@));
            }
            let canon = canonicalize(&todo);
            proof {
                crate::package_todo::lemma_canon_spec_props(todo@);
                crate::package_todo::lemma_canon_of_canonical(canon@);
            }
            let content = serialize_package_todo(
                pack.name.as_str(),
                &canon,
                configuration.packs_first_mode,
            );
            let ghost prev_files = files@;
            let f = TodoFile { pack_name: pack.name.clone(), todo: canon, content };
            proof {
                // membership of the canonical ledger matches the recomputed set
                assert forall|rec: TodoRecordView| #![trigger has_record(f.todo@, rec)]
                    has_record(f.todo@, rec) <==> in_update_ledger(config, refs, f.pack_name@, rec)
                    by {
                    if has_record(f.todo@, rec) {
                        assert(has_record(todo@, rec));
                        let x = choose|x: int| 0 <= x < todo@.len() && todo@[x] == rec;
                        let k2 = choose|k2: int|
                            0 <= k2 < all@.len() && !(#[trigger] all@[k2])@.identifier.strict
                                && all@[k2]@.identifier.referencing_pack_name == pack.name@ && (
                            todo@[x]) == record_of_id(all@[k2]@.identifier);
                        assert(is_report_image(config, refs, all@[k2]@));
                        let (i2, t2) = choose|i2: int, t2: CheckerType|
                            0 <= i2 < refs.len() && #[trigger] spec_reports(config, t2, refs[i2])
                                && all@[k2]@ == spec_violation_of(config, t2, refs[i2]);
                        assert(in_update_ledger(config, refs, f.pack_name@, rec));
                    }
                    if in_update_ledger(config, refs, f.pack_name@, rec) {
                        let (i2, t2) = choose|i2: int, t2: CheckerType|
                            0 <= i2 < refs.len() && #[trigger] spec_reports(config, t2, refs[i2])
                                && !spec_is_strict(config, t2, refs[i2]) && spec_identifier(
                                config,
                                t2,
                                refs[i2],
                            ).referencing_pack_name == f.pack_name@ && rec == record_of_id(
                                spec_identifier(config, t2, refs[i2]),
                            );
                        let k2 = choose|k2: int|
                            0 <= k2 < all@.len() && (#[trigger] all@[k2])@ == spec_violation_of(
                                config,
                                t2,
                                refs[i2],
                            );
                        assert(has_record(todo@, rec));
                        assert(has_record(f.todo@, rec));
                    }
                }
                assert(todo_file_ok(config, refs, f));
                assert(f.todo@.len() > 0) by {
                    assert(todo@.len() > 0);
                    assert(has_record(todo@, todo@[0]));
                    assert(has_record(f.todo@, todo@[0]));
                }
            }
            files.push(f);
            proof {
                assert(files@ =~= prev_files.push(files@.last()));
                assert(files@.last().pack_name@ == spec_packs(config)[p as int].name@);
                assert forall|p2: int|
                    0 <= p2 < p + 1 && (exists|rec: TodoRecordView|
                        in_update_ledger(
                            config,
                            refs,
                            (#[trigger] spec_packs(config)[p2]).name@,
                            rec,
                        )) implies exists|k2: int|
                    0 <= k2 < files@.len() && (#[trigger] files@[k2]).pack_name@ == spec_packs(
                        config,
                    )[p2].name@ by {
                    if p2 < p {
                        let k2 = choose|k2: int|
                            0 <= k2 < prev_files.len() && (#[trigger] prev_files[k2]).pack_name@
                                == spec_packs(config)[p2].name@;
                        assert(files@[k2] == prev_files[k2]);
                    } else {
                        assert(files@[files@.len() - 1].pack_name@ == spec_packs(
                            config,
                        )[p2].name@);
                    }
                }
            }
        } else {
            proof {
                // no record was collected, so nothing is owed for this pack
                assert forall|p2: int|
                    0 <= p2 < p + 1 && (exists|rec: TodoRecordView|
                        in_update_ledger(
                            config,
                            refs,
                            (#[trigger] spec_packs(config)[p2]).name@,
                            rec,
                        )) implies exists|k2: int|
                    0 <= k2 < files@.len() && (#[trigger] files@[k2]).pack_name@ == spec_packs(
                        config,
                    )[p2].name@ by {
                    if p2 == p {
                        let rec = choose|rec: TodoRecordView|
                            in_update_ledger(config, refs, spec_packs(config)[p2].name@, rec);
                        let (i2, t2) = choose|i2: int, t2: CheckerType|
                            0 <= i2 < refs.len() && #[trigger] spec_reports(config, t2, refs[i2])
                                && !spec_is_strict(config, t2, refs[i2]) && spec_identifier(
                                config,
                                t2,
                                refs[i2],
                            ).referencing_pack_name == spec_packs(config)[p2].name@ && rec
                                == record_of_id(spec_identifier(config, t2, refs[i2]));
                        let k2 = choose|k2: int|
                            0 <= k2 < all@.len() && (#[trigger] all@[k2])@ == spec_violation_of(
                                config,
                                t2,
                                refs[i2],
                            );
                        assert(has_record(
                            crate::package_todo::records_view(recs@),
                            record_of_id(all@[k2]@.identifier),
                        ));
                        assert(false);
                    }
                }
            }
        }
        p = p + 1;
    }
    Ok(files)
}

/// The ledgers of `config` are exactly what `update` computed for `refs`:
/// each pack's recorded set coincides with its recomputed set.
pub open spec fn ledgers_match_update(config: Configuration, refs: Seq<Reference>) -> bool {
    forall|p: int, rec: TodoRecordView|
        #![trigger has_record(spec_packs(config)[p].package_todo@, rec)]
        0 <= p < spec_packs(config).len() ==> (has_record(
            spec_packs(config)[p].package_todo@,
            rec,
        ) <==> in_update_ledger(config, refs, spec_packs(config)[p].name@, rec))
}

/// After `update`, every current non-strict violation is recorded, and
/// every ledger record is current.
pub proof fn lemma_update_makes_ledgers_current(config: Configuration, refs: Seq<Reference>)
    requires
        ledgers_match_update(config, refs),
        all_lookups_ok(config, refs),
    ensures
        forall|i: int, t: CheckerType|
            0 <= i < refs.len() && #[trigger] spec_reports(config, t, refs[i]) && !spec_is_strict(
                config,
                t,
                refs[i],
            ) ==> spec_recorded(config, spec_identifier(config, t, refs[i])),
        forall|p: int, j: int|
            rec_index_ok(config, p, j) ==> rec_is_current(
                config,
                refs,
                spec_packs(config)[p].name@,
                #[trigger] pack_rec(config, p, j),
            ),
{
    assert forall|i: int, t: CheckerType|
        0 <= i < refs.len() && #[trigger] spec_reports(config, t, refs[i]) && !spec_is_strict(
            config,
            t,
            refs[i],
        ) implies spec_recorded(config, spec_identifier(config, t, refs[i])) by {
        let id = spec_identifier(config, t, refs[i]);
        // the identifier's referencing pack name resolves to the pack that was
        // looked up when the identifier was built
        assert(crate::checker::spec_lookup_ok(config, refs[i]));
        crate::pack_set::lemma_spec_for_pack_name(spec_packs(config), refs[i].referencing_pack_name@);
        let refg = crate::checker::ref_referencing_pack(config, refs[i])->0;
        crate::pack_set::lemma_spec_for_pack_name(spec_packs(config), refg.name@);
        let looked = spec_for_pack(spec_packs(config), id.referencing_pack_name);
        assert(spec_for_pack(spec_packs(config), refs[i].referencing_pack_name@) == Some(refg));
        assert(refg.name@ == refs[i].referencing_pack_name@);
        assert(id.referencing_pack_name == refg.name@);
        assert(looked == Some(refg));
        let ip = choose|ip: int|
            0 <= ip < spec_packs(config).len() && #[trigger] spec_packs(config)[ip] == refg;
        let rec = record_of_id(id);
        assert(in_update_ledger(config, refs, spec_packs(config)[ip].name@, rec));
        assert(has_record(spec_packs(config)[ip].package_todo@, rec));
        let j = choose|j: int|
            0 <= j < spec_packs(config)[ip].package_todo@.len() && spec_packs(
                config,
            )[ip].package_todo@[j] == rec;
        assert(id_matches_rec(id, id.referencing_pack_name, refg.package_todo@[j]));
    }
    assert forall|p: int, j: int| rec_index_ok(config, p, j) implies rec_is_current(
        config,
        refs,
        spec_packs(config)[p].name@,
        #[trigger] pack_rec(config, p, j),
    ) by {
        let rec = pack_rec(config, p, j);
        assert(has_record(spec_packs(config)[p].package_todo@, rec)) by {
            assert(spec_packs(config)[p].package_todo@[j] == rec);
        }
        assert(in_update_ledger(config, refs, spec_packs(config)[p].name@, rec));
        let (i2, t2) = choose|i2: int, t2: CheckerType|
            0 <= i2 < refs.len() && #[trigger] spec_reports(config, t2, refs[i2])
                && !spec_is_strict(config, t2, refs[i2]) && spec_identifier(
                config,
                t2,
                refs[i2],
            ).referencing_pack_name == spec_packs(config)[p].name@ && rec == record_of_id(
                spec_identifier(config, t2, refs[i2]),
            );
        assert(id_matches_rec(
            spec_identifier(config, t2, refs[i2]),
            spec_packs(config)[p].name@,
            rec,
        ));
    }
}

/// Ledger round trip: running the reconciliation update and then checking
/// the same references yields no reportable violations and no stale
/// ledger entries.
pub proof fn lemma_ledger_round_trip(
    config: Configuration,
    refs: Seq<Reference>,
    res: CheckAllResult,
)
    requires
        ledgers_match_update(config, refs),
        all_lookups_ok(config, refs),
        !config.ignore_recorded_violations,
        check_result_ok(config, refs, res),
    ensures
        res.reportable_violations@.len() == 0,
        res.stale_violations@.len() == 0,
{
    lemma_update_makes_ledgers_current(config, refs);
    if res.reportable_violations@.len() > 0 {
        assert(is_report_image(config, refs, res.reportable_violations@[0]@));
        let (i, t) = choose|i: int, t: CheckerType|
            0 <= i < refs.len() && #[trigger] spec_reports(config, t, refs[i])
                && res.reportable_violations@[0]@ == spec_violation_of(config, t, refs[i]);
        assert(res.reportable_violations@[0]@.identifier == spec_identifier(config, t, refs[i]));
        assert(!spec_is_strict(config, t, refs[i]));
        assert(spec_recorded(config, spec_identifier(config, t, refs[i])));
        assert(false);
    }
    if res.stale_violations@.len() > 0 {
        assert(0 <= 0 < res.stale_violations@.len());
        let (p, j) = choose|p: int, j: int|
            rec_index_ok(config, p, j) && !rec_is_current(
                config,
                refs,
                spec_packs(config)[p].name@,
                pack_rec(config, p, j),
            ) && (res.stale_violations@[0])@ == stale_id(
                spec_packs(config)[p].name@,
                pack_rec(config, p, j),
            );
        assert(false);
    }
}

} // verus!
