//! Enrichment of raw references with pack ownership: the parsing
//! collaborator hands over raw references with their files; each file is
//! mapped to its owning pack's name, and references whose referencing file
//! belongs to no pack are dropped.

use vstd::prelude::*;

use crate::processed_file::SourceLocation;
use crate::reference::Reference;
use crate::strutil;

verus! {

/// A raw reference as the parsing collaborator hands it over.
#[derive(Debug)]
pub struct RawReference {
    pub constant_name: String,
    pub relative_referencing_file: String,
    pub relative_defining_file: Option<String>,
    pub source_location: SourceLocation,
}

/// The ghost image of a raw reference.
pub struct RawRefView {
    pub constant_name: Seq<char>,
    pub relative_referencing_file: Seq<char>,
    pub relative_defining_file: Option<Seq<char>>,
    pub source_location: SourceLocation,
}

impl View for RawReference {
    type V = RawRefView;

    open spec fn view(&self) -> RawRefView {
        RawRefView {
            constant_name: self.constant_name@,
            relative_referencing_file: self.relative_referencing_file@,
            relative_defining_file: crate::pack::opt_view(self.relative_defining_file),
            source_location: self.source_location,
        }
    }
}

/// The ghost image of an enriched reference.
pub struct RefView {
    pub constant_name: Seq<char>,
    pub defining_pack_name: Option<Seq<char>>,
    pub relative_defining_file: Option<Seq<char>>,
    pub referencing_pack_name: Seq<char>,
    pub relative_referencing_file: Seq<char>,
    pub source_location: SourceLocation,
}

impl View for Reference {
    type V = RefView;

    open spec fn view(&self) -> RefView {
        RefView {
            constant_name: self.constant_name@,
            defining_pack_name: crate::pack::opt_view(self.defining_pack_name),
            relative_defining_file: crate::pack::opt_view(self.relative_defining_file),
            referencing_pack_name: self.referencing_pack_name@,
            relative_referencing_file: self.relative_referencing_file@,
            source_location: self.source_location,
        }
    }
}

/// The first value paired with `key`, if any.
pub open spec fn spec_find_name(v: Seq<(Seq<char>, Seq<char>)>, key: Seq<char>) -> Option<
    Seq<char>,
>
    decreases v.len(),
{
    if v.len() == 0 {
        None
    } else if v[0].0 == key {
        Some(v[0].1)
    } else {
        spec_find_name(v.skip(1), key)
    }
}

/// The map from file path to owning pack name, as supplied by the file
/// discovery collaborator.
#[derive(Debug)]
pub struct PackageNames {
    pub owning_pack_name_for_file: Vec<(String, String)>,
}

impl PackageNames {
    /// Wraps the supplied ownership map.
    pub fn new(owning_pack_name_for_file: Vec<(String, String)>) -> (r: PackageNames)
        ensures
            r.owning_pack_name_for_file@ == owning_pack_name_for_file@,
    {
        PackageNames { owning_pack_name_for_file }
    }

    /// The owning pack of a file, by exact path lookup.
    pub fn find_pack_name(&self, file_path: &str) -> (r: Option<String>)
        ensures
            crate::pack::opt_view(r) == spec_find_name(
                crate::dependencies::pairs_view(self.owning_pack_name_for_file@),
                file_path@,
            ),
    {
        let ghost mv = crate::dependencies::pairs_view(self.owning_pack_name_for_file@);
        let mut i: usize = 0;
        proof {
            assert(mv.skip(0) =~= mv);
        }
        while i < self.owning_pack_name_for_file.len()
            invariant
                i <= mv.len(),
                mv == crate::dependencies::pairs_view(self.owning_pack_name_for_file@),
                spec_find_name(mv, file_path@) == spec_find_name(mv.skip(i as int), file_path@),
            decreases mv.len() - i,
        {
            let ghost rest = mv.skip(i as int);
            proof {
                assert(rest[0] == mv[i as int]);
                assert(rest.skip(1) =~= mv.skip(i + 1));
            }
            if strutil::str_eq(self.owning_pack_name_for_file[i].0.as_str(), file_path) {
                return Some(self.owning_pack_name_for_file[i].1.clone());
            }
            i = i + 1;
        }
        proof {
            assert(mv.skip(i as int).len() == 0);
        }
        None
    }
}

/// The enrichment of one raw reference, `None` when its referencing file
/// belongs to no pack.
pub open spec fn spec_enrich(map: Seq<(Seq<char>, Seq<char>)>, raw: RawRefView) -> Option<RefView> {
    match spec_find_name(map, raw.relative_referencing_file) {
        Some(rp) => Some(
            RefView {
                constant_name: raw.constant_name,
                defining_pack_name: (match raw.relative_defining_file {
                    Some(df) => spec_find_name(map, df),
                    None => None,
                }),
                relative_defining_file: raw.relative_defining_file,
                referencing_pack_name: rp,
                relative_referencing_file: raw.relative_referencing_file,
                source_location: raw.source_location,
            },
        ),
        None => None,
    }
}

/// The enriched references of all raw references, in order, dropping those
/// whose referencing file belongs to no pack.
pub open spec fn spec_enrich_all(
    map: Seq<(Seq<char>, Seq<char>)>,
    raws: Seq<RawRefView>,
) -> Seq<RefView>
    decreases raws.len(),
{
    if raws.len() == 0 {
        Seq::empty()
    } else {
        let rest = spec_enrich_all(map, raws.skip(1));
        match spec_enrich(map, raws[0]) {
            Some(rv) => seq![rv] + rest,
            None => rest,
        }
    }
}

/// The views of a vector of raw references.
pub open spec fn raws_view(v: Seq<RawReference>) -> Seq<RawRefView> {
    Seq::new(v.len(), |i: int| v[i]@)
}

/// The views of a vector of references.
pub open spec fn refs_view(v: Seq<Reference>) -> Seq<RefView> {
    Seq::new(v.len(), |i: int| v[i]@)
}

/// Enrich every raw reference with the packs that own its referencing and
/// defining files; a reference whose referencing file belongs to no pack
/// is dropped.
pub fn get_all_references(pack_names: &PackageNames, raws: &Vec<RawReference>) -> (r: Vec<
    Reference,
>)
    ensures
        refs_view(r@) == spec_enrich_all(
            crate::dependencies::pairs_view(pack_names.owning_pack_name_for_file@),
            raws_view(raws@),
        ),
{
    let ghost mv = crate::dependencies::pairs_view(pack_names.owning_pack_name_for_file@);
    let ghost rv = raws_view(raws@);
    let mut out: Vec<Reference> = Vec::new();
    let mut i: usize = 0;
    proof {
        assert(rv.skip(0) =~= rv);
        assert(refs_view(out@) + spec_enrich_all(mv, rv) =~= spec_enrich_all(mv, rv));
    }
    while i < raws.len()
        invariant
            i <= rv.len(),
            mv == crate::dependencies::pairs_view(pack_names.owning_pack_name_for_file@),
            rv == raws_view(raws@),
            spec_enrich_all(mv, rv) == refs_view(out@) + spec_enrich_all(mv, rv.skip(i as int)),
        decreases rv.len() - i,
    {
        let ghost rest = rv.skip(i as int);
        proof {
            assert(rest[0] == rv[i as int]);
            assert(rest.skip(1) =~= rv.skip(i + 1));
        }
        let raw = &raws[i];
        match pack_names.find_pack_name(raw.relative_referencing_file.as_str()) {
            Some(rp) => {
                let defining_pack_name = match &raw.relative_defining_file {
                    Some(df) => pack_names.find_pack_name(df.as_str()),
                    None => None,
                };
                let relative_defining_file = match &raw.relative_defining_file {
                    Some(df) => Some(df.clone()),
                    None => None,
                };
                let ghost prev = refs_view(out@);
                out.push(
                    Reference {
                        constant_name: raw.constant_name.clone(),
                        defining_pack_name,
                        relative_defining_file,
                        referencing_pack_name: rp,
                        relative_referencing_file: raw.relative_referencing_file.clone(),
                        source_location: raw.source_location,
                    },
                );
                proof {
                    assert(refs_view(out@) =~= prev.push(refs_view(out@).last()));
                    assert(refs_view(out@).last() == spec_enrich(mv, rv[i as int])->0);
                }
            },
            None => {},
        }
        i = i + 1;
        proof {
            assert(refs_view(out@) + spec_enrich_all(mv, rv.skip(i as int)) =~= spec_enrich_all(
                mv,
                rv,
            ));
        }
    }
    proof {
        assert(spec_enrich_all(mv, rv.skip(i as int)) =~= Seq::<RefView>::empty());
        assert(refs_view(out@) + Seq::<RefView>::empty() =~= refs_view(out@));
    }
    out
}

} // verus!