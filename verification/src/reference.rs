//! One observed use of a symbol, enriched with the packs that own the
//! referencing and the defining file.

use vstd::prelude::*;

use crate::processed_file::SourceLocation;

verus! {

/// One reference, after enrichment with pack ownership.
#[derive(Debug)]
pub struct Reference {
    pub constant_name: String,
    pub defining_pack_name: Option<String>,
    pub relative_defining_file: Option<String>,
    pub referencing_pack_name: String,
    pub relative_referencing_file: String,
    pub source_location: SourceLocation,
}

impl Clone for Reference {
    fn clone(&self) -> (res: Self)
        ensures
            res.constant_name@ == self.constant_name@,
            crate::pack::opt_view(res.defining_pack_name) == crate::pack::opt_view(
                self.defining_pack_name,
            ),
            crate::pack::opt_view(res.relative_defining_file) == crate::pack::opt_view(
                self.relative_defining_file,
            ),
            res.referencing_pack_name@ == self.referencing_pack_name@,
            res.relative_referencing_file@ == self.relative_referencing_file@,
            res.source_location == self.source_location,
    {
        Reference {
            constant_name: self.constant_name.clone(),
            defining_pack_name: match &self.defining_pack_name {
                Some(s) => Some(s.clone()),
                None => None,
            },
            relative_defining_file: match &self.relative_defining_file {
                Some(s) => Some(s.clone()),
                None => None,
            },
            referencing_pack_name: self.referencing_pack_name.clone(),
            relative_referencing_file: self.relative_referencing_file.clone(),
            source_location: self.source_location,
        }
    }
}

} // verus!
