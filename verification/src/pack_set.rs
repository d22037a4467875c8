//! The pack set: all packs of one run, with lookup by exact name and lookup
//! of the owning pack of a file by longest matching manifest directory.

use vstd::prelude::*;

use crate::pack::Pack;
use crate::strutil;

verus! {

/// All pack names in `packs` are distinct.
pub open spec fn names_unique(packs: Seq<Pack>) -> bool {
    forall|i: int, j: int|
        0 <= i < j < packs.len() ==> (#[trigger] packs[i]).name@ != (#[trigger] packs[j]).name@
}

/// `p` declares itself as a dependency.
pub open spec fn has_self_dependency(p: Pack) -> bool {
    p.dependencies.deep_view().contains(p.name@)
}

/// `file` lies strictly below the directory `rel`.
pub open spec fn path_owns(rel: Seq<char>, file: Seq<char>) -> bool {
    rel.len() < file.len() && file.subrange(0, rel.len() as int) == rel && file[rel.len() as int]
        == '/'
}

/// Some pack's manifest directory is a proper prefix of `file`.
pub open spec fn any_owner(packs: Seq<Pack>, file: Seq<char>) -> bool {
    exists|i: int| 0 <= i < packs.len() && path_owns((#[trigger] packs[i]).relative_path@, file)
}

/// The first pack in `packs` named exactly `name`, if any.
pub open spec fn spec_for_pack(packs: Seq<Pack>, name: Seq<char>) -> Option<Pack>
    decreases packs.len(),
{
    if packs.len() == 0 {
        None
    } else if packs[0].name@ == name {
        Some(packs[0])
    } else {
        spec_for_pack(packs.skip(1), name)
    }
}

/// The pack a name resolves to carries that name and sits in the set.
pub proof fn lemma_spec_for_pack_name(packs: Seq<Pack>, name: Seq<char>)
    ensures
        spec_for_pack(packs, name) matches Some(p) ==> p.name@ == name && exists|i: int|
            0 <= i < packs.len() && #[trigger] packs[i] == p,
        spec_for_pack(packs, name) is Some <==> exists|i: int|
            0 <= i < packs.len() && (#[trigger] packs[i]).name@ == name,
    decreases packs.len(),
{
    if packs.len() == 0 {
    } else {
        lemma_spec_for_pack_name(packs.skip(1), name);
        if packs[0].name@ == name {
            assert(packs[0] == spec_for_pack(packs, name)->0);
        } else {
            if spec_for_pack(packs.skip(1), name) is Some {
                let p = spec_for_pack(packs.skip(1), name)->0;
                let i = choose|i: int| 0 <= i < packs.skip(1).len() && #[trigger] packs.skip(1)[i]
                    == p;
                assert(packs[i + 1] == p);
            }
            assert(forall|i: int|
                0 <= i < packs.skip(1).len() ==> packs.skip(1)[i] == packs[i + 1]);
            if spec_for_pack(packs.skip(1), name) is Some {
                let i = choose|i: int|
                    0 <= i < packs.skip(1).len() && (#[trigger] packs.skip(1)[i]).name@ == name;
                assert(packs[i + 1].name@ == name);
            }
            if exists|i: int| 0 <= i < packs.len() && (#[trigger] packs[i]).name@ == name {
                let i = choose|i: int|
                    0 <= i < packs.len() && (#[trigger] packs[i]).name@ == name;
                assert(packs.skip(1)[i - 1].name@ == name);
            }
        }
    }
}

/// The full collection of packs for one run.
#[derive(Debug)]
pub struct PackSet {
    pub packs: Vec<Pack>,
    /// Pairs of (absolute file path, owning manifest path), as supplied by
    /// the file-discovery collaborator.
    pub owning_package_yml_for_file: Vec<(String, String)>,
}

impl PackSet {
    /// Assembles a pack set, refusing duplicate names and self-dependencies.
    pub fn build(packs: Vec<Pack>, owning_package_yml_for_file: Vec<(String, String)>) -> (r:
        Result<PackSet, String>)
        ensures
            r is Ok <==> (names_unique(packs@) && (forall|i: int|
                0 <= i < packs@.len() ==> !has_self_dependency(#[trigger] packs@[i]))),
            r matches Ok(ps) ==> ps.packs@ == packs@,
    {
        let n = packs.len();
        let mut i: usize = 0;
        while i < n
            invariant
                n == packs@.len(),
                i <= n,
                forall|a: int, b: int|
                    0 <= a < b < i ==> (#[trigger] packs@[a]).name@ != (#[trigger] packs@[b]).name@,
                forall|a: int, b: int|
                    0 <= a < i && a < b < n ==> (#[trigger] packs@[a]).name@ != (
                    #[trigger] packs@[b]).name@,
                forall|a: int| 0 <= a < i ==> !has_self_dependency(#[trigger] packs@[a]),
            decreases n - i,
        {
            if packs[i].has_dependency(packs[i].name.as_str()) {
                proof {
                    assert(has_self_dependency(packs@[i as int]));
                }
                return Err(String::from_str("a pack cannot declare itself as a dependency"));
            }
            let mut j: usize = i + 1;
            while j < n
                invariant
                    n == packs@.len(),
                    i < j <= n,
                    forall|b: int|
                        i < b < j ==> (#[trigger] packs@[b]).name@ != packs@[i as int].name@,
                decreases n - j,
            {
                let a = strutil::str_to_chars(packs[i].name.as_str());
                let b = strutil::str_to_chars(packs[j].name.as_str());
                if strutil::chars_eq(&a, &b) {
                    return Err(String::from_str("pack names must be unique"));
                }
                j = j + 1;
            }
            i = i + 1;
        }
        Ok(PackSet { packs, owning_package_yml_for_file })
    }

    /// The pack named exactly `name`, or an error if no such pack exists.
    pub fn for_pack(&self, name: &str) -> (r: Result<&Pack, String>)
        ensures
            r matches Ok(p) ==> (exists|i: int| 0 <= i < self.packs@.len() && self.packs@[i] == *p)
                && p.name@ == name@ && spec_for_pack(self.packs@, name@) == Some(*p),
            r is Err ==> (forall|i: int|
                0 <= i < self.packs@.len() ==> (#[trigger] self.packs@[i]).name@ != name@)
                && spec_for_pack(self.packs@, name@) is None,
            r is Ok <==> exists|i: int|
                0 <= i < self.packs@.len() && (#[trigger] self.packs@[i]).name@ == name@,
    {
        let mut i: usize = 0;
        let nv = strutil::str_to_chars(name);
        proof {
            assert(self.packs@.skip(0) =~= self.packs@);
        }
        while i < self.packs.len()
            invariant
                i <= self.packs@.len(),
                nv@ == name@,
                forall|j: int| 0 <= j < i ==> (#[trigger] self.packs@[j]).name@ != name@,
                spec_for_pack(self.packs@, name@) == spec_for_pack(
                    self.packs@.skip(i as int),
                    name@,
                ),
            decreases self.packs@.len() - i,
        {
            let ghost rest = self.packs@.skip(i as int);
            proof {
                assert(rest[0] == self.packs@[i as int]);
                assert(rest.skip(1) =~= self.packs@.skip(i + 1));
            }
            let pv = strutil::str_to_chars(self.packs[i].name.as_str());
            if strutil::chars_eq(&pv, &nv) {
                return Ok(&self.packs[i]);
            }
            i = i + 1;
        }
        Err(String::from_str("pack not found"))
    }

    /// The owning pack of `relative_file`: the pack whose manifest directory
    /// is the longest proper prefix of the file's path, falling back to the
    /// root pack `"."` when no directory matches.
    pub fn for_file(&self, relative_file: &str) -> (r: Option<&Pack>)
        ensures
            r matches Some(p) ==> exists|i: int|
                0 <= i < self.packs@.len() && self.packs@[i] == *p,
            any_owner(self.packs@, relative_file@) ==> (r matches Some(p) && path_owns(
                p.relative_path@,
                relative_file@,
            ) && forall|i: int|
                0 <= i < self.packs@.len() && path_owns(
                    (#[trigger] self.packs@[i]).relative_path@,
                    relative_file@,
                ) ==> self.packs@[i].relative_path@.len() <= p.relative_path@.len()),
            !any_owner(self.packs@, relative_file@) ==> ((r is Some <==> exists|i: int|
                0 <= i < self.packs@.len() && (#[trigger] self.packs@[i]).name@ == "."@) && (
            r matches Some(p) ==> p.name@ == "."@)),
    {
        let fv = strutil::str_to_chars(relative_file);
        let mut best: Option<usize> = None;
        let mut i: usize = 0;
        while i < self.packs.len()
            invariant
                i <= self.packs@.len(),
                fv@ == relative_file@,
                best matches Some(b) ==> 0 <= b < i && path_owns(
                    self.packs@[b as int].relative_path@,
                    relative_file@,
                ),
                forall|j: int|
                    0 <= j < i && path_owns(
                        (#[trigger] self.packs@[j]).relative_path@,
                        relative_file@,
                    ) ==> (best matches Some(b) && self.packs@[j].relative_path@.len()
                        <= self.packs@[b as int].relative_path@.len()),
            decreases self.packs@.len() - i,
        {
            let rv = strutil::str_to_chars(self.packs[i].relative_path.as_str());
            let owns: bool = if rv.len() < fv.len() {
                if strutil::chars_starts_with(&fv, &rv) {
                    fv[rv.len()] == '/'
                } else {
                    false
                }
            } else {
                false
            };
            proof {
                assert(owns == path_owns(self.packs@[i as int].relative_path@, relative_file@));
            }
            if owns {
                match best {
                    None => {
                        best = Some(i);
                    },
                    Some(b) => {
                        let bv = strutil::str_to_chars(self.packs[b].relative_path.as_str());
                        if bv.len() < rv.len() {
                            best = Some(i);
                        }
                    },
                }
            }
            i = i + 1;
        }
        match best {
            Some(b) => {
                proof {
                    assert(any_owner(self.packs@, relative_file@));
                }
                Some(&self.packs[b])
            },
            None => {
                proof {
                    assert(!any_owner(self.packs@, relative_file@));
                }
                // nothing owns the file; fall back to the root pack
                match self.for_pack(".") {
                    Ok(p) => Some(p),
                    Err(_) => None,
                }
            },
        }
    }

    /// The name of the owning pack of `relative_file`, if any.
    pub fn owning_pack_name(&self, relative_file: &str) -> (r: Option<String>)
        ensures
            r matches Some(n) ==> exists|i: int|
                0 <= i < self.packs@.len() && (#[trigger] self.packs@[i]).name@ == n@,
            r is Some == ({
                ||| any_owner(self.packs@, relative_file@)
                ||| exists|i: int|
                    0 <= i < self.packs@.len() && (#[trigger] self.packs@[i]).name@ == "."@
            }),
            any_owner(self.packs@, relative_file@) ==> (r matches Some(n) && exists|i: int|
                0 <= i < self.packs@.len() && (#[trigger] self.packs@[i]).name@ == n@ && path_owns(
                    self.packs@[i].relative_path@,
                    relative_file@,
                )),
    {
        match self.for_file(relative_file) {
            Some(p) => {
                let n = p.name.clone();
                proof {
                    assert(exists|i: int|
                        0 <= i < self.packs@.len() && (#[trigger] self.packs@[i]).name@ == n@
                            && self.packs@[i] == *p);
                }
                Some(n)
            },
            None => None,
        }
    }
}

} // verus!
