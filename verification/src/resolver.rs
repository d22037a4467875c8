//! Constant resolution: mapping a symbolic reference to the files defining
//! it. Two interchangeable strategies share the capability: a full
//! cross-file symbol table with ambiguity detection, and a convention-based
//! strategy that infers a defining path from the constant name and accepts
//! the first autoload root under which that path exists.

use vstd::prelude::*;

use crate::processed_file::{ConstantDefinition, ProcessedFile};
use crate::strutil;

verus! {

/// The ghost image of a definition.
pub struct DefView {
    pub fully_qualified_name: Seq<char>,
    pub absolute_path_of_definition: Seq<char>,
    pub location: crate::processed_file::SourceLocation,
}

impl View for ConstantDefinition {
    type V = DefView;

    open spec fn view(&self) -> DefView {
        DefView {
            fully_qualified_name: self.fully_qualified_name@,
            absolute_path_of_definition: self.absolute_path_of_definition@,
            location: self.location,
        }
    }
}

/// The views of a vector of definitions.
pub open spec fn defs_view(v: Seq<ConstantDefinition>) -> Seq<DefView> {
    Seq::new(v.len(), |i: int| v[i]@)
}

/// All definitions of all processed files, in file order then definition
/// order, with the defining file's path attached.
pub open spec fn spec_all_defs(files: Seq<ProcessedFile>) -> Seq<DefView>
    decreases files.len(),
{
    if files.len() == 0 {
        Seq::empty()
    } else {
        Seq::new(
            files[0].definitions@.len(),
            |i: int|
                DefView {
                    fully_qualified_name: files[0].definitions@[i].fully_qualified_name@,
                    absolute_path_of_definition: files[0].absolute_path@,
                    location: files[0].definitions@[i].location,
                },
        ) + spec_all_defs(files.skip(1))
    }
}

/// The full cross-file symbol table: every definition of every processed
/// file.
pub struct ExperimentalResolver {
    pub definitions: Vec<ConstantDefinition>,
}

/// Builds the symbol table of the full cross-file strategy: one
/// `ConstantDefinition` per raw definition, carrying its file's path.
pub fn get_experimental_constant_resolver(processed_files: &Vec<ProcessedFile>) -> (r:
    ExperimentalResolver)
    ensures
        defs_view(r.definitions@) == spec_all_defs(processed_files@),
{
    let mut definitions: Vec<ConstantDefinition> = Vec::new();
    let mut i: usize = 0;
    proof {
        assert(processed_files@.skip(0) =~= processed_files@);
        assert(defs_view(definitions@) + spec_all_defs(processed_files@) =~= spec_all_defs(
            processed_files@,
        ));
    }
    while i < processed_files.len()
        invariant
            i <= processed_files@.len(),
            spec_all_defs(processed_files@) == defs_view(definitions@) + spec_all_defs(
                processed_files@.skip(i as int),
            ),
        decreases processed_files@.len() - i,
    {
        let ghost rest = processed_files@.skip(i as int);
        proof {
            assert(rest[0] == processed_files@[i as int]);
            assert(rest.skip(1) =~= processed_files@.skip(i + 1));
        }
        let file = &processed_files[i];
        let mut j: usize = 0;
        let ghost base = defs_view(definitions@);
        let ghost block = Seq::new(
            file.definitions@.len(),
            |k: int|
                DefView {
                    fully_qualified_name: file.definitions@[k].fully_qualified_name@,
                    absolute_path_of_definition: file.absolute_path@,
                    location: file.definitions@[k].location,
                },
        );
        while j < file.definitions.len()
            invariant
                i < processed_files@.len(),
                file == &processed_files@[i as int],
                j <= file.definitions@.len(),
                base == defs_view(definitions@).take(base.len() as int),
                defs_view(definitions@).len() == base.len() + j,
                block == Seq::new(
                    file.definitions@.len(),
                    |k: int|
                        DefView {
                            fully_qualified_name: file.definitions@[k].fully_qualified_name@,
                            absolute_path_of_definition: file.absolute_path@,
                            location: file.definitions@[k].location,
                        },
                ),
                defs_view(definitions@) == base + block.take(j as int),
            decreases file.definitions@.len() - j,
        {
            let d = &file.definitions[j];
            let ghost prev = defs_view(definitions@);
            definitions.push(
                ConstantDefinition {
                    fully_qualified_name: d.fully_qualified_name.clone(),
                    absolute_path_of_definition: file.absolute_path.clone(),
                    location: d.location,
                },
            );
            j = j + 1;
            proof {
                assert(defs_view(definitions@) =~= prev.push(
                    definitions@[definitions@.len() - 1]@,
                ));
                assert(definitions@[definitions@.len() - 1]@ == block[j - 1]);
                assert(defs_view(definitions@) =~= base + block.take(j as int));
                assert(base =~= defs_view(definitions@).take(base.len() as int));
            }
        }
        i = i + 1;
        proof {
            assert(block.take(file.definitions@.len() as int) =~= block);
            assert(defs_view(definitions@) =~= base + block);
            assert(spec_all_defs(rest) == block + spec_all_defs(processed_files@.skip(i as int)));
            assert(defs_view(definitions@) + spec_all_defs(processed_files@.skip(i as int)) =~= (
            base + block) + spec_all_defs(processed_files@.skip(i as int)));
            assert((base + block) + spec_all_defs(processed_files@.skip(i as int)) =~= base + (
            block + spec_all_defs(processed_files@.skip(i as int))));
        }
    }
    proof {
        assert(spec_all_defs(processed_files@.skip(i as int)) =~= Seq::<DefView>::empty());
        assert(defs_view(definitions@) + Seq::<DefView>::empty() =~= defs_view(definitions@));
    }
    ExperimentalResolver { definitions }
}

impl ExperimentalResolver {
    /// All definitions sharing the fully qualified name, in table order.
    /// A name with more than one entry is ambiguous.
    pub fn definitions_for(&self, fully_qualified_name: &str) -> (r: Vec<ConstantDefinition>)
        ensures
            defs_view(r@) == defs_view(self.definitions@).filter(
                |d: DefView| d.fully_qualified_name == fully_qualified_name@,
            ),
    {
        let ghost all = defs_view(self.definitions@);
        let ghost pred = |d: DefView| d.fully_qualified_name == fully_qualified_name@;
        let mut r: Vec<ConstantDefinition> = Vec::new();
        let mut i: usize = 0;
        proof {
            assert(all.take(0) =~= Seq::<DefView>::empty());
            assert(Seq::<DefView>::empty().filter(pred) =~= Seq::<DefView>::empty());
            assert(defs_view(r@) =~= Seq::<DefView>::empty());
        }
        while i < self.definitions.len()
            invariant
                i <= self.definitions@.len(),
                all == defs_view(self.definitions@),
                pred == (|d: DefView| d.fully_qualified_name == fully_qualified_name@),
                defs_view(r@) == all.take(i as int).filter(pred),
            decreases self.definitions@.len() - i,
        {
            let d = &self.definitions[i];
            proof {
                assert(all.take(i + 1).drop_last() =~= all.take(i as int));
                assert(all.take(i + 1).last() == all[i as int]);
                reveal_with_fuel(Seq::filter, 2);
                assert(all.take(i + 1).filter(pred) == (if pred(all[i as int]) {
                    all.take(i as int).filter(pred).push(all[i as int])
                } else {
                    all.take(i as int).filter(pred)
                }));
            }
            if strutil::str_eq(d.fully_qualified_name.as_str(), fully_qualified_name) {
                let ghost prev = defs_view(r@);
                r.push(d.clone());
                proof {
                    assert(defs_view(r@) =~= prev.push(all[i as int]));
                }
            }
            i = i + 1;
        }
        proof {
            assert(all.take(i as int) =~= all);
        }
        r
    }
}

/// `::`-joined qualification: `::a::b` for parts `[a, b]`.
pub open spec fn join_cc(parts: Seq<Seq<char>>) -> Seq<char>
    decreases parts.len(),
{
    if parts.len() == 0 {
        Seq::empty()
    } else {
        "::"@ + parts[0] + join_cc(parts.skip(1))
    }
}

/// The fully qualified key of `name` inside lexical nesting `nesting`.
pub open spec fn fq_key(nesting: Seq<Seq<char>>, name: Seq<char>) -> Seq<char> {
    join_cc(nesting) + "::"@ + name
}

/// Definitions of `all` named exactly `key`.
pub open spec fn defs_named(all: Seq<DefView>, key: Seq<char>) -> Seq<DefView> {
    all.filter(|d: DefView| d.fully_qualified_name == key)
}

/// The innermost enclosing scope (nesting cut to `k` segments, largest `k`
/// first) whose qualification of `name` has a definition.
pub open spec fn spec_resolved_key(
    all: Seq<DefView>,
    nesting: Seq<Seq<char>>,
    name: Seq<char>,
    k: int,
) -> Option<Seq<char>>
    decreases k + 1,
{
    if k < 0 {
        None
    } else if defs_named(all, fq_key(nesting.take(k), name)).len() > 0 {
        Some(fq_key(nesting.take(k), name))
    } else {
        spec_resolved_key(all, nesting, name, k - 1)
    }
}

fn build_fq_key(nesting: &Vec<String>, upto: usize, name: &str) -> (r: String)
    requires
        upto <= nesting.len(),
    ensures
        r@ == fq_key(nesting.deep_view().take(upto as int), name@),
{
    let ghost nv = nesting.deep_view().take(upto as int);
    let mut s = String::new();
    let mut i: usize = 0;
    proof {
        assert(nv.skip(0) =~= nv);
        assert(Seq::<char>::empty() + join_cc(nv) =~= join_cc(nv));
    }
    while i < upto
        invariant
            i <= upto <= nesting@.len(),
            nv == nesting.deep_view().take(upto as int),
            join_cc(nv) == s@ + join_cc(nv.skip(i as int)),
        decreases upto - i,
    {
        let ghost rest = nv.skip(i as int);
        proof {
            assert(rest[0] == nesting.deep_view()[i as int]);
            assert(rest.skip(1) =~= nv.skip(i + 1));
        }
        s.append("::");
        s.append(nesting[i].as_str());
        i = i + 1;
        proof {
            assert(s@ + join_cc(nv.skip(i as int)) =~= join_cc(nv));
        }
    }
    proof {
        assert(join_cc(nv.skip(i as int)) =~= Seq::<char>::empty());
        assert(s@ + Seq::<char>::empty() =~= s@);
        assert(s@ == join_cc(nv));
    }
    s.append("::");
    s.append(name);
    proof {
        assert(s@ =~= fq_key(nv, name@));
    }
    s
}

/// The name carries an explicit root qualifier.
pub open spec fn is_root_qualified(name: Seq<char>) -> bool {
    name.len() >= 2 && name[0] == ':' && name[1] == ':'
}

/// The outcome of looking a root-qualified name up directly.
pub open spec fn spec_root_resolution(
    all: Seq<DefView>,
    name: Seq<char>,
    r: Option<Vec<ConstantDefinition>>,
) -> bool {
    match r {
        Some(ds) => defs_view(ds@) == defs_named(all, name) && ds@.len() > 0,
        None => defs_named(all, name).len() == 0,
    }
}

impl ExperimentalResolver {
    /// Resolves `name` at a reference site with lexical nesting
    /// `namespace_path` (outermost first): a root-qualified name is looked
    /// up directly; otherwise the nesting is searched from the innermost
    /// scope outwards, and the first scope whose qualified name has any
    /// definition wins; `None` if no scope has one.
    pub fn resolve(&self, name: &str, namespace_path: &Vec<String>) -> (r: Option<
        Vec<ConstantDefinition>,
    >)
        ensures
            is_root_qualified(name@) ==> spec_root_resolution(
                defs_view(self.definitions@),
                name@,
                r,
            ),
            !is_root_qualified(name@) ==> (match spec_resolved_key(
                defs_view(self.definitions@),
                namespace_path.deep_view(),
                name@,
                namespace_path.deep_view().len() as int,
            ) {
                Some(key) => r matches Some(ds) && defs_view(ds@) == defs_named(
                    defs_view(self.definitions@),
                    key,
                ),
                None => r is None,
            }),
    {
        let ghost all = defs_view(self.definitions@);
        let ghost nv = namespace_path.deep_view();
        let nchars = strutil::str_to_chars(name);
        if nchars.len() >= 2 {
            if nchars[0] == ':' && nchars[1] == ':' {
                proof {
                    assert(is_root_qualified(name@));
                }
                let ds = self.definitions_for(name);
                proof {
                    assert(defs_view(ds@) == defs_named(all, name@));
                    assert(defs_view(ds@).len() == ds@.len());
                }
                if ds.len() > 0 {
                    let out = Some(ds);
                    proof {
                        assert(spec_root_resolution(all, name@, out));
                    }
                    return out;
                } else {
                    proof {
                        assert(spec_root_resolution(all, name@, None::<Vec<ConstantDefinition>>));
                    }
                    return None;
                }
            }
        }
        let mut upto: usize = namespace_path.len();
        proof {
            assert(nv.len() == namespace_path@.len());
        }
        loop
            invariant
                !is_root_qualified(name@),
                upto <= namespace_path@.len(),
                nv.len() == namespace_path@.len(),
                all == defs_view(self.definitions@),
                nv == namespace_path.deep_view(),
                spec_resolved_key(all, nv, name@, nv.len() as int) == spec_resolved_key(
                    all,
                    nv,
                    name@,
                    upto as int,
                ),
            decreases upto,
        {
            let key = build_fq_key(namespace_path, upto, name);
            let ds = self.definitions_for(key.as_str());
            proof {
                assert(defs_view(ds@) == defs_named(all, fq_key(nv.take(upto as int), name@)));
            }
            if ds.len() > 0 {
                proof {
                    assert(defs_view(ds@).len() == ds@.len());
                    assert(spec_resolved_key(all, nv, name@, upto as int) == Some(
                        fq_key(nv.take(upto as int), name@),
                    ));
                }
                return Some(ds);
            }
            proof {
                assert(defs_view(ds@).len() == ds@.len());
                assert(spec_resolved_key(all, nv, name@, upto as int) == spec_resolved_key(
                    all,
                    nv,
                    name@,
                    upto - 1,
                ));
            }
            if upto == 0 {
                proof {
                    assert(spec_resolved_key(all, nv, name@, -1) is None);
                }
                return None;
            }
            upto = upto - 1;
        }
    }
}

/// The convention-based (autoload-path) strategy: a constant's defining
/// file is inferred from its name, and the first autoload root under which
/// the inferred path exists on disk wins.
pub struct ZeitwerkResolver {
    /// Autoload root directories with the namespace prefix each maps to
    /// (empty for the root namespace), in search order.
    pub autoload_roots: Vec<(String, String)>,
    /// Acronym overrides: (path segment, properly cased symbol segment).
    pub acronyms: Vec<(String, String)>,
    /// The absolute paths of all included files, as supplied by the file
    /// discovery collaborator.
    pub included_files: Vec<String>,
}

/// An upper-case ASCII letter.
pub open spec fn is_upper(c: char) -> bool {
    'A' <= c && c <= 'Z'
}

/// The lower-case counterpart of an ASCII letter, other characters
/// unchanged.
pub open spec fn lower_char(c: char) -> char {
    if is_upper(c) {
        (((c as u8) + 32) as char)
    } else {
        c
    }
}

/// The tail of snake-case conversion: an underscore before every
/// upper-case letter.
pub open spec fn snake_tail(s: Seq<char>) -> Seq<char>
    decreases s.len(),
{
    if s.len() == 0 {
        Seq::empty()
    } else if is_upper(s[0]) {
        seq!['_', lower_char(s[0])] + snake_tail(s.skip(1))
    } else {
        seq![s[0]] + snake_tail(s.skip(1))
    }
}

/// Snake-case conversion of one symbol segment: `FooBar` to `foo_bar`.
pub open spec fn snake_spec(s: Seq<char>) -> Seq<char> {
    if s.len() == 0 {
        Seq::empty()
    } else {
        seq![lower_char(s[0])] + snake_tail(s.skip(1))
    }
}

/// The path segment of a symbol segment: the acronym override if one is
/// declared for it, else its snake-case form.
pub open spec fn seg_path(acronyms: Seq<(Seq<char>, Seq<char>)>, seg: Seq<char>) -> Seq<char>
    decreases acronyms.len(),
{
    if acronyms.len() == 0 {
        snake_spec(seg)
    } else if acronyms[0].1 == seg {
        acronyms[0].0
    } else {
        seg_path(acronyms.skip(1), seg)
    }
}

/// The relative file path of a constant's segments: path segments joined
/// with `/`.
pub open spec fn path_of(acronyms: Seq<(Seq<char>, Seq<char>)>, segs: Seq<Seq<char>>) -> Seq<char>
    decreases segs.len(),
{
    if segs.len() == 0 {
        Seq::empty()
    } else if segs.len() == 1 {
        seg_path(acronyms, segs[0])
    } else {
        seg_path(acronyms, segs[0]) + "/"@ + path_of(acronyms, segs.skip(1))
    }
}

/// The index of the first `::` in `s`, or `-1`.
pub open spec fn find_cc(s: Seq<char>) -> int
    decreases s.len(),
{
    if s.len() < 2 {
        -1
    } else if s[0] == ':' && s[1] == ':' {
        0
    } else {
        let r = find_cc(s.skip(1));
        if r < 0 {
            -1
        } else {
            r + 1
        }
    }
}

/// The `::`-separated segments of a constant name.
pub open spec fn split_cc(s: Seq<char>) -> Seq<Seq<char>>
    decreases s.len(),
{
    if find_cc(s) < 0 {
        seq![s]
    } else if 0 <= find_cc(s) && find_cc(s) + 2 <= s.len() {
        seq![s.take(find_cc(s))] + split_cc(s.skip(find_cc(s) + 2))
    } else {
        seq![s]
    }
}

/// The name without its root qualifier, if it has one.
pub open spec fn strip_root(name: Seq<char>) -> Seq<char> {
    if name.len() >= 2 && name[0] == ':' && name[1] == ':' {
        name.skip(2)
    } else {
        name
    }
}

/// Whether a root's namespace prefix covers the constant: the root
/// namespace covers everything, a named namespace covers constants below
/// it.
pub open spec fn root_applies(ns: Seq<char>, name_norm: Seq<char>) -> bool {
    ns.len() == 0 || (name_norm.len() > ns.len() + 2 && name_norm.take(ns.len() as int) == ns
        && name_norm[ns.len() as int] == ':' && name_norm[ns.len() + 1int] == ':')
}

/// The constant's name below a root's namespace prefix.
pub open spec fn below_ns(ns: Seq<char>, name_norm: Seq<char>) -> Seq<char> {
    if ns.len() == 0 {
        name_norm
    } else {
        name_norm.skip(ns.len() + 2int)
    }
}

/// The candidate defining file of a constant under one autoload root.
pub open spec fn candidate_path(
    acronyms: Seq<(Seq<char>, Seq<char>)>,
    root: (Seq<char>, Seq<char>),
    name: Seq<char>,
) -> Seq<char> {
    root.0 + "/"@ + path_of(acronyms, split_cc(below_ns(root.1, strip_root(name)))) + ".rb"@
}

/// The first applicable autoload root whose candidate path is an included
/// file.
pub open spec fn spec_zeitwerk_path(
    roots: Seq<(Seq<char>, Seq<char>)>,
    acronyms: Seq<(Seq<char>, Seq<char>)>,
    included: Seq<Seq<char>>,
    name: Seq<char>,
) -> Option<Seq<char>>
    decreases roots.len(),
{
    if roots.len() == 0 {
        None
    } else if root_applies(roots[0].1, strip_root(name)) && included.contains(
        candidate_path(acronyms, roots[0], name),
    ) {
        Some(candidate_path(acronyms, roots[0], name))
    } else {
        spec_zeitwerk_path(roots.skip(1), acronyms, included, name)
    }
}

/// The acronym pairs, viewed.
pub open spec fn acronyms_view(v: Seq<(String, String)>) -> Seq<(Seq<char>, Seq<char>)> {
    Seq::new(v.len(), |i: int| (v[i].0@, v[i].1@))
}

fn find_cc_exec(b: &Vec<char>, j: usize) -> (r: Option<usize>)
    requires
        j <= b.len(),
    ensures
        match r {
            Some(k) => j <= k && k as int - j == find_cc(b@.skip(j as int)) && k + 2 <= b.len(),
            None => find_cc(b@.skip(j as int)) < 0,
        },
    decreases b.len() - j,
{
    let ghost s = b@.skip(j as int);
    if b.len() - j < 2 {
        proof {
            assert(s.len() < 2);
        }
        return None;
    }
    proof {
        assert(s[0] == b@[j as int]);
        assert(s[1] == b@[j + 1]);
        assert(s.skip(1) =~= b@.skip(j + 1));
    }
    if b[j] == ':' && b[j + 1] == ':' {
        Some(j)
    } else {
        match find_cc_exec(b, j + 1) {
            Some(k) => Some(k),
            None => None,
        }
    }
}

fn split_cc_exec(s: &Vec<char>) -> (r: Vec<String>)
    ensures
        r.deep_view() == split_cc(s@),
    decreases s@.len(),
{
    proof {
        assert(s@.skip(0) =~= s@);
    }
    match find_cc_exec(s, 0) {
        None => {
            let mut r: Vec<String> = Vec::new();
            r.push(strutil::chars_to_string(s));
            proof {
                assert(r.deep_view() =~= seq![s@]);
            }
            r
        },
        Some(k) => {
            let head = strutil::chars_take(s, k);
            let tail = strutil::chars_skip(s, k + 2);
            proof {
                assert(tail@.len() < s@.len());
            }
            let rest = split_cc_exec(&tail);
            let mut r: Vec<String> = Vec::new();
            r.push(strutil::chars_to_string(&head));
            proof {
                assert(r.deep_view() =~= seq![head@] + rest.deep_view().take(0));
            }
            let mut m: usize = 0;
            while m < rest.len()
                invariant
                    m <= rest@.len(),
                    head@ == s@.take(find_cc(s@)),
                    r.deep_view() == seq![head@] + rest.deep_view().take(m as int),
                decreases rest@.len() - m,
            {
                let ghost prevdv = r.deep_view();
                r.push(rest[m].clone());
                m = m + 1;
                proof {
                    assert(r.deep_view() =~= prevdv.push(rest.deep_view()[m - 1]));
                    assert(r.deep_view() =~= seq![head@] + rest.deep_view().take(m as int));
                }
            }
            proof {
                assert(rest.deep_view().take(rest.deep_view().len() as int) =~= rest.deep_view());
                assert(r.deep_view() =~= split_cc(s@));
            }
            r
        },
    }
}

fn lower_char_exec(c: char) -> (r: char)
    ensures
        r == lower_char(c),
{
    if c >= 'A' && c <= 'Z' {
        proof {
            assert(is_upper(c));
        }
        ((c as u8) + 32) as char
    } else {
        proof {
            assert(!is_upper(c));
        }
        c
    }
}

fn snake_exec(seg: &str) -> (r: String)
    ensures
        r@ == snake_spec(seg@),
{
    let chars = strutil::str_to_chars(seg);
    let mut out: Vec<char> = Vec::new();
    if chars.len() == 0 {
        return strutil::chars_to_string(&out);
    }
    out.push(lower_char_exec(chars[0]));
    let mut i: usize = 1;
    proof {
        assert(out@ =~= seq![lower_char(seg@[0])]);
        assert(seg@.skip(1).skip(0) =~= seg@.skip(1));
        assert(out@ + snake_tail(seg@.skip(1)) =~= snake_spec(seg@));
    }
    while i < chars.len()
        invariant
            1 <= i <= chars@.len(),
            chars@ == seg@,
            chars@.len() > 0,
            snake_spec(seg@) == out@ + snake_tail(seg@.skip(i as int)),
        decreases chars@.len() - i,
    {
        let ghost rest = seg@.skip(i as int);
        proof {
            assert(rest[0] == seg@[i as int]);
            assert(rest.skip(1) =~= seg@.skip(i + 1));
        }
        let c = chars[i];
        if c >= 'A' && c <= 'Z' {
            out.push('_');
            out.push(lower_char_exec(c));
            proof {
                assert(is_upper(rest[0]));
                assert(out@ + snake_tail(seg@.skip(i + 1)) =~= snake_spec(seg@));
            }
        } else {
            out.push(c);
            proof {
                assert(!is_upper(rest[0]));
                assert(out@ + snake_tail(seg@.skip(i + 1)) =~= snake_spec(seg@));
            }
        }
        i = i + 1;
    }
    proof {
        assert(snake_tail(seg@.skip(i as int)) =~= Seq::<char>::empty());
        assert(out@ + Seq::<char>::empty() =~= out@);
    }
    strutil::chars_to_string(&out)
}

impl ZeitwerkResolver {
    fn seg_path_exec(&self, seg: &str) -> (r: String)
        ensures
            r@ == seg_path(acronyms_view(self.acronyms@), seg@),
    {
        let ghost av = acronyms_view(self.acronyms@);
        let mut i: usize = 0;
        proof {
            assert(av.skip(0) =~= av);
        }
        while i < self.acronyms.len()
            invariant
                i <= av.len(),
                av == acronyms_view(self.acronyms@),
                seg_path(av, seg@) == seg_path(av.skip(i as int), seg@),
            decreases av.len() - i,
        {
            let ghost rest = av.skip(i as int);
            proof {
                assert(rest[0] == av[i as int]);
                assert(rest.skip(1) =~= av.skip(i + 1));
            }
            if strutil::str_eq(self.acronyms[i].1.as_str(), seg) {
                return self.acronyms[i].0.clone();
            }
            i = i + 1;
        }
        proof {
            assert(av.skip(i as int).len() == 0);
        }
        snake_exec(seg)
    }

    fn path_of_exec(&self, segs: &Vec<String>) -> (r: String)
        ensures
            r@ == path_of(acronyms_view(self.acronyms@), segs.deep_view()),
    {
        let ghost av = acronyms_view(self.acronyms@);
        let ghost sv = segs.deep_view();
        let mut s = String::new();
        if segs.len() == 0 {
            return s;
        }
        let first = self.seg_path_exec(segs[0].as_str());
        s.append(first.as_str());
        let mut i: usize = 1;
        proof {
            assert(sv.skip(0) =~= sv);
            if sv.len() == 1 {
                assert(s@ == path_of(av, sv));
            }
        }
        while i < segs.len()
            invariant
                1 <= i <= sv.len(),
                av == acronyms_view(self.acronyms@),
                sv == segs.deep_view(),
                sv.len() > 0,
                path_of(av, sv) == s@ + (if i < sv.len() {
                    "/"@ + path_of(av, sv.skip(i as int))
                } else {
                    Seq::<char>::empty()
                }),
        decreases sv.len() - i,
        {
            let ghost rest = sv.skip(i as int);
            proof {
                assert(rest[0] == sv[i as int]);
                assert(rest.skip(1) =~= sv.skip(i + 1));
            }
            s.append("/");
            let seg = self.seg_path_exec(segs[i].as_str());
            s.append(seg.as_str());
            i = i + 1;
            proof {
                if i < sv.len() {
                    assert(path_of(av, rest) == seg_path(av, rest[0]) + "/"@ + path_of(
                        av,
                        sv.skip(i as int),
                    ));
                    assert(path_of(av, sv) =~= s@ + ("/"@ + path_of(av, sv.skip(i as int))));
                } else {
                    assert(path_of(av, rest) == seg_path(av, rest[0]));
                    assert(path_of(av, sv) =~= s@);
                }
            }
        }
        proof {
            assert(s@ + Seq::<char>::empty() =~= s@);
        }
        s
    }

    /// Resolves `name` by convention: the first autoload root under which
    /// the inferred file path is an included file yields the definition;
    /// the inferred location is the file itself.
    pub fn resolve(&self, name: &str) -> (r: Option<ConstantDefinition>)
        ensures
            (match spec_zeitwerk_path(
                acronyms_view(self.autoload_roots@),
                acronyms_view(self.acronyms@),
                self.included_files.deep_view(),
                name@,
            ) {
                Some(path) => r matches Some(d) && d.absolute_path_of_definition@ == path
                    && d.fully_qualified_name@ == name@,
                None => r is None,
            }),
    {
        let ghost rv = acronyms_view(self.autoload_roots@);
        let ghost av = acronyms_view(self.acronyms@);
        let ghost iv = self.included_files.deep_view();
        let chars = strutil::str_to_chars(name);
        let stripped: Vec<char> = if chars.len() >= 2 {
            if chars[0] == ':' && chars[1] == ':' {
                strutil::chars_skip(&chars, 2)
            } else {
                chars
            }
        } else {
            chars
        };
        proof {
            assert(stripped@ == strip_root(name@));
        }
        let mut i: usize = 0;
        proof {
            assert(rv.skip(0) =~= rv);
        }
        while i < self.autoload_roots.len()
            invariant
                i <= rv.len(),
                rv == acronyms_view(self.autoload_roots@),
                av == acronyms_view(self.acronyms@),
                iv == self.included_files.deep_view(),
                stripped@ == strip_root(name@),
                spec_zeitwerk_path(rv, av, iv, name@) == spec_zeitwerk_path(
                    rv.skip(i as int),
                    av,
                    iv,
                    name@,
                ),
            decreases rv.len() - i,
        {
            let ghost rest = rv.skip(i as int);
            proof {
                assert(rest[0] == rv[i as int]);
                assert(rest.skip(1) =~= rv.skip(i + 1));
            }
            let ns = strutil::str_to_chars(self.autoload_roots[i].1.as_str());
            let applies: bool = if ns.len() == 0 {
                true
            } else if ns.len() < stripped.len() && stripped.len() - ns.len() > 2 {
                if strutil::chars_starts_with(&stripped, &ns) {
                    stripped[ns.len()] == ':' && stripped[ns.len() + 1] == ':'
                } else {
                    false
                }
            } else {
                false
            };
            proof {
                assert(applies == root_applies(rv[i as int].1, strip_root(name@)));
            }
            if applies {
                let remaining: Vec<char> = if ns.len() == 0 {
                    let mut copy: Vec<char> = Vec::new();
                    strutil::append_chars(&mut copy, &stripped);
                    proof {
                        assert(copy@ =~= stripped@);
                    }
                    copy
                } else {
                    strutil::chars_skip(&stripped, ns.len() + 2)
                };
                proof {
                    assert(remaining@ == below_ns(rv[i as int].1, strip_root(name@)));
                }
                let segs = split_cc_exec(&remaining);
                let rel = self.path_of_exec(&segs);
                let mut cand = self.autoload_roots[i].0.clone();
                cand.append("/");
                cand.append(rel.as_str());
                cand.append(".rb");
                proof {
                    assert(cand@ =~= candidate_path(av, rv[i as int], name@));
                }
                if strutil::contains_string(&self.included_files, cand.as_str()) {
                    return Some(
                        ConstantDefinition {
                            fully_qualified_name: String::from_str(name),
                            absolute_path_of_definition: cand,
                            location: crate::processed_file::SourceLocation { line: 1, column: 1 },
                        },
                    );
                }
            }
            i = i + 1;
        }
        None
    }
}

/// One of the two resolution strategies, chosen once per run.
pub enum ConstantResolver {
    Zeitwerk(ZeitwerkResolver),
    Experimental(ExperimentalResolver),
}

/// Lists definitions. Ambiguous-only listing requires the full symbol
/// table: under the convention-based strategy resolution is a
/// deterministic file-existence check and ambiguity cannot occur, so
/// requesting it is a usage error.
pub fn list_definitions(resolver: &ConstantResolver, ambiguous: bool) -> (r: Result<
    Vec<ConstantDefinition>,
    String,
>)
    ensures
        r is Err <==> (ambiguous && resolver is Zeitwerk),
        (match resolver {
            ConstantResolver::Experimental(e) => r matches Ok(ds) ==> (if ambiguous {
                defs_view(ds@) == defs_view(e.definitions@).filter(
                    |d: DefView|
                        defs_named(defs_view(e.definitions@), d.fully_qualified_name).len() > 1,
                )
            } else {
                defs_view(ds@) == defs_view(e.definitions@)
            }),
            ConstantResolver::Zeitwerk(_) => r matches Ok(ds) ==> ds@.len() == 0,
        }),
{
    match resolver {
        ConstantResolver::Zeitwerk(_) => {
            if ambiguous {
                Err(String::from_str("Ambiguous mode is not supported for the Zeitwerk parser"))
            } else {
                Ok(Vec::new())
            }
        },
        ConstantResolver::Experimental(e) => {
            let ghost all = defs_view(e.definitions@);
            let ghost pred = |d: DefView| defs_named(all, d.fully_qualified_name).len() > 1;
            let mut out: Vec<ConstantDefinition> = Vec::new();
            if !ambiguous {
                let mut i: usize = 0;
                while i < e.definitions.len()
                    invariant
                        i <= e.definitions@.len(),
                        all == defs_view(e.definitions@),
                        defs_view(out@) == all.take(i as int),
                    decreases e.definitions@.len() - i,
                {
                    let ghost prev = defs_view(out@);
                    out.push(e.definitions[i].clone());
                    i = i + 1;
                    proof {
                        assert(defs_view(out@) =~= prev.push(all[i - 1]));
                        assert(defs_view(out@) =~= all.take(i as int));
                    }
                }
                proof {
                    assert(all.take(i as int) =~= all);
                }
                return Ok(out);
            }
            let mut i: usize = 0;
            proof {
                assert(all.take(0) =~= Seq::<DefView>::empty());
                assert(Seq::<DefView>::empty().filter(pred) =~= Seq::<DefView>::empty());
                assert(defs_view(out@) =~= Seq::<DefView>::empty());
            }
            while i < e.definitions.len()
                invariant
                    i <= e.definitions@.len(),
                    all == defs_view(e.definitions@),
                    pred == (|d: DefView| defs_named(all, d.fully_qualified_name).len() > 1),
                    defs_view(out@) == all.take(i as int).filter(pred),
                decreases e.definitions@.len() - i,
            {
                let d = &e.definitions[i];
                proof {
                    assert(all.take(i + 1).drop_last() =~= all.take(i as int));
                    assert(all.take(i + 1).last() == all[i as int]);
                    reveal_with_fuel(Seq::filter, 2);
                    assert(all.take(i + 1).filter(pred) == (if pred(all[i as int]) {
                        all.take(i as int).filter(pred).push(all[i as int])
                    } else {
                        all.take(i as int).filter(pred)
                    }));
                }
                let same = e.definitions_for(d.fully_qualified_name.as_str());
                proof {
                    assert(defs_view(same@) == defs_named(all, all[i as int].fully_qualified_name));
                    assert(same@.len() == defs_view(same@).len());
                }
                if same.len() > 1 {
                    let ghost prev = defs_view(out@);
                    out.push(d.clone());
                    proof {
                        assert(defs_view(out@) =~= prev.push(all[i as int]));
                    }
                }
                i = i + 1;
            }
            proof {
                assert(all.take(i as int) =~= all);
            }
            Ok(out)
        },
    }
}

} // verus!
