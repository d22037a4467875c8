//! The dependency graph: detection of declared-but-unused dependency
//! edges, and validation that every declared dependency resolves and that
//! the graph is acyclic.

use vstd::prelude::*;

use crate::configuration::Configuration;
use crate::pack::Pack;
use crate::pack_set::spec_for_pack;
use crate::reference::Reference;
use crate::strutil;

verus! {

/// A resolved reference from pack `a` to pack `b` exists.
pub open spec fn edge_used(refs: Seq<Reference>, a: Seq<char>, b: Seq<char>) -> bool {
    exists|i: int|
        0 <= i < refs.len() && (#[trigger] refs[i]).referencing_pack_name@ == a && crate::pack::opt_view(
            refs[i].defining_pack_name,
        ) == Some(b)
}

/// The dependency edge `(p, d)` of the configuration: pack index and
/// dependency index.
pub open spec fn dep_of(config: Configuration, p: int, d: int) -> Seq<char> {
    config.pack_set.packs@[p].dependencies.deep_view()[d]
}

/// The edge indices name a declared dependency.
pub open spec fn dep_index_ok(config: Configuration, p: int, d: int) -> bool {
    0 <= p < config.pack_set.packs@.len() && 0 <= d < config.pack_set.packs@[p].dependencies.deep_view().len()
}

/// `(from, to)` occurs among the views of `v`.
pub open spec fn contains_pair(v: Seq<(Seq<char>, Seq<char>)>, from: Seq<char>, to: Seq<char>) -> bool {
    exists|k: int| 0 <= k < v.len() && #[trigger] v[k] == (from, to)
}

/// The views of a vector of name pairs.
pub open spec fn pairs_view(v: Seq<(String, String)>) -> Seq<(Seq<char>, Seq<char>)> {
    Seq::new(v.len(), |i: int| (v[i].0@, v[i].1@))
}

/// `pr` is a declared dependency edge that no resolved reference uses.
pub open spec fn is_unused_pair(
    config: Configuration,
    refs: Seq<Reference>,
    pr: (Seq<char>, Seq<char>),
) -> bool {
    exists|p: int, d: int|
        dep_index_ok(config, p, d) && !edge_used(
            refs,
            config.pack_set.packs@[p].name@,
            #[trigger] dep_of(config, p, d),
        ) && pr == (config.pack_set.packs@[p].name@, dep_of(config, p, d))
}

fn edge_used_exec(references: &Vec<Reference>, a: &str, b: &str) -> (r: bool)
    ensures
        r == edge_used(references@, a@, b@),
{
    let mut i: usize = 0;
    while i < references.len()
        invariant
            i <= references@.len(),
            forall|i2: int|
                0 <= i2 < i ==> !((#[trigger] references@[i2]).referencing_pack_name@ == a@
                    && crate::pack::opt_view(references@[i2].defining_pack_name) == Some(b@)),
        decreases references@.len() - i,
    {
        let refr = &references[i];
        if strutil::str_eq(refr.referencing_pack_name.as_str(), a) {
            match &refr.defining_pack_name {
                Some(n) => {
                    if strutil::str_eq(n.as_str(), b) {
                        proof {
                            assert(references@[i as int].referencing_pack_name@ == a@
                                && crate::pack::opt_view(references@[i as int].defining_pack_name)
                                == Some(b@));
                        }
                        return true;
                    }
                },
                None => {},
            }
        }
        i = i + 1;
    }
    false
}

/// Every declared dependency edge `(A, B)` such that no resolved reference
/// from A targets B, as `(A, B)` name pairs, in pack order then declaration
/// order.
pub fn check_unnecessary_dependencies(configuration: &Configuration, references: &Vec<Reference>) -> (r: Vec<(String, String)>)
    ensures
        forall|k: int|
            0 <= k < pairs_view(r@).len() ==> is_unused_pair(
                *configuration,
                references@,
                #[trigger] pairs_view(r@)[k],
            ),
        forall|p: int, d: int|
            dep_index_ok(*configuration, p, d) && !edge_used(
                references@,
                configuration.pack_set.packs@[p].name@,
                #[trigger] dep_of(*configuration, p, d),
            ) ==> contains_pair(
                pairs_view(r@),
                configuration.pack_set.packs@[p].name@,
                dep_of(*configuration, p, d),
            ),
{
    let ghost config = *configuration;
    let ghost refs = references@;
    let mut out: Vec<(String, String)> = Vec::new();
    let mut p: usize = 0;
    while p < configuration.pack_set.packs.len()
        invariant
            p <= config.pack_set.packs@.len(),
            config == *configuration,
            refs == references@,
            forall|k: int|
                0 <= k < pairs_view(out@).len() ==> is_unused_pair(
                    config,
                    refs,
                    #[trigger] pairs_view(out@)[k],
                ),
            forall|p2: int, d2: int|
                0 <= p2 < p && 0 <= d2 < config.pack_set.packs@[p2].dependencies.deep_view().len()
                    && !edge_used(
                    refs,
                    config.pack_set.packs@[p2].name@,
                    #[trigger] dep_of(config, p2, d2),
                ) ==> contains_pair(
                    pairs_view(out@),
                    config.pack_set.packs@[p2].name@,
                    dep_of(config, p2, d2),
                ),
        decreases config.pack_set.packs@.len() - p,
    {
        let pack = &configuration.pack_set.packs[p];
        let mut d: usize = 0;
        while d < pack.dependencies.len()
            invariant
                p < config.pack_set.packs@.len(),
                pack == &config.pack_set.packs@[p as int],
                d <= pack.dependencies@.len(),
                config == *configuration,
                refs == references@,
                forall|k: int|
                    0 <= k < pairs_view(out@).len() ==> is_unused_pair(
                        config,
                        refs,
                        #[trigger] pairs_view(out@)[k],
                    ),
                forall|p2: int, d2: int|
                    0 <= p2 < p && 0 <= d2 < config.pack_set.packs@[p2].dependencies.deep_view().len()
                        && !edge_used(
                        refs,
                        config.pack_set.packs@[p2].name@,
                        #[trigger] dep_of(config, p2, d2),
                    ) ==> contains_pair(
                        pairs_view(out@),
                        config.pack_set.packs@[p2].name@,
                        dep_of(config, p2, d2),
                    ),
                forall|d2: int|
                    0 <= d2 < d && !edge_used(
                        refs,
                        config.pack_set.packs@[p as int].name@,
                        #[trigger] dep_of(config, p as int, d2),
                    ) ==> contains_pair(
                        pairs_view(out@),
                        config.pack_set.packs@[p as int].name@,
                        dep_of(config, p as int, d2),
                    ),
            decreases pack.dependencies@.len() - d,
        {
            let dep = &pack.dependencies[d];
            proof {
                assert(dep_of(config, p as int, d as int) == dep@);
            }
            if !edge_used_exec(references, pack.name.as_str(), dep.as_str()) {
                let ghost prev = pairs_view(out@);
                out.push((pack.name.clone(), dep.clone()));
                proof {
                    assert(pairs_view(out@) =~= prev.push((pack.name@, dep@)));
                    assert(pairs_view(out@)[prev.len() as int] == (
                        config.pack_set.packs@[p as int].name@,
                        dep_of(config, p as int, d as int),
                    ));
                    assert(dep_index_ok(config, p as int, d as int));
                    assert forall|k: int| 0 <= k < pairs_view(out@).len() implies is_unused_pair(
                        config,
                        refs,
                        #[trigger] pairs_view(out@)[k],
                    ) by {
                        if k < prev.len() {
                            assert(pairs_view(out@)[k] == prev[k]);
                        } else {
                            assert(pairs_view(out@)[k] == (
                                config.pack_set.packs@[p as int].name@,
                                dep_of(config, p as int, d as int),
                            ));
                        }
                    }
                    assert forall|p2: int, d2: int|
                        0 <= p2 < p && 0 <= d2 < config.pack_set.packs@[p2].dependencies.deep_view().len()
                            && !edge_used(
                            refs,
                            config.pack_set.packs@[p2].name@,
                            #[trigger] dep_of(config, p2, d2),
                        ) implies contains_pair(
                        pairs_view(out@),
                        config.pack_set.packs@[p2].name@,
                        dep_of(config, p2, d2),
                    ) by {
                        let k = choose|k: int|
                            0 <= k < prev.len() && #[trigger] prev[k] == (
                                config.pack_set.packs@[p2].name@,
                                dep_of(config, p2, d2),
                            );
                        assert(pairs_view(out@)[k] == prev[k]);
                    }
                    assert forall|d2: int|
                        0 <= d2 < d + 1 && !edge_used(
                            refs,
                            config.pack_set.packs@[p as int].name@,
                            #[trigger] dep_of(config, p as int, d2),
                        ) implies contains_pair(
                        pairs_view(out@),
                        config.pack_set.packs@[p as int].name@,
                        dep_of(config, p as int, d2),
                    ) by {
                        if d2 < d {
                            let k = choose|k: int|
                                0 <= k < prev.len() && #[trigger] prev[k] == (
                                    config.pack_set.packs@[p as int].name@,
                                    dep_of(config, p as int, d2),
                                );
                            assert(pairs_view(out@)[k] == prev[k]);
                        } else {
                            assert(pairs_view(out@)[prev.len() as int] == (
                                config.pack_set.packs@[p as int].name@,
                                dep_of(config, p as int, d2),
                            ));
                        }
                    }
                }
            }
            d = d + 1;
        }
        p = p + 1;
    }
    out
}

/// The dependencies of `pack` that some resolved reference actually uses,
/// in declaration order: the auto-correct result for one pack.
pub fn used_dependencies(pack: &Pack, references: &Vec<Reference>) -> (r: Vec<String>)
    ensures
        r.deep_view() == pack.dependencies.deep_view().filter(
            |d: Seq<char>| edge_used(references@, pack.name@, d),
        ),
{
    let ghost all = pack.dependencies.deep_view();
    let ghost pred = |dn: Seq<char>| edge_used(references@, pack.name@, dn);
    let mut r: Vec<String> = Vec::new();
    let mut d: usize = 0;
    proof {
        assert(all.take(0) =~= Seq::<Seq<char>>::empty());
        assert(Seq::<Seq<char>>::empty().filter(pred) =~= Seq::<Seq<char>>::empty());
        assert(r.deep_view() =~= Seq::<Seq<char>>::empty());
    }
    while d < pack.dependencies.len()
        invariant
            d <= all.len(),
            all == pack.dependencies.deep_view(),
            pred == (|dn: Seq<char>| edge_used(references@, pack.name@, dn)),
            r.deep_view() == all.take(d as int).filter(pred),
        decreases all.len() - d,
    {
        proof {
            assert(all.take(d + 1).drop_last() =~= all.take(d as int));
            assert(all.take(d + 1).last() == all[d as int]);
            reveal_with_fuel(Seq::filter, 2);
            assert(all.take(d + 1).filter(pred) == (if pred(all[d as int]) {
                all.take(d as int).filter(pred).push(all[d as int])
            } else {
                all.take(d as int).filter(pred)
            }));
        }
        if edge_used_exec(references, pack.name.as_str(), pack.dependencies[d].as_str()) {
            let ghost prev = r.deep_view();
            r.push(pack.dependencies[d].clone());
            proof {
                assert(r.deep_view() =~= prev.push(all[d as int]));
            }
        }
        d = d + 1;
    }
    proof {
        assert(all.take(d as int) =~= all);
    }
    r
}

/// Some resolved reference to `constant` runs from pack `from` to pack
/// `to`, crossing the boundary, and `from` does not yet declare `to`.
pub open spec fn needs_dependency(
    config: Configuration,
    refs: Seq<Reference>,
    constant: Seq<char>,
    from: Seq<char>,
    to: Seq<char>,
) -> bool {
    &&& exists|i: int|
        0 <= i < refs.len() && (#[trigger] refs[i]).constant_name@ == constant && refs[
            i
        ].referencing_pack_name@ == from && crate::pack::opt_view(refs[i].defining_pack_name)
            == Some(to)
    &&& from != to
    &&& (match spec_for_pack(config.pack_set.packs@, from) {
        Some(p) => !p.dependencies.deep_view().contains(to),
        None => false,
    })
}

/// The dependency edges that following `constant_name` demands: one
/// `(referencing pack, defining pack)` pair per missing declaration, first
/// occurrence order, without duplicates. The manifest persistence
/// collaborator appends each edge to the referencing pack's manifest.
pub fn update_dependencies_for_constant(
    configuration: &Configuration,
    references: &Vec<Reference>,
    constant_name: &str,
) -> (r: Vec<(String, String)>)
    ensures
        forall|k: int|
            0 <= k < pairs_view(r@).len() ==> needs_dependency(
                *configuration,
                references@,
                constant_name@,
                (#[trigger] pairs_view(r@)[k]).0,
                pairs_view(r@)[k].1,
            ),
        forall|from: Seq<char>, to: Seq<char>|
            needs_dependency(*configuration, references@, constant_name@, from, to)
                ==> #[trigger] contains_pair(pairs_view(r@), from, to),
        forall|k1: int, k2: int|
            0 <= k1 < k2 < pairs_view(r@).len() ==> #[trigger] pairs_view(r@)[k1]
                != #[trigger] pairs_view(r@)[k2],
{
    let ghost config = *configuration;
    let ghost refs = references@;
    let mut out: Vec<(String, String)> = Vec::new();
    let mut i: usize = 0;
    while i < references.len()
        invariant
            i <= refs.len(),
            config == *configuration,
            refs == references@,
            forall|k: int|
                0 <= k < pairs_view(out@).len() ==> needs_dependency(
                    config,
                    refs,
                    constant_name@,
                    (#[trigger] pairs_view(out@)[k]).0,
                    pairs_view(out@)[k].1,
                ),
            forall|i2: int|
                0 <= i2 < i && (#[trigger] refs[i2]).constant_name@ == constant_name@ && (
                match crate::pack::opt_view(refs[i2].defining_pack_name) {
                    Some(to) => needs_dependency(
                        config,
                        refs,
                        constant_name@,
                        refs[i2].referencing_pack_name@,
                        to,
                    ),
                    None => false,
                }) ==> contains_pair(
                    pairs_view(out@),
                    refs[i2].referencing_pack_name@,
                    crate::pack::opt_view(refs[i2].defining_pack_name)->0,
                ),
            forall|k1: int, k2: int|
                0 <= k1 < k2 < pairs_view(out@).len() ==> #[trigger] pairs_view(out@)[k1]
                    != #[trigger] pairs_view(out@)[k2],
        decreases refs.len() - i,
    {
        let refr = &references[i];
        let mut interesting = false;
        if strutil::str_eq(refr.constant_name.as_str(), constant_name) {
            interesting = true;
        }
        if interesting {
            match &refr.defining_pack_name {
                Some(to) => {
                    let from = &refr.referencing_pack_name;
                    if !strutil::str_eq(from.as_str(), to.as_str()) {
                        match configuration.pack_set.for_pack(from.as_str()) {
                            Ok(p) => {
                                if !p.has_dependency(to.as_str()) {
                                    proof {
                                        assert(refs[i as int].constant_name@ == constant_name@
                                            && refs[i as int].referencing_pack_name@ == from@
                                            && crate::pack::opt_view(
                                            refs[i as int].defining_pack_name,
                                        ) == Some(to@));
                                        assert(needs_dependency(
                                            config,
                                            refs,
                                            constant_name@,
                                            from@,
                                            to@,
                                        ));
                                    }
                                    // keep the first occurrence only
                                    let mut seen = false;
                                    let mut k: usize = 0;
                                    while k < out.len() && !seen
                                        invariant
                                            k <= out@.len(),
                                            !seen ==> forall|k2: int|
                                                0 <= k2 < k ==> #[trigger] pairs_view(out@)[k2]
                                                    != (from@, to@),
                                            seen ==> contains_pair(pairs_view(out@), from@, to@),
                                        decreases
                                                (if seen {
                                                    0int
                                                } else {
                                                    1int
                                                }),
                                                out@.len() - k,
                                    {
                                        if strutil::str_eq(out[k].0.as_str(), from.as_str())
                                            && strutil::str_eq(out[k].1.as_str(), to.as_str()) {
                                            proof {
                                                assert(pairs_view(out@)[k as int] == (from@, to@));
                                            }
                                            seen = true;
                                        } else {
                                            proof {
                                                assert(pairs_view(out@)[k as int] != (from@, to@));
                                            }
                                            k = k + 1;
                                        }
                                    }
                                    if !seen {
                                        let ghost prev = pairs_view(out@);
                                        out.push((from.clone(), to.clone()));
                                        proof {
                                            assert(pairs_view(out@) =~= prev.push((from@, to@)));
                                            assert(pairs_view(out@)[prev.len() as int] == (
                                                from@,
                                                to@,
                                            ));
                                            assert forall|i2: int|
                                                0 <= i2 < i && (#[trigger] refs[i2]).constant_name@
                                                    == constant_name@ && (
                                                match crate::pack::opt_view(
                                                    refs[i2].defining_pack_name,
                                                ) {
                                                    Some(to2) => needs_dependency(
                                                        config,
                                                        refs,
                                                        constant_name@,
                                                        refs[i2].referencing_pack_name@,
                                                        to2,
                                                    ),
                                                    None => false,
                                                }) implies contains_pair(
                                                pairs_view(out@),
                                                refs[i2].referencing_pack_name@,
                                                crate::pack::opt_view(
                                                    refs[i2].defining_pack_name,
                                                )->0,
                                            ) by {
                                                let kk = choose|kk: int|
                                                    0 <= kk < prev.len() && #[trigger] prev[kk]
                                                        == (
                                                        refs[i2].referencing_pack_name@,
                                                        crate::pack::opt_view(
                                                            refs[i2].defining_pack_name,
                                                        )->0,
                                                    );
                                                assert(pairs_view(out@)[kk] == prev[kk]);
                                            }
                                        }
                                    }
                                }
                            },
                            Err(_) => {},
                        }
                    }
                },
                None => {},
            }
        }
        i = i + 1;
    }
    proof {
        assert forall|from: Seq<char>, to: Seq<char>|
            needs_dependency(config, refs, constant_name@, from, to) implies
            #[trigger] contains_pair(pairs_view(out@), from, to) by {
            let i2 = choose|i2: int|
                0 <= i2 < refs.len() && (#[trigger] refs[i2]).constant_name@ == constant_name@
                    && refs[i2].referencing_pack_name@ == from && crate::pack::opt_view(
                    refs[i2].defining_pack_name,
                ) == Some(to);
        }
    }
    out
}

/// The dependency name at edge `(p, d)` of a pack sequence.
pub open spec fn dep_name(packs: Seq<Pack>, p: int, d: int) -> Seq<char> {
    packs[p].dependencies.deep_view()[d]
}

/// A ranking witnesses acyclicity: along every resolving dependency edge
/// the rank strictly decreases. A finite graph has such a ranking exactly
/// when no walk along dependency edges revisits a pack.
pub open spec fn ranking_ok(packs: Seq<Pack>, rk: Map<Seq<char>, int>) -> bool {
    forall|p: int, d: int|
        0 <= p < packs.len() && 0 <= d < packs[p].dependencies.deep_view().len() && spec_for_pack(
            packs,
            #[trigger] dep_name(packs, p, d),
        ) is Some ==> rk[dep_name(packs, p, d)] < rk[packs[p].name@]
}

/// The graph is acyclic: some ranking decreases along every edge.
pub open spec fn spec_acyclic(packs: Seq<Pack>) -> bool {
    exists|rk: Map<Seq<char>, int>| ranking_ok(packs, rk)
}

/// All declared dependency names resolve to packs.
pub open spec fn all_deps_resolve(packs: Seq<Pack>) -> bool {
    forall|p: int, d: int|
        0 <= p < packs.len() && 0 <= d < packs[p].dependencies.deep_view().len() ==> spec_for_pack(
            packs,
            #[trigger] dep_name(packs, p, d),
        ) is Some
}

/// The indices below `n` that are not marked in `ranked`, in order.
pub open spec fn unranked_indices(ranked: Seq<bool>, n: int) -> Seq<int>
    decreases n,
{
    if n <= 0 {
        Seq::empty()
    } else if ranked[n - 1] {
        unranked_indices(ranked, n - 1)
    } else {
        unranked_indices(ranked, n - 1).push(n - 1)
    }
}

proof fn lemma_unranked_props(ranked: Seq<bool>, n: int)
    requires
        0 <= n <= ranked.len(),
    ensures
        forall|k: int|
            0 <= k < unranked_indices(ranked, n).len() ==> 0 <= #[trigger] unranked_indices(
                ranked,
                n,
            )[k] < n && !ranked[unranked_indices(ranked, n)[k]],
        forall|x: int|
            0 <= x < n && !ranked[x] ==> #[trigger] unranked_indices(ranked, n).contains(x),
    decreases n,
{
    if n > 0 {
        lemma_unranked_props(ranked, n - 1);
        let sub = unranked_indices(ranked, n - 1);
        let cur = unranked_indices(ranked, n);
        assert forall|x: int| 0 <= x < n && !ranked[x] implies #[trigger] cur.contains(x) by {
            if x < n - 1 {
                assert(sub.contains(x));
                let k = choose|k: int| 0 <= k < sub.len() && sub[k] == x;
                assert(cur[k] == x);
            } else {
                assert(cur[cur.len() - 1] == x);
            }
        }
    }
}

proof fn lemma_unranked_update(ranked: Seq<bool>, n: int, xp: int)
    requires
        0 <= xp < n <= ranked.len(),
        !ranked[xp],
    ensures
        unranked_indices(ranked.update(xp, true), n).len() == unranked_indices(ranked, n).len()
            - 1,
    decreases n,
{
    let upd = ranked.update(xp, true);
    if n - 1 == xp {
        assert(upd[n - 1]);
        assert(unranked_indices(upd, n) == unranked_indices(upd, n - 1));
        assert(unranked_indices(upd, n - 1) =~= unranked_indices(ranked, n - 1)) by {
            lemma_unranked_same(ranked, upd, n - 1);
        }
    } else {
        lemma_unranked_update(ranked, n - 1, xp);
        assert(upd[n - 1] == ranked[n - 1]);
    }
}

proof fn lemma_unranked_same(a: Seq<bool>, b: Seq<bool>, n: int)
    requires
        0 <= n <= a.len(),
        n <= b.len(),
        forall|i: int| 0 <= i < n ==> a[i] == b[i],
    ensures
        unranked_indices(a, n) == unranked_indices(b, n),
    decreases n,
{
    if n > 0 {
        lemma_unranked_same(a, b, n - 1);
    }
}

/// A nonempty sequence of integers has a minimal element.
proof fn lemma_seq_min(vals: Seq<int>) -> (k0: int)
    requires
        vals.len() > 0,
    ensures
        0 <= k0 < vals.len(),
        forall|k: int| 0 <= k < vals.len() ==> vals[k0] <= #[trigger] vals[k],
    decreases vals.len(),
{
    if vals.len() == 1 {
        0
    } else {
        let dl = vals.drop_last();
        let krest = lemma_seq_min(dl);
        assert(forall|k: int| 0 <= k < dl.len() ==> #[trigger] dl[k] == vals[k]);
        if vals.last() < dl[krest] {
            let k0 = vals.len() - 1;
            assert forall|k: int| 0 <= k < vals.len() implies vals[k0] <= #[trigger] vals[k] by {
                if k < vals.len() - 1 {
                    assert(vals[k] == dl[k]);
                    assert(dl[krest] <= dl[k]);
                }
            }
            k0
        } else {
            assert forall|k: int| 0 <= k < vals.len() implies vals[krest] <= #[trigger] vals[k] by {
                if k < vals.len() - 1 {
                    assert(vals[k] == dl[k]);
                    assert(dl[krest] <= dl[k]);
                }
            }
            krest
        }
    }
}

/// Every member of `stuck` is a pack index with a dependency edge into
/// `stuck` itself.
pub open spec fn stuck_member_ok(packs: Seq<Pack>, stuck: Seq<int>, k: int) -> bool {
    0 <= stuck[k] < packs.len() && exists|d: int, m: int|
        #![trigger dep_name(packs, stuck[k], d), stuck[m]]
        0 <= d < packs[stuck[k]].dependencies.deep_view().len() && 0 <= m < stuck.len()
            && spec_for_pack(packs, dep_name(packs, stuck[k], d)) is Some && dep_name(
            packs,
            stuck[k],
            d,
        ) == packs[stuck[m]].name@
}

/// A set of packs each of which depends on another member of the set
/// admits no ranking: the member with the smallest rank would need a
/// dependency of yet smaller rank inside the set.
proof fn lemma_stuck_no_ranking(packs: Seq<Pack>, stuck: Seq<int>)
    requires
        stuck.len() > 0,
        forall|k: int| 0 <= k < stuck.len() ==> #[trigger] stuck_member_ok(packs, stuck, k),
    ensures
        !spec_acyclic(packs),
{
    if spec_acyclic(packs) {
        let rk = choose|rk: Map<Seq<char>, int>| ranking_ok(packs, rk);
        let vals = Seq::new(stuck.len(), |k: int| rk[packs[stuck[k]].name@]);
        let k0 = lemma_seq_min(vals);
        assert(stuck_member_ok(packs, stuck, k0));
        let (d, m) = choose|d: int, m: int|
            #![trigger dep_name(packs, stuck[k0], d), stuck[m]]
            0 <= d < packs[stuck[k0]].dependencies.deep_view().len() && 0 <= m < stuck.len()
                && spec_for_pack(packs, dep_name(packs, stuck[k0], d)) is Some
                && dep_name(packs, stuck[k0], d) == packs[stuck[m]].name@;
        assert(rk[dep_name(packs, stuck[k0], d)] < rk[packs[stuck[k0]].name@]);
        assert(vals[m] < vals[k0]);
        assert(false);
    }
}

fn find_pack_index(packs: &Vec<Pack>, name: &str) -> (r: Option<usize>)
    ensures
        match r {
            Some(i) => i < packs@.len() && packs@[i as int].name@ == name@,
            None => forall|i: int|
                0 <= i < packs@.len() ==> (#[trigger] packs@[i]).name@ != name@,
        },
        r is Some <==> spec_for_pack(packs@, name@) is Some,
{
    proof {
        crate::pack_set::lemma_spec_for_pack_name(packs@, name@);
    }
    let mut i: usize = 0;
    while i < packs.len()
        invariant
            i <= packs@.len(),
            forall|j: int| 0 <= j < i ==> (#[trigger] packs@[j]).name@ != name@,
        decreases packs@.len() - i,
    {
        if strutil::str_eq(packs[i].name.as_str(), name) {
            proof {
                crate::pack_set::lemma_spec_for_pack_name(packs@, name@);
            }
            return Some(i);
        }
        i = i + 1;
    }
    proof {
        crate::pack_set::lemma_spec_for_pack_name(packs@, name@);
    }
    None
}

/// An unranked pack all of whose dependency targets are ranked, if any.
fn find_candidate(packs: &Vec<Pack>, ranked: &Vec<bool>) -> (r: Option<usize>)
    requires
        ranked@.len() == packs@.len(),
        all_deps_resolve(packs@),
        crate::pack_set::names_unique(packs@),
    ensures
        match r {
            Some(x) => x < packs@.len() && !ranked@[x as int] && forall|d: int, m: int|
                0 <= d < packs@[x as int].dependencies.deep_view().len() && 0 <= m < packs@.len()
                    && (#[trigger] packs@[m]).name@ == #[trigger] dep_name(packs@, x as int, d)
                    ==> ranked@[m],
            None => forall|x2: int|
                0 <= x2 < packs@.len() && !(#[trigger] ranked@[x2]) ==> exists|d: int, m: int|
                    0 <= d < packs@[x2].dependencies.deep_view().len() && 0 <= m < packs@.len()
                        && !ranked@[m] && spec_for_pack(packs@, dep_name(packs@, x2, d)) is Some
                        && dep_name(packs@, x2, d) == packs@[m].name@,
        },
{
    let n = packs.len();
    let mut x: usize = 0;
    while x < n
        invariant
            n == packs@.len(),
            ranked@.len() == n,
            all_deps_resolve(packs@),
            crate::pack_set::names_unique(packs@),
            x <= n,
            forall|x2: int|
                0 <= x2 < x && !(#[trigger] ranked@[x2]) ==> exists|d: int, m: int|
                    0 <= d < packs@[x2].dependencies.deep_view().len() && 0 <= m < packs@.len()
                        && !ranked@[m] && spec_for_pack(packs@, dep_name(packs@, x2, d)) is Some
                        && dep_name(packs@, x2, d) == packs@[m].name@,
        decreases n - x,
    {
        if !ranked[x] {
            let pack = &packs[x];
            let mut ok = true;
            let mut d: usize = 0;
            while d < pack.dependencies.len() && ok
                invariant
                    n == packs@.len(),
                    ranked@.len() == n,
                    all_deps_resolve(packs@),
                    crate::pack_set::names_unique(packs@),
                    x < n,
                    pack == &packs@[x as int],
                    d <= pack.dependencies@.len(),
                    ok ==> forall|d2: int, m: int|
                        0 <= d2 < d && 0 <= m < packs@.len() && (#[trigger] packs@[m]).name@ == (
                        #[trigger] dep_name(packs@, x as int, d2)) ==> ranked@[m],
                    !ok ==> exists|d2: int, m: int|
                        0 <= d2 < packs@[x as int].dependencies.deep_view().len() && 0 <= m
                            < packs@.len() && !ranked@[m] && spec_for_pack(
                            packs@,
                            dep_name(packs@, x as int, d2),
                        ) is Some && dep_name(packs@, x as int, d2) == packs@[m].name@,
                decreases
                        (if ok {
                            1int
                        } else {
                            0int
                        }),
                        pack.dependencies@.len() - d,
            {
                match find_pack_index(packs, pack.dependencies[d].as_str()) {
                    Some(m) => {
                        proof {
                            assert(packs@[m as int].name@ == dep_name(packs@, x as int, d as int));
                        }
                        if !ranked[m] {
                            proof {
                                assert(spec_for_pack(
                                    packs@,
                                    dep_name(packs@, x as int, d as int),
                                ) is Some);
                            }
                            ok = false;
                        } else {
                            proof {
                                assert forall|m2: int|
                                    0 <= m2 < n && (#[trigger] packs@[m2]).name@ == dep_name(
                                        packs@,
                                        x as int,
                                        d as int,
                                    ) implies ranked@[m2] by {
                                    if m2 != m as int {
                                        assert(packs@[m2].name@ == packs@[m as int].name@);
                                        assert(false);
                                    }
                                }
                            }
                            d = d + 1;
                        }
                    },
                    None => {
                        proof {
                            assert((d as int) < packs@[x as int].dependencies.deep_view().len());
                            assert(spec_for_pack(
                                packs@,
                                dep_name(packs@, x as int, d as int),
                            ) is Some);
                            crate::pack_set::lemma_spec_for_pack_name(
                                packs@,
                                dep_name(packs@, x as int, d as int),
                            );
                            assert(false);
                        }
                        ok = false;
                    },
                }
            }
            if ok {
                return Some(x);
            }
        }
        x = x + 1;
    }
    None
}

/// Validates the dependency graph: every declared dependency must name an
/// existing pack, and following dependency edges must never revisit a
/// pack. Success is certified by a rank for every pack (dependencies
/// first); failure to rank exhibits a set of packs each depending on the
/// set, which no ranking can order.
#[verifier::rlimit(100)]
pub fn validate(configuration: &Configuration) -> (r: Result<(), Vec<String>>)
    requires
        crate::pack_set::names_unique(configuration.pack_set.packs@),
    ensures
        r is Ok <==> (all_deps_resolve(configuration.pack_set.packs@) && spec_acyclic(
            configuration.pack_set.packs@,
        )),
{
    let ghost packs_g = configuration.pack_set.packs@;
    let packs = &configuration.pack_set.packs;
    let n = packs.len();
    // first pass: every dependency name must resolve
    let mut errors: Vec<String> = Vec::new();
    let mut p: usize = 0;
    let mut missing = false;
    while p < n
        invariant
            n == packs_g.len(),
            packs_g == configuration.pack_set.packs@,
            packs == &configuration.pack_set.packs,
            p <= n,
            missing ==> !all_deps_resolve(packs_g),
            !missing ==> forall|p2: int, d2: int|
                0 <= p2 < p && 0 <= d2 < packs_g[p2].dependencies.deep_view().len()
                    ==> spec_for_pack(packs_g, #[trigger] dep_name(packs_g, p2, d2)) is Some,
        decreases n - p,
    {
        let pack = &packs[p];
        let mut d: usize = 0;
        while d < pack.dependencies.len()
            invariant
                n == packs_g.len(),
                packs_g == configuration.pack_set.packs@,
                packs == &configuration.pack_set.packs,
                p < n,
                pack == &packs_g[p as int],
                d <= pack.dependencies@.len(),
                missing ==> !all_deps_resolve(packs_g),
                !missing ==> forall|p2: int, d2: int|
                    0 <= p2 < p && 0 <= d2 < packs_g[p2].dependencies.deep_view().len()
                        ==> spec_for_pack(packs_g, #[trigger] dep_name(packs_g, p2, d2)) is Some,
                !missing ==> forall|d2: int|
                    0 <= d2 < d ==> spec_for_pack(
                        packs_g,
                        #[trigger] dep_name(packs_g, p as int, d2),
                    ) is Some,
            decreases pack.dependencies@.len() - d,
        {
            match find_pack_index(packs, pack.dependencies[d].as_str()) {
                Some(_) => {},
                None => {
                    let mut msg = String::from_str("dependency ");
                    msg.append(pack.dependencies[d].as_str());
                    msg.append(" of ");
                    msg.append(pack.name.as_str());
                    msg.append(" does not name an existing pack");
                    errors.push(msg);
                    proof {
                        assert(spec_for_pack(
                            packs_g,
                            dep_name(packs_g, p as int, d as int),
                        ) is None) by {
                            crate::pack_set::lemma_spec_for_pack_name(
                                packs_g,
                                dep_name(packs_g, p as int, d as int),
                            );
                        }
                        assert(!all_deps_resolve(packs_g));
                    }
                    missing = true;
                },
            }
            d = d + 1;
        }
        proof {
            if !missing {
                assert forall|p2: int, d2: int|
                    0 <= p2 < p + 1 && 0 <= d2 < packs_g[p2].dependencies.deep_view().len() implies
                    spec_for_pack(packs_g, #[trigger] dep_name(packs_g, p2, d2)) is Some by {
                    if p2 == p as int {
                        assert(spec_for_pack(packs_g, dep_name(packs_g, p as int, d2)) is Some);
                    }
                }
            }
        }
        p = p + 1;
    }
    if missing {
        return Err(errors);
    }
    proof {
        assert(all_deps_resolve(packs_g));
    }
    // second pass: rank packs dependencies-first
    let mut ranked: Vec<bool> = Vec::new();
    let mut q: usize = 0;
    while q < n
        invariant
            q <= n,
            ranked@.len() == q,
            forall|x: int| 0 <= x < q ==> !(#[trigger] ranked@[x]),
        decreases n - q,
    {
        ranked.push(false);
        q = q + 1;
    }
    let mut num_ranked: usize = 0;
    let mut counter: u64 = 0;
    let ghost rk0: Map<Seq<char>, int> = Map::empty();
    let mut rk: Ghost<Map<Seq<char>, int>> = Ghost(rk0);
    proof {
        lemma_unranked_props(ranked@, n as int);
        assert(unranked_indices(ranked@, n as int).len() <= n) by {
            lemma_unranked_len(ranked@, n as int);
        }
        assert(unranked_indices(ranked@, n as int).len() >= n) by {
            lemma_unranked_len(ranked@, n as int);
        }
    }
    loop
        invariant
            n == packs_g.len(),
            packs_g == configuration.pack_set.packs@,
            packs == &configuration.pack_set.packs,
            crate::pack_set::names_unique(packs_g),
            all_deps_resolve(packs_g),
            ranked@.len() == n,
            num_ranked <= n,
            counter == num_ranked,
            num_ranked + unranked_indices(ranked@, n as int).len() == n,
            forall|x: int| 0 <= x < n && #[trigger] ranked@[x] ==> rk@[packs_g[x].name@] < counter,
            forall|x: int, d: int|
                0 <= x < n && #[trigger] ranked@[x] && 0 <= d
                    < packs_g[x].dependencies.deep_view().len() ==> rk@[#[trigger] dep_name(
                    packs_g,
                    x,
                    d,
                )] < rk@[packs_g[x].name@] && (forall|m: int|
                    0 <= m < n && (#[trigger] packs_g[m]).name@ == dep_name(packs_g, x, d)
                        ==> ranked@[m]),
        ensures
            num_ranked == n,
        decreases n - num_ranked,
    {
        match find_candidate(packs, &ranked) {
            Some(xp) => {
                let ghost old_rk = rk@;
                let ghost old_ranked = ranked@;
                ranked.set(xp, true);
                proof {
                    rk@ = old_rk.insert(packs_g[xp as int].name@, counter as int);
                    assert(ranked@ =~= old_ranked.update(xp as int, true));
                    lemma_unranked_update(old_ranked, n as int, xp as int);
                }
                num_ranked = num_ranked + 1;
                counter = counter + 1;
                proof {
                    assert forall|x2: int|
                        0 <= x2 < n && #[trigger] ranked@[x2] implies rk@[packs_g[x2].name@]
                        < counter by {
                        if x2 != xp as int {
                            assert(old_ranked[x2]);
                            assert(packs_g[x2].name@ != packs_g[xp as int].name@);
                            assert(rk@[packs_g[x2].name@] == old_rk[packs_g[x2].name@]);
                        }
                    }
                    assert forall|x2: int, d: int|
                        0 <= x2 < n && #[trigger] ranked@[x2] && 0 <= d
                            < packs_g[x2].dependencies.deep_view().len() implies rk@[
                        #[trigger] dep_name(packs_g, x2, d)] < rk@[packs_g[x2].name@] && (forall|
                        m: int,
                    |
                        0 <= m < n && (#[trigger] packs_g[m]).name@ == dep_name(packs_g, x2, d)
                            ==> ranked@[m]) by {
                        let dn = dep_name(packs_g, x2, d);
                        crate::pack_set::lemma_spec_for_pack_name(packs_g, dn);
                        if x2 == xp as int {
                            let mtarget = choose|m: int|
                                0 <= m < n && (#[trigger] packs_g[m]).name@ == dn;
                            assert(old_ranked[mtarget]);
                            assert(dn != packs_g[xp as int].name@) by {
                                if dn == packs_g[xp as int].name@ {
                                    assert(packs_g[mtarget].name@ == packs_g[xp as int].name@);
                                    assert(mtarget == xp as int);
                                }
                            }
                            assert(rk@[dn] == old_rk[dn]);
                            assert(old_rk[packs_g[mtarget].name@] < counter - 1);
                            assert(rk@[packs_g[x2].name@] == counter - 1);
                        } else {
                            assert(old_ranked[x2]);
                            assert(packs_g[x2].name@ != packs_g[xp as int].name@);
                            assert(rk@[packs_g[x2].name@] == old_rk[packs_g[x2].name@]);
                            if dn == packs_g[xp as int].name@ {
                                assert(old_ranked[xp as int]);
                                assert(false);
                            }
                            assert(rk@[dn] == old_rk[dn]);
                        }
                    }
                }
            },
            None => {
                if num_ranked == n {
                    break ;
                }
                // stuck: every unranked pack depends on an unranked pack
                proof {
                    lemma_unranked_props(ranked@, n as int);
                    let stuck = unranked_indices(ranked@, n as int);
                    assert(stuck.len() > 0);
                    assert forall|k: int| 0 <= k < stuck.len() implies #[trigger] stuck_member_ok(
                        packs_g,
                        stuck,
                        k,
                    ) by {
                        let x2 = stuck[k];
                        assert(0 <= x2 < n && !ranked@[x2]);
                        let (d, m) = choose|d: int, m: int|
                            0 <= d < packs_g[x2].dependencies.deep_view().len() && 0 <= m < n
                                && !ranked@[m] && spec_for_pack(
                                packs_g,
                                dep_name(packs_g, x2, d),
                            ) is Some && dep_name(packs_g, x2, d) == packs_g[m].name@;
                        assert(stuck.contains(m));
                        let mk = choose|mk: int| 0 <= mk < stuck.len() && stuck[mk] == m;
                        assert(dep_name(packs_g, stuck[k], d) == packs_g[stuck[mk]].name@);
                        assert(0 <= d < packs_g[stuck[k]].dependencies.deep_view().len() && 0 <= mk
                            < stuck.len() && spec_for_pack(
                            packs_g,
                            dep_name(packs_g, stuck[k], d),
                        ) is Some && dep_name(packs_g, stuck[k], d) == packs_g[stuck[mk]].name@);
                    }
                    lemma_stuck_no_ranking(packs_g, stuck);
                }
                let mut errors2: Vec<String> = Vec::new();
                errors2.push(String::from_str("the pack dependency graph contains a cycle"));
                return Err(errors2);
            },
        }
    }
    proof {
        assert forall|x: int| 0 <= x < n implies #[trigger] ranked@[x] by {
            lemma_unranked_props(ranked@, n as int);
            if !ranked@[x] {
                assert(unranked_indices(ranked@, n as int).contains(x));
            }
        }
        assert(ranking_ok(packs_g, rk@));
    }
    Ok(())
}

proof fn lemma_unranked_len(ranked: Seq<bool>, n: int)
    requires
        0 <= n <= ranked.len(),
        forall|x: int| 0 <= x < n ==> !(#[trigger] ranked[x]),
    ensures
        unranked_indices(ranked, n).len() == n,
    decreases n,
{
    if n > 0 {
        lemma_unranked_len(ranked, n - 1);
    }
}

} // verus!
