//! The closure engine: turns per-file analyses into the full transitive
//! dependency set of a root file.
//!
//! The engine works a list of files still to expand. Popping a file not
//! seen before adds it to the result, folds its leaf dependencies straight
//! into the result, and queues its deep dependencies for expansion; a file
//! seen before is discarded, which keeps cyclic import graphs from looping.
//! The engine reads analyses only from the cache: when it meets a file the
//! cache does not hold, it stops and names that file, so that the caller
//! can analyse it, insert the result, and run the query again.

use vstd::prelude::*;

use crate::analysis::{no_dups, AnalysisView};
use crate::cache::Cache;
use crate::paths::{contains_path, path_views};

verus! {

/// A chain of deep-dependency edges through `c` leading from `root` to `p`.
pub open spec fn is_deep_chain(
    c: Map<Seq<char>, AnalysisView>,
    root: Seq<char>,
    p: Seq<char>,
    chain: Seq<Seq<char>>,
) -> bool {
    &&& chain.len() >= 1
    &&& chain[0] == root
    &&& chain.last() == p
    &&& forall|i: int|
        0 <= i < chain.len() - 1 ==> c.contains_key(#[trigger] chain[i])
            && c[chain[i]].deeps.contains(chain[i + 1])
}

/// `p` is `root` itself or lies on a deep-dependency chain from it.
pub open spec fn deep_reachable(
    c: Map<Seq<char>, AnalysisView>,
    root: Seq<char>,
    p: Seq<char>,
) -> bool {
    exists|chain: Seq<Seq<char>>| is_deep_chain(c, root, p, chain)
}

/// `x` is a leaf dependency of some expanded file.
pub open spec fn leaf_of_expanded(
    c: Map<Seq<char>, AnalysisView>,
    expanded: Set<Seq<char>>,
    x: Seq<char>,
) -> bool {
    exists|p: Seq<char>|
        #[trigger] expanded.contains(p) && c.contains_key(p) && c[p].leafs.contains(x)
}

/// What makes `deps` the dependency set of `root` over the analyses in
/// `c`: `expanded` names the files the engine expanded. The root was
/// expanded; every expanded file has an analysis and lies on a deep chain
/// from the root; every deep dependency of an expanded file is in the set;
/// and the set holds exactly the expanded files and their leaf
/// dependencies.
pub open spec fn closure_certificate(
    c: Map<Seq<char>, AnalysisView>,
    root: Seq<char>,
    expanded: Set<Seq<char>>,
    deps: Set<Seq<char>>,
) -> bool {
    &&& expanded.contains(root)
    &&& forall|p: Seq<char>|
        #[trigger] expanded.contains(p) ==> c.contains_key(p) && deep_reachable(c, root, p)
    &&& forall|p: Seq<char>, d: Seq<char>|
        expanded.contains(p) && c.contains_key(p) && (#[trigger] c[p].deeps.contains(d))
            && #[trigger] expanded.contains(p) ==> deps.contains(d)
    &&& forall|x: Seq<char>| #[trigger] expanded.contains(x) ==> deps.contains(x)
    &&& forall|x: Seq<char>| leaf_of_expanded(c, expanded, x) ==> deps.contains(x)
    &&& forall|x: Seq<char>|
        #[trigger] deps.contains(x) ==> expanded.contains(x) || leaf_of_expanded(c, expanded, x)
}

/// One run of the closure engine: the finished set, or the file whose
/// analysis the cache is missing.
pub enum ClosureStep {
    /// The full dependency set of the root, each path once.
    Done(Vec<String>),
    /// The engine met this file but the cache holds no analysis for it.
    NeedsAnalysis(String),
}

/// Compute the transitive dependency set of `root` from the analyses in
/// `cache`: the root and every file reached over deep-dependency edges,
/// together with every leaf dependency of those files. When some needed
/// file has no cached analysis yet, the engine reports it instead; after
/// the caller analyses that file and inserts the result, a fresh run picks
/// the query up again.
#[verifier::loop_isolation(false)]
pub fn resolve_deps(cache: &Cache, root: &String) -> (r: ClosureStep)
    ensures
        r matches ClosureStep::Done(deps) ==> no_dups(path_views(deps@)) && (exists|
            expanded: Set<Seq<char>>,
        |
            closure_certificate(cache@, root@, expanded, path_views(deps@).to_set())),
        r matches ClosureStep::NeedsAnalysis(missing) ==> !cache@.contains_key(missing@)
            && deep_reachable(cache@, root@, missing@),
{
    broadcast use vstd::seq_lib::lemma_seq_contains_after_push;

    let mut visited: Vec<String> = Vec::new();
    let mut work: Vec<String> = Vec::new();
    work.push(root.clone());
    let ghost mut expanded: Set<Seq<char>> = Set::empty();
    proof {
        cache.lemma_dom_finite();
        assert(is_deep_chain(cache@, root@, root@, seq![root@]));
        assert(path_views(work@) =~= seq![root@]);
    }
    while work.len() > 0
        invariant
            no_dups(path_views(visited@)),
            forall|i: int|
                0 <= i < work@.len() ==> deep_reachable(cache@, root@, #[trigger] path_views(
                    work@,
                )[i]),
            forall|p: Seq<char>|
                #[trigger] expanded.contains(p) ==> cache@.contains_key(p) && deep_reachable(
                    cache@,
                    root@,
                    p,
                ),
            forall|x: Seq<char>| #[trigger] expanded.contains(x) ==> path_views(visited@).contains(x),
            forall|x: Seq<char>|
                leaf_of_expanded(cache@, expanded, x) ==> path_views(visited@).contains(x),
            forall|x: Seq<char>|
                #[trigger] path_views(visited@).contains(x) ==> expanded.contains(x)
                    || leaf_of_expanded(cache@, expanded, x),
            forall|p: Seq<char>, d: Seq<char>|
                expanded.contains(p) && cache@.contains_key(p) && (#[trigger] cache@[p].deeps.contains(
                    d,
                )) && #[trigger] expanded.contains(p) ==> path_views(visited@).contains(d)
                    || path_views(work@).contains(d),
            expanded.contains(root@) || (visited@.len() == 0 && path_views(work@) =~= seq![root@]),
        decreases cache@.dom().difference(expanded).len(), work@.len(),
    {
        let ghost work_before = work@;
        let f = work.pop().unwrap();
        proof {
            assert(work@ =~= work_before.drop_last());
            assert(f@ == path_views(work_before)[work_before.len() - 1]);
            assert(deep_reachable(cache@, root@, f@));
            assert forall|i: int| 0 <= i < work@.len() implies deep_reachable(
                cache@,
                root@,
                #[trigger] path_views(work@)[i],
            ) by {
                assert(path_views(work@)[i] == path_views(work_before)[i]);
            }
        }
        if !contains_path(&visited, &f) {
            let a = match cache.get(&f) {
                Option::Some(a) => a,
                Option::None => {
                    return ClosureStep::NeedsAnalysis(f);
                },
            };
            let ghost visited_before = path_views(visited@);
            let ghost expanded_before = expanded;
            visited.push(f.clone());
            proof {
                assert(!expanded.contains(f@));
                cache@.dom().lemma_set_insert_diff_decreases(expanded, f@);
                expanded = expanded.insert(f@);
                assert(path_views(visited@) =~= visited_before.push(f@));
                assert forall|x: Seq<char>|
                    leaf_of_expanded(cache@, expanded_before, x) implies leaf_of_expanded(
                    cache@,
                    expanded,
                    x,
                ) by {
                    let p = choose|p: Seq<char>|
                        #[trigger] expanded_before.contains(p) && cache@.contains_key(p)
                            && cache@[p].leafs.contains(x);
                    assert(expanded.contains(p) && cache@.contains_key(p) && cache@[p].leafs.contains(
                        x,
                    ));
                }
                assert forall|p: Seq<char>, d: Seq<char>|
                    expanded_before.contains(p) && cache@.contains_key(p) && (
                    #[trigger] cache@[p].deeps.contains(d)) && #[trigger] expanded_before.contains(
                        p,
                    ) implies path_views(visited@).contains(d) || path_views(work@).contains(
                    d,
                ) by {
                    if path_views(work_before).contains(d) {
                        let i = choose|i: int|
                            0 <= i < path_views(work_before).len() && path_views(work_before)[i]
                                == d;
                        if i < path_views(work_before).len() - 1 {
                            assert(path_views(work@)[i] == d);
                            assert(path_views(work@).contains(d));
                        } else {
                            assert(d == f@);
                            assert(path_views(visited@).contains(f@));
                        }
                    } else {
                        assert(visited_before.contains(d));
                    }
                }
            }
            let mut j: usize = 0;
            while j < a.leaf_deps.len()
                invariant
                    j <= a.leaf_deps@.len(),
                    no_dups(path_views(visited@)),
                    forall|x: Seq<char>|
                        #[trigger] expanded.contains(x) ==> path_views(visited@).contains(x),
                    forall|x: Seq<char>|
                        leaf_of_expanded(cache@, expanded_before, x) ==> path_views(
                            visited@,
                        ).contains(x),
                    forall|jj: int|
                        0 <= jj < j ==> path_views(visited@).contains(
                            #[trigger] path_views(a.leaf_deps@)[jj],
                        ),
                    forall|x: Seq<char>|
                        #[trigger] path_views(visited@).contains(x) ==> expanded.contains(x)
                            || leaf_of_expanded(cache@, expanded, x),
                    forall|p: Seq<char>, d: Seq<char>|
                        expanded_before.contains(p) && cache@.contains_key(p) && (
                        #[trigger] cache@[p].deeps.contains(d)) && #[trigger] expanded_before.contains(
                            p,
                        ) ==> path_views(visited@).contains(d) || path_views(work@).contains(d),
                decreases a.leaf_deps@.len() - j,
            {
                let leaf = &a.leaf_deps[j];
                if !contains_path(&visited, leaf) {
                    let ghost vb = path_views(visited@);
                    visited.push(leaf.clone());
                    proof {
                        assert(path_views(visited@) =~= vb.push(leaf@));
                        assert(leaf_of_expanded(cache@, expanded, leaf@)) by {
                            assert(a@ == cache@[f@]);
                            assert(cache@[f@].leafs == path_views(a.leaf_deps@));
                            assert(path_views(a.leaf_deps@)[j as int] == leaf@);
                            assert(cache@[f@].leafs.contains(leaf@));
                            assert(expanded.contains(f@) && cache@.contains_key(f@));
                        }
                    }
                }
                j = j + 1;
            }
            let mut k: usize = 0;
            while k < a.deep_deps.len()
                invariant
                    k <= a.deep_deps@.len(),
                    forall|i: int|
                        0 <= i < work@.len() ==> deep_reachable(cache@, root@, #[trigger] path_views(
                            work@,
                        )[i]),
                    forall|kk: int|
                        0 <= kk < k ==> path_views(visited@).contains(
                            #[trigger] path_views(a.deep_deps@)[kk],
                        ) || path_views(work@).contains(path_views(a.deep_deps@)[kk]),
                    forall|p: Seq<char>, d: Seq<char>|
                        expanded_before.contains(p) && cache@.contains_key(p) && (
                        #[trigger] cache@[p].deeps.contains(d)) && #[trigger] expanded_before.contains(
                            p,
                        ) ==> path_views(visited@).contains(d) || path_views(work@).contains(d),
                decreases a.deep_deps@.len() - k,
            {
                let ghost wb = path_views(work@);
                work.push(a.deep_deps[k].clone());
                proof {
                    assert(path_views(work@) =~= wb.push(path_views(a.deep_deps@)[k as int]));
                    let chain = choose|chain: Seq<Seq<char>>|
                        is_deep_chain(cache@, root@, f@, chain);
                    let chain2 = chain.push(path_views(a.deep_deps@)[k as int]);
                    assert(cache@[f@].deeps.contains(path_views(a.deep_deps@)[k as int]));
                    assert(is_deep_chain(
                        cache@,
                        root@,
                        path_views(a.deep_deps@)[k as int],
                        chain2,
                    )) by {
                        assert(forall|i: int|
                            0 <= i < chain.len() ==> chain2[i] == #[trigger] chain[i]);
                        assert(chain2.last() == path_views(a.deep_deps@)[k as int]);
                        assert(chain2[chain2.len() - 2] == f@);
                    }
                }
                k = k + 1;
            }
            proof {
                assert forall|x: Seq<char>| leaf_of_expanded(cache@, expanded, x) implies path_views(
                    visited@,
                ).contains(x) by {
                    let p = choose|p: Seq<char>|
                        #[trigger] expanded.contains(p) && cache@.contains_key(p)
                            && cache@[p].leafs.contains(x);
                    if p == f@ {
                        let jj = choose|jj: int|
                            0 <= jj < path_views(a.leaf_deps@).len() && path_views(a.leaf_deps@)[jj]
                                == x;
                        assert(path_views(visited@).contains(path_views(a.leaf_deps@)[jj]));
                    } else {
                        assert(leaf_of_expanded(cache@, expanded_before, x));
                    }
                }
                assert forall|p: Seq<char>, d: Seq<char>|
                    expanded.contains(p) && cache@.contains_key(p) && (
                    #[trigger] cache@[p].deeps.contains(d)) && #[trigger] expanded.contains(
                        p,
                    ) implies path_views(visited@).contains(d) || path_views(work@).contains(
                    d,
                ) by {
                    if p == f@ {
                        let kk = choose|kk: int|
                            0 <= kk < path_views(a.deep_deps@).len() && path_views(a.deep_deps@)[kk]
                                == d;
                        assert(path_views(visited@).contains(path_views(a.deep_deps@)[kk])
                            || path_views(work@).contains(path_views(a.deep_deps@)[kk]));
                    } else {
                        assert(expanded_before.contains(p));
                    }
                }
            }
        } else {
            proof {
                assert forall|p: Seq<char>, d: Seq<char>|
                    expanded.contains(p) && cache@.contains_key(p) && (
                    #[trigger] cache@[p].deeps.contains(d)) && #[trigger] expanded.contains(
                        p,
                    ) implies path_views(visited@).contains(d) || path_views(work@).contains(
                    d,
                ) by {
                    if path_views(work_before).contains(d) {
                        let i = choose|i: int|
                            0 <= i < path_views(work_before).len() && path_views(work_before)[i]
                                == d;
                        if i < path_views(work_before).len() - 1 {
                            assert(path_views(work@)[i] == d);
                            assert(path_views(work@).contains(d));
                        } else {
                            assert(d == f@);
                        }
                    }
                }
            }
        }
    }
    proof {
        assert(closure_certificate(cache@, root@, expanded, path_views(visited@).to_set())) by {
            assert(forall|x: Seq<char>|
                path_views(visited@).to_set().contains(x) == #[trigger] path_views(
                    visited@,
                ).contains(x));
        }
    }
    ClosureStep::Done(visited)
}

/// No path is referenced both as someone's leaf dependency and as
/// someone's deep dependency. Within one analysis this holds by
/// construction (each path is classified once); only two files that
/// classify the same path differently can break it.
pub open spec fn kind_consistent(c: Map<Seq<char>, AnalysisView>) -> bool {
    forall|p1: Seq<char>, p2: Seq<char>, x: Seq<char>|
        #![trigger c[p1].leafs.contains(x), c[p2].deeps.contains(x)]
        c.contains_key(p1) && c.contains_key(p2) && c[p1].leafs.contains(x) ==> !c[p2].deeps.contains(
            x,
        )
}

/// Cache reuse has no observable effect on a query's output: a closure
/// certificate over the analyses one query used stays a certificate over
/// any extension of them, so resolving a root against a shared cache that
/// other queries have grown reports the same set as resolving it against
/// a fresh cache that holds just what the query itself needed.
pub proof fn lemma_certificate_cache_extension(
    c1: Map<Seq<char>, AnalysisView>,
    c2: Map<Seq<char>, AnalysisView>,
    root: Seq<char>,
    expanded: Set<Seq<char>>,
    deps: Set<Seq<char>>,
)
    requires
        c1.submap_of(c2),
        closure_certificate(c1, root, expanded, deps),
    ensures
        closure_certificate(c2, root, expanded, deps),
{
    assert forall|p: Seq<char>| #[trigger]
        expanded.contains(p) implies c2.contains_key(p) && deep_reachable(c2, root, p) by {
        let chain = choose|chain: Seq<Seq<char>>| is_deep_chain(c1, root, p, chain);
        assert(is_deep_chain(c2, root, p, chain));
    }
    assert forall|p: Seq<char>, d: Seq<char>|
        expanded.contains(p) && c2.contains_key(p) && (#[trigger] c2[p].deeps.contains(d))
            && #[trigger] expanded.contains(p) implies deps.contains(d) by {
        assert(c1.contains_key(p) && c1[p] == c2[p]);
    }
    assert forall|x: Seq<char>| leaf_of_expanded(c2, expanded, x) implies deps.contains(x) by {
        let p = choose|p: Seq<char>|
            #[trigger] expanded.contains(p) && c2.contains_key(p) && c2[p].leafs.contains(x);
        assert(c1.contains_key(p) && c1[p] == c2[p]);
        assert(leaf_of_expanded(c1, expanded, x));
    }
    assert forall|x: Seq<char>| #[trigger]
        deps.contains(x) implies expanded.contains(x) || leaf_of_expanded(c2, expanded, x) by {
        if !expanded.contains(x) {
            let p = choose|p: Seq<char>|
                #[trigger] expanded.contains(p) && c1.contains_key(p) && c1[p].leafs.contains(x);
            assert(c2.contains_key(p) && c2[p] == c1[p]);
            assert(leaf_of_expanded(c2, expanded, x));
        }
    }
}

/// Every file on a deep chain from the root was expanded, provided no
/// path is both a leaf and a deep dependency.
proof fn lemma_chain_in_expanded(
    c: Map<Seq<char>, AnalysisView>,
    root: Seq<char>,
    expanded: Set<Seq<char>>,
    deps: Set<Seq<char>>,
    chain: Seq<Seq<char>>,
)
    requires
        kind_consistent(c),
        closure_certificate(c, root, expanded, deps),
        is_deep_chain(c, root, chain.last(), chain),
    ensures
        expanded.contains(chain.last()),
    decreases chain.len(),
{
    if chain.len() == 1 {
        assert(chain.last() == root);
    } else {
        let pre = chain.drop_last();
        assert(forall|i: int| 0 <= i < pre.len() ==> pre[i] == chain[i]);
        assert(is_deep_chain(c, root, pre.last(), pre));
        lemma_chain_in_expanded(c, root, expanded, deps, pre);
        let q = chain[chain.len() - 2];
        assert(expanded.contains(q));
        assert(c.contains_key(q) && c[q].deeps.contains(chain.last()));
        assert(deps.contains(chain.last()));
        if !expanded.contains(chain.last()) {
            let p = choose|p: Seq<char>|
                #[trigger] expanded.contains(p) && c.contains_key(p) && c[p].leafs.contains(
                    chain.last(),
                );
            assert(c[p].leafs.contains(chain.last()) && c[q].deeps.contains(chain.last()));
            assert(false);
        }
    }
}

/// Resolution is deterministic: over one set of analyses, any two
/// certified outcomes for the same root name the same expanded files and
/// the same dependency set — resolving the same root twice yields the
/// same set. Holds when no path is referenced both as a leaf and as a
/// deep dependency; otherwise the traversal order may decide whether such
/// a path is expanded.
pub proof fn lemma_closure_deterministic(
    c: Map<Seq<char>, AnalysisView>,
    root: Seq<char>,
    e1: Set<Seq<char>>,
    d1: Set<Seq<char>>,
    e2: Set<Seq<char>>,
    d2: Set<Seq<char>>,
)
    requires
        kind_consistent(c),
        closure_certificate(c, root, e1, d1),
        closure_certificate(c, root, e2, d2),
    ensures
        e1 == e2,
        d1 == d2,
{
    assert forall|p: Seq<char>| #[trigger] e1.contains(p) implies e2.contains(p) by {
        let chain = choose|chain: Seq<Seq<char>>| is_deep_chain(c, root, p, chain);
        lemma_chain_in_expanded(c, root, e2, d2, chain);
    }
    assert forall|p: Seq<char>| #[trigger] e2.contains(p) implies e1.contains(p) by {
        let chain = choose|chain: Seq<Seq<char>>| is_deep_chain(c, root, p, chain);
        lemma_chain_in_expanded(c, root, e1, d1, chain);
    }
    assert(e1 =~= e2);
    assert forall|x: Seq<char>| #[trigger] d1.contains(x) implies d2.contains(x) by {
        if !e1.contains(x) {
            assert(leaf_of_expanded(c, e1, x));
            assert(leaf_of_expanded(c, e2, x));
        }
    }
    assert forall|x: Seq<char>| #[trigger] d2.contains(x) implies d1.contains(x) by {
        if !e2.contains(x) {
            assert(leaf_of_expanded(c, e2, x));
            assert(leaf_of_expanded(c, e1, x));
        }
    }
    assert(d1 =~= d2);
}

} // verus!
