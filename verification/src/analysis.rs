//! Per-file analysis: the resolved import references of one source file,
//! classified and deduplicated.
//!
//! `leaf_deps` holds the resolved targets of the inline-text imports: files
//! whose raw content alone affects the analysed file. `deep_deps` holds the
//! resolved targets of the module imports: files whose own dependencies
//! matter too. Each list keeps first-encountered order; a path is
//! classified once, by the import construct that first referenced it, so
//! it appears in at most one of the two lists, and there at most once.

use vstd::prelude::*;

use crate::ast::{collect_imports, expr_imports, iviews, Expr, ImportKind, RawImport};
use crate::paths::{contains_path, is_abs, path_views};
use crate::resolve::{resolution_ok, resolve, DepError};

verus! {

/// The dependencies of one source file, classified by the import construct
/// that referenced them.
pub struct Analysis {
    /// Resolved inline-text import targets, deduplicated, in
    /// first-encountered order.
    pub leaf_deps: Vec<String>,
    /// Resolved module import targets, deduplicated, in first-encountered
    /// order.
    pub deep_deps: Vec<String>,
}

/// The abstract content of an `Analysis`.
pub ghost struct AnalysisView {
    pub leafs: Seq<Seq<char>>,
    pub deeps: Seq<Seq<char>>,
}

impl View for Analysis {
    type V = AnalysisView;

    open spec fn view(&self) -> AnalysisView {
        AnalysisView { leafs: path_views(self.leaf_deps@), deeps: path_views(self.deep_deps@) }
    }
}

/// The analysis built from a walk's import references (`imps`, in walk
/// order) and the path each one resolved to (`resolved`, pointwise). A
/// path met for the first time goes to the list of its import's kind —
/// the leaf list for an inline-text import, the deep list for a module
/// import; a path either list already holds is dropped, so each path is
/// classified exactly once, by the construct that first referenced it.
pub open spec fn build_analysis_spec(
    imps: Seq<(bool, Seq<char>)>,
    resolved: Seq<Seq<char>>,
) -> AnalysisView
    decreases imps.len(),
{
    if imps.len() == 0 {
        AnalysisView { leafs: seq![], deeps: seq![] }
    } else {
        let prev = build_analysis_spec(imps.drop_last(), resolved.drop_last());
        let p = resolved.last();
        if prev.leafs.contains(p) || prev.deeps.contains(p) {
            prev
        } else if imps.last().0 {
            AnalysisView { leafs: prev.leafs.push(p), deeps: prev.deeps }
        } else {
            AnalysisView { leafs: prev.leafs, deeps: prev.deeps.push(p) }
        }
    }
}

/// No path occurs twice in the list.
pub open spec fn no_dups(s: Seq<Seq<char>>) -> bool {
    forall|i: int, j: int| 0 <= i < j < s.len() ==> s[i] != s[j]
}

/// No path stands in both lists: each is classified once.
pub open spec fn kinds_disjoint(a: AnalysisView) -> bool {
    forall|x: Seq<char>| a.leafs.contains(x) ==> !a.deeps.contains(x)
}

/// `i` is the first position at which `x` occurs in `resolved`.
pub open spec fn first_hit(resolved: Seq<Seq<char>>, i: int, x: Seq<char>) -> bool {
    &&& 0 <= i < resolved.len()
    &&& resolved[i] == x
    &&& forall|j: int| 0 <= j < i ==> resolved[j] != x
}

/// The classification fold never creates a duplicate, and never puts one
/// path into both lists.
pub proof fn lemma_build_analysis_no_dups(imps: Seq<(bool, Seq<char>)>, resolved: Seq<Seq<char>>)
    requires
        imps.len() == resolved.len(),
    ensures
        no_dups(build_analysis_spec(imps, resolved).leafs),
        no_dups(build_analysis_spec(imps, resolved).deeps),
        kinds_disjoint(build_analysis_spec(imps, resolved)),
    decreases imps.len(),
{
    broadcast use vstd::seq_lib::lemma_seq_contains_after_push;

    if imps.len() > 0 {
        lemma_build_analysis_no_dups(imps.drop_last(), resolved.drop_last());
    }
}

/// Classification: a path stands in the leaf list exactly when the import
/// that first resolved to it was an inline-text import, and in the deep
/// list exactly when that first import was a module import; every
/// resolved path stands in one of the two. Swapping every import's kind
/// therefore swaps the classification.
pub proof fn lemma_build_analysis_membership(
    imps: Seq<(bool, Seq<char>)>,
    resolved: Seq<Seq<char>>,
    x: Seq<char>,
)
    requires
        imps.len() == resolved.len(),
    ensures
        build_analysis_spec(imps, resolved).leafs.contains(x) <==> exists|i: int|
            #[trigger] first_hit(resolved, i, x) && imps[i].0,
        build_analysis_spec(imps, resolved).deeps.contains(x) <==> exists|i: int|
            #[trigger] first_hit(resolved, i, x) && !imps[i].0,
        (build_analysis_spec(imps, resolved).leafs.contains(x) || build_analysis_spec(
            imps,
            resolved,
        ).deeps.contains(x)) <==> resolved.contains(x),
    decreases imps.len(),
{
    broadcast use vstd::seq_lib::lemma_seq_contains_after_push;

    if imps.len() > 0 {
        let n = imps.len() - 1;
        let pre_imps = imps.drop_last();
        let pre_res = resolved.drop_last();
        lemma_build_analysis_membership(pre_imps, pre_res, x);
        assert(forall|i: int| 0 <= i < n ==> pre_imps[i] == imps[i]);
        assert(forall|i: int| 0 <= i < n ==> pre_res[i] == resolved[i]);
        // A first occurrence within the prefix is one within the whole
        // sequence, and the other way round.
        assert(forall|i: int|
            0 <= i < n ==> (#[trigger] first_hit(pre_res, i, x) <==> first_hit(resolved, i, x)));
        assert(pre_res.contains(x) <==> exists|j: int| 0 <= j < n && resolved[j] == x);
        let prev = build_analysis_spec(pre_imps, pre_res);
        let p = resolved[n as int];
        if prev.leafs.contains(p) || prev.deeps.contains(p) {
            // The path was met before: the fold keeps the previous lists,
            // and every occurrence of x is accounted for by the prefix.
            lemma_build_analysis_membership(pre_imps, pre_res, p);
            assert(pre_res.contains(p));
            assert(resolved.contains(x) <==> pre_res.contains(x));
            assert forall|i: int| first_hit(resolved, i, x) && i == n implies false by {
                assert(pre_res.contains(x));
                let j = choose|j: int| 0 <= j < n && resolved[j] == x;
                assert(resolved[j] != x);
            }
        } else {
            if x == p {
                // First occurrence of p is at the last position: it was
                // just added, to the list of its import's kind.
                assert(!pre_res.contains(x));
                assert(first_hit(resolved, n as int, x));
                assert(resolved.contains(x));
            } else {
                assert(resolved.contains(x) <==> pre_res.contains(x)) by {
                    if resolved.contains(x) {
                        let j = choose|j: int| 0 <= j < resolved.len() && resolved[j] == x;
                        assert(j < n);
                        assert(pre_res[j] == x);
                    }
                }
            }
        }
    }
}

/// Extract the analysis of one source tree: collect every import in walk
/// order, resolve each against the base directory and the search roots,
/// and fold the results into the two dependency lists, classifying each
/// path once, by the construct that first referenced it. With no imports
/// to probe — none at all, or only absolute ones, or no search roots —
/// extraction always succeeds; it fails only when an existence check
/// fails while probing a candidate of some relative import, and the
/// error then names that import's text.
#[verifier::loop_isolation(false)]
pub fn extract(base_dir: &String, search_roots: &Vec<String>, tree: &Expr) -> (r: Result<
    Analysis,
    DepError,
>)
    ensures
        r matches Ok(a) ==> exists|resolved: Seq<Seq<char>>|
            {
                &&& resolved.len() == expr_imports(*tree).len()
                &&& (forall|i: int|
                    0 <= i < resolved.len() ==> resolution_ok(
                        base_dir@,
                        path_views(search_roots@),
                        expr_imports(*tree)[i].1,
                        #[trigger] resolved[i],
                    ))
                &&& a@ == build_analysis_spec(expr_imports(*tree), resolved)
            },
        r matches Ok(a) ==> no_dups(a@.leafs) && no_dups(a@.deeps) && kinds_disjoint(a@),
        r matches Err(e) ==> search_roots@.len() > 0 && (e matches DepError::Io { path, .. }
            && !is_abs(path@) && (exists|k: int|
            0 <= k < expr_imports(*tree).len() && (#[trigger] expr_imports(*tree)[k]).1 == path@)),
{
    let imports: Vec<RawImport> = collect_imports(tree);
    let mut a = Analysis { leaf_deps: Vec::new(), deep_deps: Vec::new() };
    let ghost mut resolved: Seq<Seq<char>> = seq![];
    proof {
        assert(iviews(imports@).subrange(0, 0) =~= Seq::<(bool, Seq<char>)>::empty());
        assert(a@.leafs =~= Seq::<Seq<char>>::empty());
        assert(a@.deeps =~= Seq::<Seq<char>>::empty());
    }
    let mut i: usize = 0;
    while i < imports.len()
        invariant
            i <= imports@.len(),
            resolved.len() == i,
            forall|k: int|
                0 <= k < i ==> resolution_ok(
                    base_dir@,
                    path_views(search_roots@),
                    iviews(imports@)[k].1,
                    #[trigger] resolved[k],
                ),
            a@ == build_analysis_spec(iviews(imports@).subrange(0, i as int), resolved),
        decreases imports@.len() - i,
    {
        let imp = &imports[i];
        let p = match resolve(base_dir, search_roots, &imp.raw) {
            Result::Ok(p) => p,
            Result::Err(e) => {
                proof {
                    assert(expr_imports(*tree)[i as int].1 == imp.raw@);
                }
                return Err(e);
            },
        };
        let ghost prev_resolved = resolved;
        proof {
            resolved = resolved.push(p@);
        }
        let in_leaf = contains_path(&a.leaf_deps, &p);
        let in_deep = contains_path(&a.deep_deps, &p);
        if !in_leaf && !in_deep {
            match imp.kind {
                ImportKind::Leaf => {
                    a.leaf_deps.push(p);
                },
                ImportKind::Deep => {
                    a.deep_deps.push(p);
                },
            }
        }
        proof {
            let pre = iviews(imports@).subrange(0, i as int);
            let cur = iviews(imports@).subrange(0, i + 1);
            assert(cur.drop_last() =~= pre);
            assert(resolved.drop_last() =~= prev_resolved);
            assert(cur.last() == iviews(imports@)[i as int]);
            assert(a@.leafs =~= build_analysis_spec(cur, resolved).leafs);
            assert(a@.deeps =~= build_analysis_spec(cur, resolved).deeps);
            assert(a@ == build_analysis_spec(cur, resolved));
        }
        i = i + 1;
    }
    proof {
        assert(iviews(imports@).subrange(0, imports@.len() as int) =~= iviews(imports@));
        lemma_build_analysis_no_dups(expr_imports(*tree), resolved);
    }
    Ok(a)
}

} // verus!
