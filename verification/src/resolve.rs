//! Resolution of one raw import path against a base directory and an
//! ordered list of fallback search roots.
//!
//! An absolute path resolves to itself, unchecked. With no search roots the
//! base-joined path is returned, unchecked: the target may be a forward
//! reference to a file that does not exist yet. Otherwise the candidates
//! are probed in order — base directory first, then each search root — and
//! the first candidate that exists on storage wins; when none exists the
//! base-joined candidate is returned after all, so that a missing target
//! surfaces later as a read error, never as a resolution error.

use vstd::prelude::*;

use crate::paths::{is_abs, is_absolute, join, join_spec, path_views};

verus! {

/// An error of the engine. Resolution wraps the error that aborted a
/// closure query together with the root it was computed for.
#[derive(Debug)]
pub enum DepError {
    Io { path: String, detail: String },
    Parse { path: String, detail: String },
    Resolution { root: String, cause: Box<DepError> },
}

/// Relies on std::path::Path::try_exists: asks storage whether the path
/// exists; Err when the existence check itself cannot be performed (for
/// example, permission denied), not when the file is simply absent.
#[verifier::external_body]
fn path_exists(p: &String) -> (r: Result<bool, String>) {
    match std::path::Path::new(p.as_str()).try_exists() {
        Ok(b) => Ok(b),
        Err(e) => Err(e.to_string()),
    }
}

/// The candidate resolutions of `raw`, in probe order: the base directory
/// joined with it first, then each search root joined with it.
pub open spec fn candidates_spec(base: Seq<char>, roots: Seq<Seq<char>>, raw: Seq<char>) -> Seq<
    Seq<char>,
> {
    Seq::new(
        roots.len() + 1,
        |i: int|
            if i == 0 {
                join_spec(base, raw)
            } else {
                join_spec(roots[i - 1], raw)
            },
    )
}

/// The index of the first `true` in `ex`, or `ex.len()` when there is none.
pub open spec fn first_true(ex: Seq<bool>) -> int
    decreases ex.len(),
{
    if ex.len() == 0 {
        0
    } else if ex[0] {
        0
    } else {
        1 + first_true(ex.drop_first())
    }
}

pub proof fn lemma_first_true_at(ex: Seq<bool>, i: int)
    requires
        0 <= i <= ex.len(),
        forall|j: int| 0 <= j < i ==> !ex[j],
        i < ex.len() ==> ex[i],
    ensures
        first_true(ex) == if i < ex.len() {
            i
        } else {
            ex.len() as int
        },
    decreases ex.len(),
{
    if ex.len() > 0 && i > 0 {
        lemma_first_true_at(ex.drop_first(), i - 1);
    }
}

/// The first existing candidate, falling back to the base-joined one.
pub open spec fn pick_spec(cands: Seq<Seq<char>>, ex: Seq<bool>) -> Seq<char> {
    if first_true(ex) < ex.len() {
        cands[first_true(ex)]
    } else {
        cands[0]
    }
}

/// What resolving `raw` yields when the candidates' existence on storage
/// is given by `ex` (one answer per candidate, probe order).
pub open spec fn resolved_spec(
    base: Seq<char>,
    roots: Seq<Seq<char>>,
    raw: Seq<char>,
    ex: Seq<bool>,
) -> Seq<char> {
    if is_abs(raw) {
        raw
    } else if roots.len() == 0 {
        join_spec(base, raw)
    } else {
        pick_spec(candidates_spec(base, roots, raw), ex)
    }
}

/// A path is a possible resolution of `raw`: the one that some pattern of
/// existence answers would produce.
pub open spec fn resolution_ok(
    base: Seq<char>,
    roots: Seq<Seq<char>>,
    raw: Seq<char>,
    p: Seq<char>,
) -> bool {
    exists|ex: Seq<bool>|
        ex.len() == roots.len() + 1 && p == #[trigger] resolved_spec(base, roots, raw, ex)
}

/// Build the candidate list in probe order.
#[verifier::loop_isolation(false)]
pub fn candidates(base_dir: &String, search_roots: &Vec<String>, raw: &String) -> (r: Vec<String>)
    ensures
        r@.len() == search_roots@.len() + 1,
        path_views(r@) == candidates_spec(base_dir@, path_views(search_roots@), raw@),
{
    let mut r: Vec<String> = Vec::new();
    r.push(join(base_dir, raw));
    let mut i: usize = 0;
    while i < search_roots.len()
        invariant
            i <= search_roots@.len(),
            r@.len() == i + 1,
            path_views(r@) =~= candidates_spec(base_dir@, path_views(search_roots@), raw@).subrange(
                0,
                i + 1,
            ),
        decreases search_roots@.len() - i,
    {
        r.push(join(&search_roots[i], raw));
        i = i + 1;
    }
    proof {
        assert(path_views(r@) =~= candidates_spec(base_dir@, path_views(search_roots@), raw@));
    }
    r
}

/// Resolve `raw` given the existence answer for each candidate, instead of
/// asking storage: the decision logic of resolution, fully determined by
/// its arguments.
#[verifier::loop_isolation(false)]
pub fn resolve_with(
    base_dir: &String,
    search_roots: &Vec<String>,
    raw: &String,
    exist: &Vec<bool>,
) -> (r: String)
    requires
        !is_abs(raw@) && search_roots@.len() > 0 ==> exist@.len() == search_roots@.len() + 1,
    ensures
        r@ == resolved_spec(base_dir@, path_views(search_roots@), raw@, exist@),
{
    if is_absolute(raw) {
        raw.clone()
    } else if search_roots.len() == 0 {
        join(base_dir, raw)
    } else {
        let cands = candidates(base_dir, search_roots, raw);
        let mut i: usize = 0;
        while i < exist.len()
            invariant
                i <= exist@.len(),
                forall|j: int| 0 <= j < i ==> !exist@[j],
            decreases exist@.len() - i,
        {
            if exist[i] {
                proof {
                    lemma_first_true_at(exist@, i as int);
                }
                return cands[i].clone();
            }
            i = i + 1;
        }
        proof {
            lemma_first_true_at(exist@, exist@.len() as int);
        }
        cands[0].clone()
    }
}

/// Resolve one raw import path, probing storage for the candidates in
/// order. An absolute path and the no-search-roots case never touch
/// storage and always succeed; otherwise the result is what some pattern
/// of existence answers yields, and only a failed existence check (an I/O
/// error, not a missing file) makes the resolution fail.
#[verifier::loop_isolation(false)]
pub fn resolve(base_dir: &String, search_roots: &Vec<String>, raw: &String) -> (r: Result<
    String,
    DepError,
>)
    ensures
        is_abs(raw@) ==> (r matches Ok(p) && p@ == raw@),
        !is_abs(raw@) && search_roots@.len() == 0 ==> (r matches Ok(p) && p@ == join_spec(
            base_dir@,
            raw@,
        )),
        r matches Ok(p) ==> resolution_ok(base_dir@, path_views(search_roots@), raw@, p@),
        r matches Err(e) ==> !is_abs(raw@) && search_roots@.len() > 0 && (e matches DepError::Io {
            path,
            ..
        } && path@ == raw@),
{
    if is_absolute(raw) {
        proof {
            assert(path_views(search_roots@).len() == search_roots@.len());
            let ex = Seq::new(search_roots@.len() + 1, |i: int| false);
            assert(raw@ == resolved_spec(base_dir@, path_views(search_roots@), raw@, ex));
        }
        Ok(raw.clone())
    } else if search_roots.len() == 0 {
        proof {
            assert(path_views(search_roots@).len() == search_roots@.len());
            let ex = Seq::new(search_roots@.len() + 1, |i: int| false);
            assert(join_spec(base_dir@, raw@) == resolved_spec(
                base_dir@,
                path_views(search_roots@),
                raw@,
                ex,
            ));
        }
        Ok(join(base_dir, raw))
    } else {
        let cands = candidates(base_dir, search_roots, raw);
        let n: usize = cands.len();
        let mut i: usize = 0;
        while i < n
            invariant
                i <= n,
                n == cands@.len(),
            decreases n - i,
        {
            match path_exists(&cands[i]) {
                Result::Err(detail) => {
                    return Err(DepError::Io { path: raw.clone(), detail });
                },
                Result::Ok(true) => {
                    proof {
                        assert(path_views(search_roots@).len() == search_roots@.len());
                        let ex = Seq::new(
                            cands@.len() as nat,
                            |j: int|
                                if j < i {
                                    false
                                } else if j == i {
                                    true
                                } else {
                                    false
                                },
                        );
                        lemma_first_true_at(ex, i as int);
                        assert(cands@[i as int]@ == resolved_spec(
                            base_dir@,
                            path_views(search_roots@),
                            raw@,
                            ex,
                        ));
                    }
                    return Ok(cands[i].clone());
                },
                Result::Ok(false) => {
                    i = i + 1;
                },
            }
        }
        proof {
            assert(path_views(search_roots@).len() == search_roots@.len());
            let ex = Seq::new(cands@.len() as nat, |j: int| false);
            lemma_first_true_at(ex, ex.len() as int);
            assert(cands@[0]@ == resolved_spec(base_dir@, path_views(search_roots@), raw@, ex));
        }
        Ok(cands[0].clone())
    }
}

} // verus!
