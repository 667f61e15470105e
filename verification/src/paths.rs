//! The library's model of file paths: `/`-separated strings, absolute when
//! they start with `/`. Joining a base directory with a relative path mirrors
//! the usual push semantics: an absolute right-hand side replaces the base,
//! an empty base disappears, and exactly one separator stands between the
//! two parts otherwise.

use vstd::prelude::*;

verus! {

/// A path is absolute when it starts with a separator.
pub open spec fn is_abs(p: Seq<char>) -> bool {
    p.len() > 0 && p[0] == '/'
}

/// What joining `base` with `rel` yields.
pub open spec fn join_spec(base: Seq<char>, rel: Seq<char>) -> Seq<char> {
    if is_abs(rel) {
        rel
    } else if base.len() == 0 {
        rel
    } else if base.last() == '/' {
        base + rel
    } else {
        base + seq!['/'] + rel
    }
}

/// The abstract content of a list of paths.
pub open spec fn path_views(s: Seq<String>) -> Seq<Seq<char>> {
    s.map_values(|p: String| p@)
}

/// Whether the list holds the given path.
#[verifier::loop_isolation(false)]
pub fn contains_path(v: &Vec<String>, x: &String) -> (r: bool)
    ensures
        r == path_views(v@).contains(x@),
{
    let mut i: usize = 0;
    while i < v.len()
        invariant
            i <= v@.len(),
            forall|j: int| 0 <= j < i ==> path_views(v@)[j] != x@,
        decreases v@.len() - i,
    {
        if x.eq(&v[i]) {
            proof {
                assert(path_views(v@)[i as int] == x@);
            }
            return true;
        }
        i = i + 1;
    }
    proof {
        assert(!path_views(v@).contains(x@));
    }
    false
}

/// Whether the string is an absolute path.
pub fn is_absolute(p: &String) -> (r: bool)
    ensures
        r == is_abs(p@),
{
    let s: &str = p.as_str();
    if s.unicode_len() == 0 {
        false
    } else {
        s.get_char(0) == '/'
    }
}

/// Join a base directory with a (possibly absolute) path.
pub fn join(base: &String, rel: &String) -> (r: String)
    ensures
        r@ == join_spec(base@, rel@),
{
    proof {
        reveal_strlit("/");
    }
    if is_absolute(rel) {
        rel.clone()
    } else {
        let base_len = base.as_str().unicode_len();
        if base_len == 0 {
            rel.clone()
        } else if base.as_str().get_char(base_len - 1) == '/' {
            let mut r = base.clone();
            r.append(rel.as_str());
            r
        } else {
            let mut r = base.clone();
            r.append("/");
            r.append(rel.as_str());
            proof {
                assert(r@ =~= base@ + seq!['/'] + rel@);
            }
            r
        }
    }
}

} // verus!
