//! The analysis cache: a mapping from canonical file path to the analysis
//! of that file, populated lazily and never invalidated during a run.
//!
//! The cache is owned by the caller and passed into every closure query,
//! so a file analysed while resolving one root is not analysed again when
//! a later root also depends on it.

use vstd::prelude::*;

use crate::analysis::{Analysis, AnalysisView};

verus! {

/// Mapping from canonical file path to that file's analysis.
pub struct Cache {
    entries: Vec<(String, Analysis)>,
}

/// The mapping an entry list stands for, later entries winning.
pub closed spec fn entries_map(s: Seq<(String, Analysis)>) -> Map<Seq<char>, AnalysisView>
    decreases s.len(),
{
    if s.len() == 0 {
        Map::empty()
    } else {
        entries_map(s.drop_last()).insert(s.last().0@, s.last().1@)
    }
}

/// A key is in the mapping exactly when some entry carries it.
proof fn lemma_entries_map_membership(s: Seq<(String, Analysis)>, k: Seq<char>)
    ensures
        entries_map(s).contains_key(k) <==> exists|i: int|
            0 <= i < s.len() && (#[trigger] s[i]).0@ == k,
    decreases s.len(),
{
    if s.len() > 0 {
        lemma_entries_map_membership(s.drop_last(), k);
        assert(forall|i: int| 0 <= i < s.len() - 1 ==> s.drop_last()[i] == s[i]);
    }
}

/// When no later entry repeats the key, an entry's value is the mapping's.
proof fn lemma_entries_map_get(s: Seq<(String, Analysis)>, i: int)
    requires
        0 <= i < s.len(),
        forall|j: int| i < j < s.len() ==> (#[trigger] s[j]).0@ != s[i].0@,
    ensures
        entries_map(s).contains_key(s[i].0@),
        entries_map(s)[s[i].0@] == s[i].1@,
    decreases s.len(),
{
    if i < s.len() - 1 {
        assert(forall|j: int| i < j < s.len() - 1 ==> s.drop_last()[j] == s[j]);
        assert(s.drop_last()[i] == s[i]);
        lemma_entries_map_get(s.drop_last(), i);
    }
}

/// The mapping an entry list stands for has finitely many keys.
proof fn lemma_entries_map_finite(s: Seq<(String, Analysis)>)
    ensures
        entries_map(s).dom().finite(),
    decreases s.len(),
{
    if s.len() > 0 {
        lemma_entries_map_finite(s.drop_last());
    }
}

impl View for Cache {
    type V = Map<Seq<char>, AnalysisView>;

    closed spec fn view(&self) -> Map<Seq<char>, AnalysisView> {
        entries_map(self.entries@)
    }
}

impl Cache {
    /// Each path has at most one entry.
    #[verifier::type_invariant]
    spec fn wf(&self) -> bool {
        forall|i: int, j: int|
            0 <= i < j < self.entries@.len() ==> (#[trigger] self.entries@[i]).0@ != (
            #[trigger] self.entries@[j]).0@
    }

    /// The cache maps finitely many paths.
    pub proof fn lemma_dom_finite(&self)
        ensures
            self@.dom().finite(),
    {
        lemma_entries_map_finite(self.entries@);
    }

    /// An empty cache.
    pub fn new() -> (c: Cache)
        ensures
            c@ == Map::<Seq<char>, AnalysisView>::empty(),
    {
        Cache { entries: Vec::new() }
    }

    /// Whether the cache holds an analysis for the path.
    pub fn contains_key(&self, k: &String) -> (r: bool)
        ensures
            r == self@.contains_key(k@),
    {
        self.get(k).is_some()
    }

    /// The cached analysis of the path, if any.
    #[verifier::loop_isolation(false)]
    pub fn get(&self, k: &String) -> (r: Option<&Analysis>)
        ensures
            match r {
                Option::Some(a) => self@.contains_key(k@) && a@ == self@[k@],
                Option::None => !self@.contains_key(k@),
            },
    {
        proof {
            use_type_invariant(self);
        }
        let mut i: usize = 0;
        while i < self.entries.len()
            invariant
                i <= self.entries@.len(),
                forall|j: int| 0 <= j < i ==> (#[trigger] self.entries@[j]).0@ != k@,
            decreases self.entries@.len() - i,
        {
            if self.entries[i].0.eq(k) {
                proof {
                    lemma_entries_map_get(self.entries@, i as int);
                }
                return Some(&self.entries[i].1);
            }
            i = i + 1;
        }
        proof {
            lemma_entries_map_membership(self.entries@, k@);
        }
        None
    }

    /// Record the analysis of a path not yet in the cache.
    pub fn insert(self, k: String, a: Analysis) -> (r: Cache)
        requires
            !self@.contains_key(k@),
        ensures
            r@ == self@.insert(k@, a@),
    {
        proof {
            use_type_invariant(&self);
            lemma_entries_map_membership(self.entries@, k@);
        }
        let Cache { mut entries } = self;
        let ghost prev = entries@;
        entries.push((k, a));
        proof {
            assert(entries@.drop_last() =~= prev);
            assert(forall|i: int| 0 <= i < prev.len() ==> entries@[i] == prev[i]);
        }
        Cache { entries }
    }
}

} // verus!
