//! The set of dependency paths that a run gathers.

use vstd::prelude::*;
use vstd::hash_set::StringHashSet;
use crate::text::views;

verus! {

/// A set of paths, each held once. It remembers the order in which its members
/// came, which has no meaning beyond letting them be read out.
pub struct DependencySet {
    members: Vec<String>,
    index: StringHashSet,
}

impl View for DependencySet {
    type V = Set<Seq<char>>;

    closed spec fn view(&self) -> Set<Seq<char>> {
        self.index@
    }
}

/// Whether `members` lists the strings of `index`, each once.
spec fn lists_once(members: Seq<String>, index: Set<Seq<char>>) -> bool {
    &&& views(members).no_duplicates()
    &&& views(members).to_set() == index
}

/// Puts a string that `index` lacks into both the list and the index.
fn record(members: &mut Vec<String>, index: &mut StringHashSet, path: String)
    requires
        lists_once(old(members)@, old(index)@),
        !old(index)@.contains(path@),
    ensures
        lists_once(final(members)@, final(index)@),
        final(index)@ == old(index)@.insert(path@),
{
    let ghost before = views(members@);
    index.insert(path.clone());
    members.push(path);
    proof {
        let after = views(members@);
        assert(after =~= before.push(path@));
        assert forall|i: int, j: int| 0 <= i < after.len() && 0 <= j < after.len() && i != j implies after[i]
            != after[j] by {
            if i < before.len() {
                assert(before.to_set().contains(before[i]));
            }
            if j < before.len() {
                assert(before.to_set().contains(before[j]));
            }
        }
        assert forall|p: Seq<char>| after.to_set().contains(p) <==> index@.contains(p) by {
            if after.to_set().contains(p) {
                let i = choose|i: int| 0 <= i < after.len() && after[i] == p;
                if i < before.len() {
                    assert(before.to_set().contains(before[i]));
                }
            }
            if index@.contains(p) {
                if p == path@ {
                    assert(after[before.len() as int] == p);
                } else {
                    assert(before.to_set().contains(p));
                    let i = choose|i: int| 0 <= i < before.len() && before[i] == p;
                    assert(after[i] == p);
                }
            }
        }
        assert(after.to_set() =~= index@);
    }
}

impl DependencySet {
    /// Whether the set is in order within: it lists each of its paths once.
    pub closed spec fn well_formed(&self) -> bool {
        lists_once(self.members@, self.index@)
    }

    /// The empty set.
    pub fn new() -> (set: DependencySet)
        ensures
            set.well_formed(),
            set@ == Set::<Seq<char>>::empty(),
    {
        let members: Vec<String> = Vec::new();
        let index = StringHashSet::new();
        assert(views(members@).to_set() =~= index@);
        DependencySet { members, index }
    }

    /// Whether the set holds `path`.
    pub fn contains(&self, path: &str) -> (held: bool)
        ensures
            held == self@.contains(path@),
    {
        self.index.contains(path)
    }

    /// Adds `path` to the set, and says whether it was new.
    pub fn insert(&mut self, path: String) -> (added: bool)
        requires
            old(self).well_formed(),
        ensures
            final(self).well_formed(),
            final(self)@ == old(self)@.insert(path@),
            added == !old(self)@.contains(path@),
    {
        if self.index.contains(path.as_str()) {
            assert(self@.insert(path@) =~= self@);
            false
        } else {
            record(&mut self.members, &mut self.index, path);
            true
        }
    }

    /// The number of paths in the set.
    pub fn len(&self) -> (count: usize)
        requires
            self.well_formed(),
        ensures
            count == self@.len(),
            self@.finite(),
    {
        proof {
            views(self.members@).unique_seq_to_set();
        }
        self.members.len()
    }

    /// The members of the set, each once, in the order in which they came.
    pub fn members(&self) -> (paths: &Vec<String>)
        requires
            self.well_formed(),
        ensures
            views(paths@).to_set() == self@,
            views(paths@).no_duplicates(),
    {
        &self.members
    }
}

} // verus!
