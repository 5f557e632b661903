//! Sets of symbol names.

use vstd::hash_set::StringHashSet;
use vstd::prelude::*;
use vstd::string::*;

use crate::order;

verus! {

/// A set of symbol names that can also be listed.
pub struct SymbolSet {
    names: Vec<String>,
    index: StringHashSet,
}

impl View for SymbolSet {
    type V = Set<Seq<char>>;

    closed spec fn view(&self) -> Set<Seq<char>> {
        self.index@
    }
}

impl SymbolSet {
    /// Whether the list and the index hold the same names, each once.
    pub closed spec fn wf(&self) -> bool {
        &&& self.names.deep_view().to_set() == self.index@
        &&& self.names.deep_view().no_duplicates()
    }

    /// The empty set.
    pub fn new() -> (r: SymbolSet)
        ensures
            r.wf(),
            r@ == Set::<Seq<char>>::empty(),
    {
        let r = SymbolSet { names: Vec::new(), index: StringHashSet::new() };
        assert(r.names.deep_view().to_set() =~= Set::empty());
        r
    }

    /// The set of the names in a list.
    pub fn of(names: &[String]) -> (r: SymbolSet)
        ensures
            r.wf(),
            r@ == names.deep_view().to_set(),
    {
        let mut r = SymbolSet::new();
        let n: usize = names.len();
        assert(names.deep_view().take(0).to_set() =~= Set::empty());
        for i in 0..n
            invariant
                n == names@.len(),
                r.wf(),
                r@ == names.deep_view().take(i as int).to_set(),
        {
            let ghost seen = names.deep_view().take(i as int);
            assert(names.deep_view().take(i + 1) =~= seen.push(names@[i as int]@));
            proof {
                lemma_push_to_set(seen, names@[i as int]@);
            }
            r.insert(names[i].clone());
        }
        assert(names.deep_view().take(n as int) =~= names.deep_view());
        r
    }

    /// Adds a name.
    pub fn insert(&mut self, name: String)
        requires
            old(self).wf(),
        ensures
            final(self).wf(),
            final(self)@ == old(self)@.insert(name@),
    {
        if !self.index.contains(name.as_str()) {
            let ghost before = self.names.deep_view();
            self.index.insert(name.clone());
            self.names.push(name);
            assert(self.names.deep_view() =~= before.push(name@));
            proof {
                lemma_push_to_set(before, name@);
                assert(!before.contains(name@)) by {
                    if before.contains(name@) {
                        assert(before.to_set().contains(name@));
                    }
                }
            }
        } else {
            assert(self@.insert(name@) =~= self@);
        }
    }

    /// Whether the set holds a name.
    pub fn contains(&self, name: &str) -> (r: bool)
        ensures
            r == self@.contains(name@),
    {
        self.index.contains(name)
    }

    /// Whether the set is empty.
    pub fn is_empty(&self) -> (r: bool)
        ensures
            r == self@.is_empty(),
    {
        self.index.is_empty()
    }

    /// The number of names in the set.
    pub fn len(&self) -> (r: usize)
        ensures
            r == self@.len(),
    {
        self.index.len()
    }

    /// The names of the set, each once, in no particular order.
    pub fn names(&self) -> (r: &Vec<String>)
        requires
            self.wf(),
        ensures
            r.deep_view().to_set() == self@,
            r.deep_view().no_duplicates(),
    {
        &self.names
    }

    /// The names of the set in ascending order.
    pub fn sorted(&self) -> (r: Vec<String>)
        requires
            self.wf(),
        ensures
            r.deep_view() == order::listing(self@),
            order::ascending(r.deep_view()),
            r.deep_view().to_set() == self@,
    {
        order::sorted(&self.names)
    }
}

/// Appending an element to a list inserts it into the list's set.
pub proof fn lemma_push_to_set(s: Seq<Seq<char>>, new: Seq<char>)
    ensures
        s.push(new).to_set() == s.to_set().insert(new),
{
    assert forall|n: Seq<char>|
        s.push(new).to_set().contains(n) <==> s.to_set().insert(new).contains(n) by {
        if s.contains(n) {
            let k = choose|k: int| 0 <= k < s.len() && s[k] == n;
            assert(s.push(new)[k] == n);
        }
        assert(s.push(new)[s.len() as int] == new);
    }
    assert(s.push(new).to_set() =~= s.to_set().insert(new));
}

} // verus!
