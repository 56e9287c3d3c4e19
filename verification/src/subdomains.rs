//! A set of host names, kept as a list in which no name occurs twice.
use vstd::prelude::*;

use crate::text::{to_owned_string, views};

verus! {

broadcast use vstd::seq_lib::seq_to_set_is_finite;

/// A finite set of host names.
pub struct SubdomainSet {
    names: Vec<String>,
}

impl SubdomainSet {
    /// The names, in the order in which they were first inserted.
    pub closed spec fn names(self) -> Seq<Seq<char>> {
        views(self.names@)
    }

    #[verifier::type_invariant]
    spec fn no_name_twice(self) -> bool {
        self.names().no_duplicates()
    }
}

impl View for SubdomainSet {
    type V = Set<Seq<char>>;

    closed spec fn view(&self) -> Set<Seq<char>> {
        self.names().to_set()
    }
}

impl SubdomainSet {
    /// A list that holds no name twice has as many names as its set.
    proof fn lemma_names(self)
        requires
            self.names().no_duplicates(),
        ensures
            self@ == self.names().to_set(),
            self@.finite(),
            self@.len() == self.names().len(),
    {
        self.names().unique_seq_to_set();
    }

    /// The empty set.
    pub fn new() -> (s: SubdomainSet)
        ensures
            s@ == Set::<Seq<char>>::empty(),
    {
        let s = SubdomainSet { names: Vec::new() };
        assert(s.names() =~= Seq::<Seq<char>>::empty());
        assert(s@ =~= Set::<Seq<char>>::empty());
        s
    }

    /// The index of `name` in the list, if it is there.
    fn position(&self, name: &String) -> (r: Option<usize>)
        ensures
            r matches Some(i) ==> i < self.names().len() && self.names()[i as int] == name@,
            r is None ==> !self.names().contains(name@),
    {
        let n = self.names.len();
        let mut i: usize = 0;
        while i < n
            invariant
                i <= n,
                n == self.names@.len(),
                forall|k: int| 0 <= k < i ==> self.names()[k] != name@,
            decreases n - i,
        {
            if self.names[i] == *name {
                return Some(i);
            }
            i += 1;
        }
        None
    }

    /// Whether `name` is in the set (`HashSet::contains`).
    pub fn contains(&self, name: &str) -> (r: bool)
        ensures
            r == self@.contains(name@),
    {
        let owned = to_owned_string(name);
        let r = self.position(&owned);
        r.is_some()
    }

    /// Adds `name`; answers whether it was not there before (`HashSet::insert`).
    pub fn insert(&mut self, name: String) -> (added: bool)
        ensures
            final(self)@ == old(self)@.insert(name@),
            added == !old(self)@.contains(name@),
    {
        proof {
            use_type_invariant(&*self);
        }
        if self.position(&name).is_some() {
            return false;
        }
        let ghost before = self.names();
        let ghost v = name@;
        let mut names: Vec<String> = Vec::new();
        std::mem::swap(&mut names, &mut self.names);
        names.push(name);
        assert(views(names@) =~= before.push(v));
        proof {
            let w = views(names@);
            assert forall|i: int, j: int|
                0 <= i < w.len() && 0 <= j < w.len() && i != j implies w[i] != w[j] by {
                if i < before.len() && j < before.len() {
                    assert(w[i] == before[i] && w[j] == before[j]);
                } else if i == before.len() {
                    assert(w[j] == before[j]);
                    if before[j] == v {
                        assert(before.contains(v));
                    }
                } else {
                    assert(w[i] == before[i]);
                    if before[i] == v {
                        assert(before.contains(v));
                    }
                }
            }
        }
        self.names = names;
        proof {
            assert(self.names() =~= before.push(v));
            before.lemma_push_to_set_commute(v);
        }
        true
    }

    /// Adds every name of `other` (`Extend` of one set by another).
    pub fn extend(&mut self, other: SubdomainSet)
        ensures
            final(self)@ == old(self)@.union(other@),
    {
        let items = other.into_vec();
        let n = items.len();
        let ghost start = self@;
        let mut i: usize = 0;
        while i < n
            invariant
                i <= n,
                n == items@.len(),
                views(items@).to_set() == other@,
                self@ == start.union(views(items@).take(i as int).to_set()),
            decreases n - i,
        {
            let name = items[i].clone();
            self.insert(name);
            proof {
                assert(views(items@).take(i + 1) =~= views(items@).take(i as int).push(items@[i as int]@));
                views(items@).take(i as int).lemma_push_to_set_commute(items@[i as int]@);
                assert(self@ =~= start.union(views(items@).take(i + 1).to_set()));
            }
            i += 1;
        }
        assert(views(items@).take(n as int) =~= views(items@));
    }

    /// The number of names (`HashSet::len`).
    pub fn len(&self) -> (r: usize)
        ensures
            r == self@.len(),
    {
        proof {
            use_type_invariant(self);
            self.lemma_names();
        }
        self.names.len()
    }

    /// Whether the set holds no name.
    pub fn is_empty(&self) -> (r: bool)
        ensures
            r == (self@.len() == 0),
    {
        self.len() == 0
    }

    /// The names, each once, in the order of first insertion.
    pub fn to_vec(&self) -> (r: Vec<String>)
        ensures
            views(r@) == self.names(),
            views(r@).to_set() == self@,
            views(r@).no_duplicates(),
            r@.len() == self@.len(),
    {
        proof {
            use_type_invariant(self);
            self.lemma_names();
        }
        let r = self.names.clone();
        assert(views(r@) =~= self.names());
        r
    }

    /// The names, each once, in the order of first insertion, giving up the set.
    pub fn into_vec(self) -> (r: Vec<String>)
        ensures
            views(r@) == self.names(),
            views(r@).to_set() == self@,
            views(r@).no_duplicates(),
            r@.len() == self@.len(),
    {
        proof {
            use_type_invariant(&self);
            self.lemma_names();
        }
        self.names
    }
}

} // verus!
