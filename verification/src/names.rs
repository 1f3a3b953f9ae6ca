//! An ordered mapping from names to values in which no name occurs twice.

use crate::entries::{has_key, index_of, keys_distinct, lemma_lookup_at, lemma_upsert, lookup, upsert};
use crate::text::text_eq;
use vstd::prelude::*;

verus! {

/// An ordered mapping from names to values. A name that is stored again
/// keeps its place and takes the new value.
#[derive(Debug, PartialEq, Eq)]
pub struct NameMap<V: View> {
    entries: Vec<(String, V)>,
}

/// The models of the entries of a mapping, in order.
pub open spec fn entries_model<V: View>(entries: Seq<(String, V)>) -> Seq<(Seq<char>, V::V)> {
    Seq::new(entries.len(), |i: int| (entries[i].0@, entries[i].1@))
}

impl<V: View> View for NameMap<V> {
    type V = Seq<(Seq<char>, V::V)>;

    closed spec fn view(&self) -> Seq<(Seq<char>, V::V)> {
        entries_model(self.entries@)
    }
}

impl<V: View> NameMap<V> {
    #[verifier::type_invariant]
    closed spec fn names_distinct(self) -> bool {
        keys_distinct(self@)
    }

    /// The mapping without entries.
    pub fn new() -> (r: NameMap<V>)
        ensures
            r@ == Seq::<(Seq<char>, V::V)>::empty(),
    {
        let entries: Vec<(String, V)> = Vec::new();
        assert(entries_model(entries@) =~= Seq::<(Seq<char>, V::V)>::empty());
        NameMap { entries }
    }

    /// The number of entries, whose names are distinct.
    pub fn len(&self) -> (r: usize)
        ensures
            r == self@.len(),
            keys_distinct(self@),
    {
        proof {
            use_type_invariant(self);
        }
        self.entries.len()
    }

    /// The entry at place `i`, counted from 0 in insertion order.
    pub fn entry(&self, i: usize) -> (r: Option<(&String, &V)>)
        ensures
            r is Some == (i < self@.len()),
            r matches Some(e) ==> e.0@ == self@[i as int].0 && e.1@ == self@[i as int].1,
    {
        if i < self.entries.len() {
            let e = &self.entries[i];
            Some((&e.0, &e.1))
        } else {
            None
        }
    }

    /// The place of the entry named `key`.
    fn find(&self, key: &str) -> (r: Option<usize>)
        ensures
            r is Some == has_key(self@, key@),
            r matches Some(i) ==> i < self@.len() && self@[i as int].0 == key@ && index_of(
                self@,
                key@,
            ) == i,
    {
        proof {
            use_type_invariant(self);
        }
        let n: usize = self.entries.len();
        let mut i: usize = 0;
        while i < n
            invariant
                n == self.entries@.len(),
                n == self@.len(),
                i <= n,
                keys_distinct(self@),
                forall|j: int| 0 <= j < i ==> (#[trigger] self@[j]).0 != key@,
            decreases n - i,
        {
            if text_eq(self.entries[i].0.as_str(), key) {
                proof {
                    assert(self@[i as int].0 == key@);
                    lemma_lookup_at(self@, i as int);
                }
                return Some(i);
            }
            i += 1;
        }
        None
    }

    /// The value stored under `key`, if any.
    pub fn get(&self, key: &str) -> (r: Option<&V>)
        ensures
            r is Some == has_key(self@, key@),
            r matches Some(v) ==> lookup(self@, key@) == Some(v@),
    {
        match self.find(key) {
            Some(i) => Some(&self.entries[i].1),
            None => None,
        }
    }

    /// Whether an entry is named `key`.
    pub fn contains_key(&self, key: &str) -> (r: bool)
        ensures
            r == has_key(self@, key@),
    {
        self.find(key).is_some()
    }

    /// Stores `value` under `key`: in place where the name is already there,
    /// else at the end.
    pub fn insert(&mut self, key: String, value: V)
        ensures
            final(self)@ == upsert(old(self)@, key@, value@),
    {
        proof {
            use_type_invariant(&*self);
            lemma_upsert(self@, key@, value@);
        }
        let place = self.find(key.as_str());
        let mut entries: Vec<(String, V)> = Vec::new();
        core::mem::swap(&mut self.entries, &mut entries);
        match place {
            Some(i) => {
                entries.set(i, (key, value));
            },
            None => {
                entries.push((key, value));
            },
        }
        assert(entries_model(entries@) =~= upsert(old(self)@, key@, value@));
        self.entries = entries;
    }
}

} // verus!
