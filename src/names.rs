//! Collections keyed by name, as a frame holds its targets, scenes and cameras.

use vstd::prelude::*;
use crate::assoc::{keys_unique, to_map, lemma_absent, lemma_present, lemma_update, lemma_push};

verus! {

/// A map from names to values; inserting under a name that is present
/// replaces its value.
pub struct NameMap<T> {
    entries: Vec<(String, T)>,
}

/// The (name, value) pairs as spec values.
pub open spec fn named_pairs<T>(s: Seq<(String, T)>) -> Seq<(Seq<char>, T)> {
    s.map_values(|e: (String, T)| (e.0@, e.1))
}

impl<T> NameMap<T> {
    pub closed spec fn pairs(&self) -> Seq<(Seq<char>, T)> {
        named_pairs(self.entries@)
    }

    /// Each name occurs once.
    pub closed spec fn wf(&self) -> bool {
        keys_unique(self.pairs())
    }

    /// What the collection holds, by name.
    pub closed spec fn view(&self) -> Map<Seq<char>, T> {
        to_map(self.pairs())
    }

    /// An empty collection.
    pub fn new() -> (r: Self)
        ensures
            r.wf(),
            r@ == Map::<Seq<char>, T>::empty(),
    {
        let r = NameMap { entries: Vec::new() };
        assert(r.pairs() =~= Seq::<(Seq<char>, T)>::empty());
        r
    }

    /// Stores `value` under `name`, replacing what was there.
    pub fn insert(&mut self, name: String, value: T)
        requires
            old(self).wf(),
        ensures
            final(self).wf(),
            final(self)@ == old(self)@.insert(name@, value),
    {
        let ghost k = name@;
        let mut i: usize = 0;
        while i < self.entries.len()
            invariant
                self.wf(),
                *self == *old(self),
                k == name@,
                0 <= i <= self.entries.len(),
                forall|j: int| 0 <= j < i ==> #[trigger] self.pairs()[j].0 != k,
            decreases self.entries.len() - i,
        {
            if self.entries[i].0 == name {
                proof {
                    lemma_update(self.pairs(), i as int, value);
                }
                let ghost before = self.entries@;
                self.entries.set(i, (name, value));
                assert(named_pairs(self.entries@) =~= named_pairs(before).update(
                    i as int,
                    (k, value),
                ));
                return;
            }
            i = i + 1;
        }
        proof {
            lemma_push(self.pairs(), k, value);
        }
        let ghost before = self.entries@;
        self.entries.push((name, value));
        assert(named_pairs(self.entries@) =~= named_pairs(before).push((k, value)));
    }

    /// The value stored under `name`, if any.
    pub fn get(&self, name: &String) -> (r: Option<&T>)
        requires
            self.wf(),
        ensures
            match r {
                Some(v) => self@.contains_key(name@) && *v == self@[name@],
                None => !self@.contains_key(name@),
            },
    {
        let mut i: usize = 0;
        while i < self.entries.len()
            invariant
                self.wf(),
                0 <= i <= self.entries.len(),
                forall|j: int| 0 <= j < i ==> #[trigger] self.pairs()[j].0 != name@,
            decreases self.entries.len() - i,
        {
            if self.entries[i].0 == *name {
                proof {
                    lemma_present(self.pairs(), i as int);
                }
                return Some(&self.entries[i].1);
            }
            i = i + 1;
        }
        proof {
            lemma_absent(self.pairs(), name@);
        }
        None
    }

    /// The number of names held.
    pub fn len(&self) -> (r: usize)
        requires
            self.wf(),
        ensures
            r == self@.len(),
    {
        proof {
            lemma_len(self.pairs());
        }
        self.entries.len()
    }
}

/// With unique keys the map has one key per pair.
proof fn lemma_len<K, V>(s: Seq<(K, V)>)
    requires
        keys_unique(s),
    ensures
        to_map(s).len() == s.len(),
        to_map(s).dom().finite(),
    decreases s.len(),
{
    if s.len() > 0 {
        let t = s.drop_last();
        lemma_len(t);
        lemma_absent(t, s.last().0);
    }
}

} // verus!
