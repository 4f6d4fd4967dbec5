//! An association list: values under distinct names.

use crate::text;
use vstd::prelude::*;

verus! {

/// `i` is the first place where a list holds the name.
pub open spec fn first_at<V>(entries: Seq<(String, V)>, name: Seq<char>, i: int) -> bool {
    &&& 0 <= i < entries.len()
    &&& entries[i].0@ == name
    &&& forall|j: int| 0 <= j < i ==> (#[trigger] entries[j]).0@ != name
}

/// Values under names, in the order in which the names came.
pub struct Assoc<V> {
    entries: Vec<(String, V)>,
}

impl<V> View for Assoc<V> {
    type V = Map<Seq<char>, V>;

    closed spec fn view(&self) -> Map<Seq<char>, V> {
        Map::new(
            |k: Seq<char>| exists|i: int| first_at(self.entries@, k, i),
            |k: Seq<char>| self.entries@[choose|i: int| first_at(self.entries@, k, i)].1,
        )
    }
}

impl<V> Assoc<V> {
    pub fn new() -> (r: Self)
        ensures
            r@ == Map::<Seq<char>, V>::empty(),
    {
        let r = Assoc { entries: Vec::new() };
        assert(r@ =~= Map::<Seq<char>, V>::empty());
        r
    }

    proof fn lemma_at(&self, name: Seq<char>, i: int)
        requires
            first_at(self.entries@, name, i),
        ensures
            self@.contains_key(name),
            self@[name] == self.entries@[i].1,
    {
        let k = choose|k: int| first_at(self.entries@, name, k);
        assert(first_at(self.entries@, name, k));
        assert(k == i);
    }

    fn position(&self, name: &str) -> (r: Option<usize>)
        ensures
            match r {
                Some(i) => first_at(self.entries@, name@, i as int) && self@.contains_key(name@)
                    && self@[name@] == self.entries@[i as int].1,
                None => !self@.contains_key(name@) && forall|j: int|
                    0 <= j < self.entries@.len() ==> (#[trigger] self.entries@[j]).0@ != name@,
            },
    {
        let mut i: usize = 0;
        while i < self.entries.len()
            invariant
                i <= self.entries@.len(),
                forall|j: int| 0 <= j < i ==> (#[trigger] self.entries@[j]).0@ != name@,
            decreases self.entries@.len() - i,
        {
            if text::same_text(self.entries[i].0.as_str(), name) {
                proof {
                    self.lemma_at(name@, i as int);
                }
                return Some(i);
            }
            i += 1;
        }
        None
    }

    /// The value under a name.
    pub fn get(&self, name: &str) -> (r: Option<&V>)
        ensures
            match r {
                Some(v) => self@.contains_key(name@) && *v == self@[name@],
                None => !self@.contains_key(name@),
            },
    {
        match self.position(name) {
            Some(i) => Some(&self.entries[i].1),
            None => None,
        }
    }

    /// Whether there is no name.
    pub fn is_empty(&self) -> (r: bool)
        ensures
            r == (self@ == Map::<Seq<char>, V>::empty()),
    {
        let r = self.entries.len() == 0;
        proof {
            if r {
                assert(self@ =~= Map::<Seq<char>, V>::empty());
            } else {
                let name = self.entries@[0].0@;
                assert(first_at(self.entries@, name, 0));
                self.lemma_at(name, 0);
            }
        }
        r
    }

    /// Put a value under a name, in place of an earlier one.
    pub fn insert(&mut self, name: &str, value: V)
        ensures
            final(self)@ == old(self)@.insert(name@, value),
    {
        match self.position(name) {
            Some(i) => {
                self.entries.set(i, (name.to_owned(), value));
                proof {
                    self.lemma_shape(*old(self), name@, value, i as int);
                }
            },
            None => {
                self.entries.push((name.to_owned(), value));
                proof {
                    self.lemma_shape(*old(self), name@, value, old(self).entries@.len() as int);
                }
            },
        }
    }

    proof fn lemma_shape(&self, before: Self, name: Seq<char>, value: V, at: int)
        requires
            first_at(self.entries@, name, at),
            self.entries@[at].1 == value,
            before.entries@.len() <= self.entries@.len(),
            forall|j: int| 0 <= j < self.entries@.len() && j != at ==> j < before.entries@.len()
                && #[trigger] self.entries@[j] == before.entries@[j],
            at < before.entries@.len() ==> before.entries@[at].0@ == name,
        ensures
            self@ == before@.insert(name, value),
    {
        let m = before@.insert(name, value);
        self.lemma_at(name, at);
        assert forall|k: Seq<char>| #[trigger] self@.contains_key(k) implies m.contains_key(k) && self@[k] == m[k] by {
            let i = choose|i: int| first_at(self.entries@, k, i);
            self.lemma_at(k, i);
            if k != name {
                assert forall|j: int| 0 <= j < i implies (#[trigger] before.entries@[j]).0@ != k by {
                    assert(self.entries@[j].0@ != k);
                }
                assert(first_at(before.entries@, k, i));
                before.lemma_at(k, i);
            }
        }
        assert forall|k: Seq<char>| #[trigger] m.contains_key(k) implies self@.contains_key(k) by {
            if k != name {
                let i = choose|i: int| first_at(before.entries@, k, i);
                assert(first_at(before.entries@, k, i));
                assert forall|j: int| 0 <= j < i implies (#[trigger] self.entries@[j]).0@ != k by {
                    assert(before.entries@[j].0@ != k);
                }
                assert(self.entries@[i] == before.entries@[i]);
                assert(first_at(self.entries@, k, i));
            }
        }
        assert(self@.dom() =~= m.dom());
        assert(self@ =~= m);
    }
}

} // verus!
