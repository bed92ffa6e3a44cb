//! Values by type name.

use vstd::prelude::*;

verus! {

/// `str`'s `==`: whether two strings hold the same characters.
#[verifier::external_body]
pub(crate) fn same_str(a: &str, b: &str) -> (same: bool)
    ensures
        same == (a@ == b@),
{
    a == b
}

/// A map from type names to values. A world has few types to tell apart, so the names are searched
/// one by one.
#[derive(Debug)]
pub struct ByName<V> {
    entries: Vec<(&'static str, V)>,
}

impl<V> View for ByName<V> {
    type V = Map<Seq<char>, V>;

    closed spec fn view(&self) -> Map<Seq<char>, V> {
        Map::new(|name: Seq<char>| self.has(name), |name: Seq<char>| self.entries@[self.place(name)].1)
    }
}

impl<V> ByName<V> {
    /// No name occurs twice.
    pub closed spec fn wf(&self) -> bool {
        forall|i: int, j: int|
            0 <= i < j < self.entries@.len() ==> (#[trigger] self.entries@[i]).0@ != (
            #[trigger] self.entries@[j]).0@
    }

    spec fn is_at(&self, name: Seq<char>, i: int) -> bool {
        0 <= i < self.entries@.len() && self.entries@[i].0@ == name
    }

    spec fn has(&self, name: Seq<char>) -> bool {
        exists|i: int| self.is_at(name, i)
    }

    spec fn place(&self, name: Seq<char>) -> int {
        choose|i: int| self.is_at(name, i)
    }

    /// A map without names.
    pub fn new() -> (map: Self)
        ensures
            map.wf(),
            map@ == Map::<Seq<char>, V>::empty(),
    {
        ByName { entries: Vec::new() }
    }

    /// Where a name stands among the entries.
    fn find(&self, name: &str) -> (found: Option<usize>)
        requires
            self.wf(),
        ensures
            match found {
                Some(i) => self.is_at(name@, i as int) && self.place(name@) == i,
                None => !self.has(name@),
            },
    {
        let mut i: usize = 0;
        while i < self.entries.len()
            invariant
                self.wf(),
                i <= self.entries@.len(),
                forall|j: int| 0 <= j < i ==> !self.is_at(name@, j),
            decreases self.entries@.len() - i,
        {
            if same_str(self.entries[i].0, name) {
                return Some(i);
            }
            i += 1;
        }
        None
    }

    /// The value of a name.
    pub fn get(&self, name: &str) -> (value: Option<&V>)
        requires
            self.wf(),
        ensures
            value == (if self@.contains_key(name@) {
                Some(&self@[name@])
            } else {
                None
            }),
    {
        match self.find(name) {
            Some(i) => Some(&self.entries[i].1),
            None => None,
        }
    }

    /// Gives a name a value, in place of any that it had.
    pub fn insert(&mut self, name: &'static str, value: V)
        requires
            old(self).wf(),
        ensures
            final(self).wf(),
            final(self)@ == old(self)@.insert(name@, value),
    {
        match self.find(name) {
            Some(i) => {
                self.entries[i] = (name, value);
                proof {
                    assert(self.is_at(name@, i as int));
                }
            },
            None => {
                self.entries.push((name, value));
                proof {
                    assert(self.is_at(name@, self.entries@.len() - 1));
                    assert(forall|j: int|
                        0 <= j < old(self).entries@.len() ==> old(self).is_at(
                            (#[trigger] self.entries@[j]).0@,
                            j,
                        ));
                }
            },
        }
        proof {
            assert forall|other: Seq<char>| other != name@ implies self.has(other) == old(
                self,
            ).has(other) && (self.has(other) ==> self.place(other) == old(self).place(other)) by {
                if old(self).has(other) {
                    let j = old(self).place(other);
                    assert(self.is_at(other, j));
                }
                if self.has(other) {
                    let j = self.place(other);
                    assert(old(self).is_at(other, j));
                }
            }
        }
    }

    /// The names and their values, each name once.
    pub fn entries(&self) -> (entries: &Vec<(&'static str, V)>)
        requires
            self.wf(),
        ensures
            forall|i: int|
                0 <= i < entries@.len() ==> {
                    &&& self@.contains_key((#[trigger] entries@[i]).0@)
                    &&& self@[entries@[i].0@] == entries@[i].1
                },
            forall|i: int, j: int|
                0 <= i < j < entries@.len() ==> (#[trigger] entries@[i]).0@ != (
                #[trigger] entries@[j]).0@,
            forall|name: Seq<char>| #[trigger]
                self@.contains_key(name) ==> exists|i: int|
                    0 <= i < entries@.len() && (#[trigger] entries@[i]).0@ == name,
    {
        proof {
            assert forall|i: int| 0 <= i < self.entries@.len() implies {
                &&& self@.contains_key((#[trigger] self.entries@[i]).0@)
                &&& self@[self.entries@[i].0@] == self.entries@[i].1
            } by {
                assert(self.is_at(self.entries@[i].0@, i));
            }
        }
        &self.entries
    }
}

} // verus!
