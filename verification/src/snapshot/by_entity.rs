//! Hashes by entity and type name.

use super::by_name::ByName;
use std::collections::HashMap;
use vstd::prelude::*;

verus! {

/// A map from an entity's rollback order and a type name to a hash. The hashes lie in `entries`;
/// `places` has the position of every pair.
#[derive(Debug)]
pub struct ByEntity {
    places: HashMap<u64, ByName<usize>>,
    entries: Vec<((u64, &'static str), u64)>,
}

impl View for ByEntity {
    type V = Map<(u64, Seq<char>), u64>;

    closed spec fn view(&self) -> Map<(u64, Seq<char>), u64> {
        Map::new(
            |key: (u64, Seq<char>)| self.has(key.0, key.1),
            |key: (u64, Seq<char>)| self.entries@[self.place(key.0, key.1)].1,
        )
    }
}

impl ByEntity {
    spec fn has(&self, order: u64, name: Seq<char>) -> bool {
        self.places@.contains_key(order) && self.places@[order]@.contains_key(name)
    }

    spec fn place(&self, order: u64, name: Seq<char>) -> int {
        self.places@[order]@[name] as int
    }

    /// The places and the entries tell the same.
    pub closed spec fn wf(&self) -> bool {
        &&& forall|order: u64| #[trigger]
            self.places@.contains_key(order) ==> self.places@[order].wf()
        &&& forall|order: u64, name: Seq<char>| #[trigger]
            self.has(order, name) ==> {
                &&& 0 <= self.place(order, name) < self.entries@.len()
                &&& self.entries@[self.place(order, name)].0.0 == order
                &&& self.entries@[self.place(order, name)].0.1@ == name
            }
        &&& forall|i: int|
            0 <= i < self.entries@.len() ==> {
                let key = (#[trigger] self.entries@[i]).0;
                self.has(key.0, key.1@) && self.place(key.0, key.1@) == i
            }
    }

    /// A map without hashes.
    pub fn new() -> (map: Self)
        ensures
            map.wf(),
            map@ == Map::<(u64, Seq<char>), u64>::empty(),
    {
        ByEntity { places: HashMap::new(), entries: Vec::new() }
    }

    /// The hash of an entity's component.
    pub fn get(&self, order: u64, name: &str) -> (hash: Option<u64>)
        requires
            self.wf(),
        ensures
            hash == (if self@.contains_key((order, name@)) {
                Some(self@[(order, name@)])
            } else {
                None
            }),
    {
        match self.places.get(&order) {
            Some(names) => match names.get(name) {
                Some(place) => {
                    assert(self.has(order, name@));
                    Some(self.entries[*place].1)
                },
                None => None,
            },
            None => None,
        }
    }

    /// Sets the hash of an entity's component, in place of any that it had.
    pub fn insert(&mut self, order: u64, name: &'static str, hash: u64)
        requires
            old(self).wf(),
        ensures
            final(self).wf(),
            final(self)@ == old(self)@.insert((order, name@), hash),
    {
        let mut names = match self.places.remove(&order) {
            Some(names) => names,
            None => ByName::new(),
        };
        let known = match names.get(name) {
            Some(place) => Some(*place),
            None => None,
        };
        match known {
            Some(place) => {
                assert(old(self).has(order, name@));
                self.entries[place] = ((order, name), hash);
            },
            None => {
                names.insert(name, self.entries.len());
                self.entries.push(((order, name), hash));
            },
        }
        self.places.insert(order, names);
        proof {
            assert(forall|o: u64, n: Seq<char>|
                o != order || n != name@ ==> {
                    &&& #[trigger] self.has(o, n) == old(self).has(o, n)
                    &&& self.has(o, n) ==> self.place(o, n) == old(self).place(o, n)
                });
        }
    }

    /// The keys and their hashes, each key once.
    pub fn entries(&self) -> (entries: &Vec<((u64, &'static str), u64)>)
        requires
            self.wf(),
        ensures
            forall|i: int|
                0 <= i < entries@.len() ==> {
                    let key = ((#[trigger] entries@[i]).0.0, entries@[i].0.1@);
                    self@.contains_key(key) && self@[key] == entries@[i].1
                },
            forall|i: int, j: int|
                0 <= i < j < entries@.len() ==> {
                    let first = (#[trigger] entries@[i]).0;
                    let second = (#[trigger] entries@[j]).0;
                    !(first.0 == second.0 && first.1@ == second.1@)
                },
            forall|key: (u64, Seq<char>)| #[trigger]
                self@.contains_key(key) ==> exists|i: int|
                    0 <= i < entries@.len() && (#[trigger] entries@[i]).0.0 == key.0
                        && entries@[i].0.1@ == key.1,
    {
        &self.entries
    }
}

} // verus!
