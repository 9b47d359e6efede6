//! Hash tables keyed by two or three identifiers, built from nested
//! standard maps and seen as one flat set or map.

use std::collections::{HashMap, HashSet};
use vstd::prelude::*;

verus! {

broadcast use vstd::std_specs::hash::group_hash_axioms;

/// A set of pairs, held as one row of second components per first component.
#[derive(Debug)]
pub struct PairSet {
    rows: HashMap<u32, HashSet<u32>>,
}

impl View for PairSet {
    type V = Set<(u32, u32)>;

    closed spec fn view(&self) -> Set<(u32, u32)> {
        Set::new(
            |pair: (u32, u32)|
                self.rows@.contains_key(pair.0) && self.rows@[pair.0]@.contains(pair.1),
        )
    }
}

impl PairSet {
    pub fn new() -> (set: Self)
        ensures
            set@ == Set::<(u32, u32)>::empty(),
    {
        let set = PairSet { rows: HashMap::new() };
        assert(set@ =~= Set::<(u32, u32)>::empty());
        set
    }

    pub fn contains(&self, first: u32, second: u32) -> (found: bool)
        ensures
            found == self@.contains((first, second)),
    {
        match self.rows.get(&first) {
            Some(row) => row.contains(&second),
            None => false,
        }
    }

    /// Adds a pair and tells whether it is new.
    pub fn insert(&mut self, first: u32, second: u32) -> (fresh: bool)
        ensures
            final(self)@ == old(self)@.insert((first, second)),
            fresh == !old(self)@.contains((first, second)),
    {
        let mut row = match self.rows.remove(&first) {
            Some(row) => row,
            None => HashSet::new(),
        };
        let fresh = row.insert(second);
        self.rows.insert(first, row);
        assert(self@ =~= old(self)@.insert((first, second)));
        fresh
    }
}

/// A set of triples, held as one [`PairSet`] per first component.
#[derive(Debug)]
pub struct TripleSet {
    rows: HashMap<u32, PairSet>,
}

impl View for TripleSet {
    type V = Set<(u32, u32, u32)>;

    closed spec fn view(&self) -> Set<(u32, u32, u32)> {
        Set::new(
            |triple: (u32, u32, u32)|
                self.rows@.contains_key(triple.0) && self.rows@[triple.0]@.contains(
                    (triple.1, triple.2),
                ),
        )
    }
}

impl TripleSet {
    pub fn new() -> (set: Self)
        ensures
            set@ == Set::<(u32, u32, u32)>::empty(),
    {
        let set = TripleSet { rows: HashMap::new() };
        assert(set@ =~= Set::<(u32, u32, u32)>::empty());
        set
    }

    pub fn contains(&self, first: u32, second: u32, third: u32) -> (found: bool)
        ensures
            found == self@.contains((first, second, third)),
    {
        match self.rows.get(&first) {
            Some(row) => row.contains(second, third),
            None => false,
        }
    }

    /// Adds a triple and tells whether it is new.
    pub fn insert(&mut self, first: u32, second: u32, third: u32) -> (fresh: bool)
        ensures
            final(self)@ == old(self)@.insert((first, second, third)),
            fresh == !old(self)@.contains((first, second, third)),
    {
        let mut row = match self.rows.remove(&first) {
            Some(row) => row,
            None => PairSet::new(),
        };
        let fresh = row.insert(second, third);
        self.rows.insert(first, row);
        assert(self@ =~= old(self)@.insert((first, second, third)));
        fresh
    }
}

/// A map from pairs, held as one row per first component.
#[derive(Debug)]
pub struct PairMap<V> {
    rows: HashMap<u32, HashMap<u32, V>>,
}

impl<V> View for PairMap<V> {
    type V = Map<(u32, u32), V>;

    closed spec fn view(&self) -> Map<(u32, u32), V> {
        Map::new(
            |pair: (u32, u32)|
                self.rows@.contains_key(pair.0) && self.rows@[pair.0]@.contains_key(pair.1),
            |pair: (u32, u32)| self.rows@[pair.0]@[pair.1],
        )
    }
}

impl<V> PairMap<V> {
    pub fn new() -> (map: Self)
        ensures
            map@ == Map::<(u32, u32), V>::empty(),
    {
        let map = PairMap { rows: HashMap::new() };
        assert(map@ =~= Map::<(u32, u32), V>::empty());
        map
    }

    pub fn get(&self, first: u32, second: u32) -> (found: Option<&V>)
        ensures
            match found {
                Some(value) => self@.contains_key((first, second)) && self@[(first, second)]
                    == *value,
                None => !self@.contains_key((first, second)),
            },
    {
        match self.rows.get(&first) {
            Some(row) => row.get(&second),
            None => None,
        }
    }

    pub fn insert(&mut self, first: u32, second: u32, value: V)
        ensures
            final(self)@ == old(self)@.insert((first, second), value),
    {
        let mut row = match self.rows.remove(&first) {
            Some(row) => row,
            None => HashMap::new(),
        };
        row.insert(second, value);
        self.rows.insert(first, row);
        assert(self@ =~= old(self)@.insert((first, second), value));
    }

    /// Takes the value under a pair out of the map, if there is one.
    pub fn remove(&mut self, first: u32, second: u32) -> (taken: Option<V>)
        ensures
            final(self)@ == old(self)@.remove((first, second)),
            match taken {
                Some(value) => old(self)@.contains_key((first, second)) && old(self)@[(
                    first,
                    second,
                )] == value,
                None => !old(self)@.contains_key((first, second)),
            },
    {
        match self.rows.remove(&first) {
            Some(mut row) => {
                let taken = row.remove(&second);
                self.rows.insert(first, row);
                assert(self@ =~= old(self)@.remove((first, second)));
                taken
            },
            None => {
                assert(self@ =~= old(self)@.remove((first, second)));
                None
            },
        }
    }
}

} // verus!
