//! The in-memory key-value store of a node.

use vstd::prelude::*;

verus! {

/// The map that a run of entries stands for: a later entry for a key overrides
/// an earlier one.
pub open spec fn map_of(entries: Seq<(String, String)>) -> Map<Seq<char>, Seq<char>>
    decreases entries.len(),
{
    if entries.len() == 0 {
        Map::empty()
    } else {
        map_of(entries.drop_last()).insert(entries.last().0@, entries.last().1@)
    }
}

/// Keys mapped to values, kept in the order the keys were first written.
///
/// The entries are a vector rather than a std map: the snapshot and the JSON
/// listing walk every entry, which vstd's `StringHashMap` offers no way to do,
/// and vstd's `HashMap` and `BTreeMap` specifications hold only for key types
/// with its hashing or ordering laws, which it gives for integers, not `String`.
#[derive(Debug, Clone, Default)]
pub struct Store {
    records: Vec<(String, String)>,
}

impl View for Store {
    type V = Map<Seq<char>, Seq<char>>;

    open spec fn view(&self) -> Map<Seq<char>, Seq<char>> {
        map_of(self.entries())
    }
}

proof fn lemma_map_of_last(s: Seq<(String, String)>, i: int, k: Seq<char>)
    requires
        0 <= i < s.len(),
        s[i].0@ == k,
        forall|j: int| i < j < s.len() ==> s[j].0@ != k,
    ensures
        map_of(s).contains_key(k),
        map_of(s)[k] == s[i].1@,
    decreases s.len(),
{
    if i < s.len() - 1 {
        lemma_map_of_last(s.drop_last(), i, k);
    }
}

proof fn lemma_map_of_absent(s: Seq<(String, String)>, k: Seq<char>)
    requires
        forall|j: int| 0 <= j < s.len() ==> s[j].0@ != k,
    ensures
        !map_of(s).contains_key(k),
    decreases s.len(),
{
    if s.len() > 0 {
        lemma_map_of_absent(s.drop_last(), k);
    }
}

proof fn lemma_map_of_update(s: Seq<(String, String)>, i: int, e: (String, String))
    requires
        0 <= i < s.len(),
        s[i].0@ == e.0@,
        forall|j: int| i < j < s.len() ==> s[j].0@ != e.0@,
    ensures
        map_of(s.update(i, e)) == map_of(s).insert(e.0@, e.1@),
    decreases s.len(),
{
    let u = s.update(i, e);
    if i == s.len() - 1 {
        assert(u.drop_last() =~= s.drop_last());
        assert(map_of(u) =~= map_of(s).insert(e.0@, e.1@));
    } else {
        assert(u.drop_last() =~= s.drop_last().update(i, e));
        lemma_map_of_update(s.drop_last(), i, e);
        assert(map_of(u) =~= map_of(s).insert(e.0@, e.1@));
    }
}

impl Store {
    /// The entries in the order their keys were first written.
    pub closed spec fn entries(&self) -> Seq<(String, String)> {
        self.records@
    }

    pub proof fn lemma_view(&self)
        ensures
            self@ == map_of(self.entries()),
    {
    }

    pub fn new() -> (r: Store)
        ensures
            r@ == Map::<Seq<char>, Seq<char>>::empty(),
            r.entries().len() == 0,
    {
        Store { records: Vec::new() }
    }

    /// The position of the last entry for `key`.
    fn find(&self, key: &String) -> (r: Option<usize>)
        ensures
            match r {
                Some(i) => i < self.records@.len() && self.records@[i as int].0@ == key@ && forall|
                    j: int,
                | i < j < self.records@.len() ==> self.records@[j].0@ != key@,
                None => forall|j: int|
                    0 <= j < self.records@.len() ==> self.records@[j].0@ != key@,
            },
    {
        let mut i = self.records.len();
        while i > 0
            invariant
                i <= self.records@.len(),
                forall|j: int| i <= j < self.records@.len() ==> self.records@[j].0@ != key@,
            decreases i,
        {
            i = i - 1;
            if self.records[i].0 == *key {
                return Some(i);
            }
        }
        None
    }

    /// The value of `key`, if it has one.
    pub fn get(&self, key: &String) -> (r: Option<String>)
        ensures
            match r {
                Some(v) => self@.contains_key(key@) && self@[key@] == v@,
                None => !self@.contains_key(key@),
            },
    {
        match self.find(key) {
            Some(i) => {
                proof {
                    lemma_map_of_last(self.records@, i as int, key@);
                }
                Some(self.records[i].1.clone())
            },
            None => {
                proof {
                    lemma_map_of_absent(self.records@, key@);
                }
                None
            },
        }
    }

    /// Maps `key` to `value`.
    pub fn insert(&mut self, key: String, value: String)
        ensures
            final(self)@ == old(self)@.insert(key@, value@),
    {
        match self.find(&key) {
            Some(i) => {
                let ghost s = self.records@;
                let ghost e = (key, value);
                self.records.set(i, (key, value));
                proof {
                    lemma_map_of_update(s, i as int, e);
                }
            },
            None => {
                let ghost s = self.records@;
                self.records.push((key, value));
                proof {
                    assert(self.records@.drop_last() =~= s);
                }
            },
        }
    }

    /// The number of entries.
    pub fn len(&self) -> (r: usize)
        ensures
            r == self.entries().len(),
    {
        self.records.len()
    }

    /// The entry at `i`, in the order keys were first written.
    pub fn entry(&self, i: usize) -> (r: (&String, &String))
        requires
            i < self.entries().len(),
        ensures
            *r.0 == self.entries()[i as int].0,
            *r.1 == self.entries()[i as int].1,
    {
        (&self.records[i].0, &self.records[i].1)
    }
}

} // verus!
