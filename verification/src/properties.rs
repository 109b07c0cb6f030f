//! The properties of a feature.

use vstd::prelude::*;

use crate::text::same_text;

verus! {

/// The texts of entries: of each its key and its value.
pub open spec fn pairs(entries: Seq<(String, String)>) -> Seq<(Seq<char>, Seq<char>)> {
    entries.map_values(|e: (String, String)| (e.0@, e.1@))
}

/// The map that entries give when they are inserted one after the other.
pub open spec fn entries_map(entries: Seq<(Seq<char>, Seq<char>)>) -> Map<Seq<char>, Seq<char>>
    decreases entries.len(),
{
    if entries.len() == 0 {
        Map::empty()
    } else {
        entries_map(entries.drop_last()).insert(entries.last().0, entries.last().1)
    }
}

/// A key that none of the entries has is not in their map.
proof fn lemma_absent(entries: Seq<(Seq<char>, Seq<char>)>, key: Seq<char>)
    requires
        forall|j: int| 0 <= j < entries.len() ==> entries[j].0 != key,
    ensures
        !entries_map(entries).dom().contains(key),
    decreases entries.len(),
{
    if entries.len() > 0 {
        let init = entries.drop_last();
        assert forall|j: int| 0 <= j < init.len() implies init[j].0 != key by {
            assert(init[j] == entries[j]);
        }
        lemma_absent(init, key);
    }
}

/// The map holds, for the key of an entry that no later entry shadows, the
/// value of that entry.
proof fn lemma_present(entries: Seq<(Seq<char>, Seq<char>)>, i: int)
    requires
        0 <= i < entries.len(),
        forall|j: int| i < j < entries.len() ==> entries[j].0 != entries[i].0,
    ensures
        entries_map(entries).dom().contains(entries[i].0),
        entries_map(entries)[entries[i].0] == entries[i].1,
    decreases entries.len(),
{
    if i < entries.len() - 1 {
        let init = entries.drop_last();
        assert(init[i] == entries[i]);
        assert forall|j: int| i < j < init.len() implies init[j].0 != init[i].0 by {
            assert(init[j] == entries[j]);
        }
        lemma_present(init, i);
    }
}

/// Replacing the value of an entry that no later entry shadows is inserting
/// the new value under its key.
proof fn lemma_replaced(entries: Seq<(Seq<char>, Seq<char>)>, i: int, value: Seq<char>)
    requires
        0 <= i < entries.len(),
        forall|j: int| i < j < entries.len() ==> entries[j].0 != entries[i].0,
    ensures
        entries_map(entries.update(i, (entries[i].0, value))) == entries_map(entries).insert(
            entries[i].0,
            value,
        ),
    decreases entries.len(),
{
    let key = entries[i].0;
    let after = entries.update(i, (key, value));
    let init = entries.drop_last();
    if i == entries.len() - 1 {
        assert(after.drop_last() =~= init);
        assert(entries_map(after) =~= entries_map(entries).insert(key, value));
    } else {
        assert(init[i] == entries[i]);
        assert forall|j: int| i < j < init.len() implies init[j].0 != init[i].0 by {
            assert(init[j] == entries[j]);
        }
        lemma_replaced(init, i, value);
        assert(after.drop_last() =~= init.update(i, (key, value)));
        assert(after.last() == entries.last());
        assert(entries.last().0 != key);
        assert(entries_map(after) =~= entries_map(entries).insert(key, value));
    }
}

/// The properties of a feature: a value for each of its keys. The entries
/// keep the order in which their keys first came.
#[derive(Debug)]
pub struct PropertyMap {
    entries: Vec<(String, String)>,
}

impl View for PropertyMap {
    type V = Map<Seq<char>, Seq<char>>;

    closed spec fn view(&self) -> Map<Seq<char>, Seq<char>> {
        entries_map(pairs(self.entries@))
    }
}

impl PropertyMap {
    /// The entries, key and value, in their order. The map is what they give
    /// when they are inserted one after the other.
    pub closed spec fn entries(self) -> Seq<(Seq<char>, Seq<char>)> {
        pairs(self.entries@)
    }

    /// The view is the map of the entries.
    pub proof fn lemma_view(self)
        ensures
            self@ == entries_map(self.entries()),
    {
    }

    /// A map without keys.
    pub fn new() -> (m: PropertyMap)
        ensures
            m@ == Map::<Seq<char>, Seq<char>>::empty(),
            m.entries() == Seq::<(Seq<char>, Seq<char>)>::empty(),
    {
        let m = PropertyMap { entries: Vec::new() };
        assert(m.entries() =~= Seq::empty());
        m
    }

    /// The position of the last entry with the given key.
    fn position(&self, key: &str) -> (r: Option<usize>)
        ensures
            match r {
                Some(i) => {
                    &&& i < self.entries().len()
                    &&& self.entries()[i as int].0 == key@
                    &&& forall|j: int| i < j < self.entries().len() ==> self.entries()[j].0 != key@
                },
                None => forall|j: int|
                    0 <= j < self.entries().len() ==> self.entries()[j].0 != key@,
            },
    {
        let mut i: usize = self.entries.len();
        while i > 0
            invariant
                i <= self.entries@.len(),
                forall|j: int| i <= j < self.entries@.len() ==> self.entries()[j].0 != key@,
            decreases i,
        {
            i = i - 1;
            if same_text(self.entries[i].0.as_str(), key) {
                return Some(i);
            }
        }
        None
    }

    /// Sets the value of a key, in place of the value that it had.
    pub fn insert(&mut self, key: String, value: String)
        ensures
            final(self)@ == old(self)@.insert(key@, value@),
    {
        match self.position(key.as_str()) {
            Some(i) => {
                proof {
                    lemma_replaced(self.entries(), i as int, value@);
                }
                self.entries.set(i, (key, value));
                assert(self.entries() =~= old(self).entries().update(i as int, (key@, value@)));
            },
            None => {
                self.entries.push((key, value));
                assert(self.entries() =~= old(self).entries().push((key@, value@)));
                assert(self.entries().drop_last() =~= old(self).entries());
            },
        }
    }

    /// The value of a key, if the map has the key.
    pub fn get(&self, key: &str) -> (r: Option<&String>)
        ensures
            match r {
                Some(v) => self@.dom().contains(key@) && v@ == self@[key@],
                None => !self@.dom().contains(key@),
            },
    {
        match self.position(key) {
            Some(i) => {
                proof {
                    lemma_present(self.entries(), i as int);
                }
                Some(&self.entries[i].1)
            },
            None => {
                proof {
                    lemma_absent(self.entries(), key@);
                }
                None
            },
        }
    }

    /// The number of entries.
    pub fn len(&self) -> (n: usize)
        ensures
            n == self.entries().len(),
    {
        self.entries.len()
    }

    /// The entry at a position: its key and its value.
    pub fn entry(&self, i: usize) -> (r: (&String, &String))
        requires
            i < self.entries().len(),
        ensures
            r.0@ == self.entries()[i as int].0,
            r.1@ == self.entries()[i as int].1,
    {
        (&self.entries[i].0, &self.entries[i].1)
    }
}

} // verus!
