//! Symbol tables keyed by identifiers.
//!
//! A table is a list of entries; a later entry for a name replaces the
//! earlier ones, so the table means the map from each name to its last entry.
use vstd::prelude::*;
use crate::parser::Identifier;

verus! {

pub type Key = (Seq<char>, Seq<char>);

pub struct Table<V> {
    pub entries: Vec<(Identifier, V)>,
}

/// The map that a list of entries means: each name to its last entry.
pub open spec fn entries_map<V>(s: Seq<(Identifier, V)>) -> Map<Key, V>
    decreases s.len(),
{
    if s.len() == 0 {
        Map::empty()
    } else {
        entries_map(s.drop_last()).insert(s.last().0@, s.last().1)
    }
}

/// Whether entry `i` is the last one for its name.
pub open spec fn is_latest<V>(s: Seq<(Identifier, V)>, i: int) -> bool {
    forall|j: int| i < j < s.len() ==> (#[trigger] s[j]).0@ != s[i].0@
}

pub proof fn lemma_entries_map_dom<V>(s: Seq<(Identifier, V)>, k: Key)
    ensures
        entries_map(s).dom().contains(k) <==> exists|i: int| 0 <= i < s.len() && (#[trigger] s[i]).0@ == k,
    decreases s.len(),
{
    if s.len() > 0 {
        let t = s.drop_last();
        lemma_entries_map_dom(t, k);
        if exists|i: int| 0 <= i < t.len() && (#[trigger] t[i]).0@ == k {
            let i = choose|i: int| 0 <= i < t.len() && (#[trigger] t[i]).0@ == k;
            assert(s[i] == t[i]);
        }
        if exists|i: int| 0 <= i < s.len() && (#[trigger] s[i]).0@ == k {
            let i = choose|i: int| 0 <= i < s.len() && (#[trigger] s[i]).0@ == k;
            if i < s.len() - 1 {
                assert(t[i] == s[i]);
            }
        }
    }
}

pub proof fn lemma_entries_map_value<V>(s: Seq<(Identifier, V)>, i: int)
    requires
        0 <= i < s.len(),
        is_latest(s, i),
    ensures
        entries_map(s).dom().contains(s[i].0@),
        entries_map(s)[s[i].0@] == s[i].1,
    decreases s.len(),
{
    let t = s.drop_last();
    if i < s.len() - 1 {
        assert(s[i] == t[i]);
        assert forall|j: int| i < j < t.len() implies (#[trigger] t[j]).0@ != t[i].0@ by {
            assert(s[j] == t[j]);
        }
        assert(s[s.len() - 1].0@ != s[i].0@);
        lemma_entries_map_value(t, i);
    }
}

/// A name the entries record has a last entry, which holds what the map says.
pub proof fn lemma_latest_index<V>(s: Seq<(Identifier, V)>, k: Key) -> (i: int)
    requires
        entries_map(s).dom().contains(k),
    ensures
        0 <= i < s.len(),
        s[i].0@ == k,
        is_latest(s, i),
        entries_map(s)[k] == s[i].1,
    decreases s.len(),
{
    if s.last().0@ == k {
        (s.len() - 1) as int
    } else {
        let t = s.drop_last();
        let i = lemma_latest_index(t, k);
        assert(s[i] == t[i]);
        assert forall|j: int| i < j < s.len() implies (#[trigger] s[j]).0@ != s[i].0@ by {
            if j < s.len() - 1 {
                assert(s[j] == t[j]);
            }
        }
        i
    }
}

impl<V> View for Table<V> {
    type V = Map<Key, V>;

    open spec fn view(&self) -> Map<Key, V> {
        entries_map(self.entries@)
    }
}

impl<V> Table<V> {
    pub fn new() -> (t: Self)
        ensures
            t@ == Map::<Key, V>::empty(),
            t.entries@.len() == 0,
    {
        Table { entries: Vec::new() }
    }

    /// Records `value` for `name`, replacing what was recorded before.
    pub fn insert(&mut self, name: Identifier, value: V)
        ensures
            final(self)@ == old(self)@.insert(name@, value),
            final(self).entries@ == old(self).entries@.push((name, value)),
    {
        self.entries.push((name, value));
        proof {
            assert(self.entries@.drop_last() =~= old(self).entries@);
        }
    }

    /// The index of the last entry for `name`.
    pub fn find(&self, name: &Identifier) -> (r: Option<usize>)
        ensures
            match r {
                Some(i) => {
                    &&& i < self.entries@.len()
                    &&& self.entries@[i as int].0@ == name@
                    &&& is_latest(self.entries@, i as int)
                    &&& self@.dom().contains(name@)
                    &&& self@[name@] == self.entries@[i as int].1
                },
                None => !self@.dom().contains(name@),
            },
    {
        let mut i = self.entries.len();
        while i > 0
            invariant
                i <= self.entries@.len(),
                forall|j: int| i <= j < self.entries@.len() ==> (#[trigger] self.entries@[j]).0@ != name@,
            decreases i,
        {
            let e = &self.entries[i - 1];
            if e.0 == *name {
                proof {
                    lemma_entries_map_value(self.entries@, i - 1);
                }
                return Some(i - 1);
            }
            i = i - 1;
        }
        proof {
            lemma_entries_map_dom(self.entries@, name@);
        }
        None
    }

    /// What is recorded for `name`.
    pub fn get(&self, name: &Identifier) -> (r: Option<&V>)
        ensures
            match r {
                Some(v) => self@.dom().contains(name@) && self@[name@] == *v,
                None => !self@.dom().contains(name@),
            },
    {
        match self.find(name) {
            Some(i) => Some(&self.entries[i].1),
            None => None,
        }
    }

    pub fn contains_key(&self, name: &Identifier) -> (r: bool)
        ensures
            r == self@.dom().contains(name@),
    {
        self.find(name).is_some()
    }
}

} // verus!
