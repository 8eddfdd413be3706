//! A map from names to values, kept as a list of entries in which no name
//! occurs twice. Its model is a `Map` from the name's characters to the
//! value; `insert` replaces the value of a name already present.
use vstd::prelude::*;
use crate::text::text_is;

verus! {

/// The map that a list of `(name, value)` entries denotes: a later entry for
/// a name overrides an earlier one.
pub open spec fn entries_map<V>(s: Seq<(String, V)>) -> Map<Seq<char>, V>
    decreases s.len(),
{
    if s.len() == 0 {
        Map::empty()
    } else {
        entries_map(s.drop_last()).insert(s.last().0@, s.last().1)
    }
}

/// No name occurs in two entries.
pub open spec fn distinct_names<V>(s: Seq<(String, V)>) -> bool {
    forall|i: int, j: int| 0 <= i < j < s.len() ==> s[i].0@ != s[j].0@
}

/// A name of `s` is in the map, and maps to the value of its entry.
pub proof fn lemma_entry_in_map<V>(s: Seq<(String, V)>, i: int)
    requires
        distinct_names(s),
        0 <= i < s.len(),
    ensures
        entries_map(s).contains_key(s[i].0@),
        entries_map(s)[s[i].0@] == s[i].1,
    decreases s.len(),
{
    if i < s.len() - 1 {
        lemma_entry_in_map(s.drop_last(), i);
    }
}

/// The map holds exactly the names of the entries.
pub proof fn lemma_map_keys<V>(s: Seq<(String, V)>, k: Seq<char>)
    ensures
        entries_map(s).contains_key(k) <==> exists|i: int| 0 <= i < s.len() && s[i].0@ == k,
    decreases s.len(),
{
    if s.len() > 0 {
        lemma_map_keys(s.drop_last(), k);
        if entries_map(s).contains_key(k) && k != s.last().0@ {
            let i = choose|i: int| 0 <= i < s.len() - 1 && s.drop_last()[i].0@ == k;
            assert(s[i].0@ == k);
        }
        if exists|i: int| 0 <= i < s.len() && s[i].0@ == k {
            let i = choose|i: int| 0 <= i < s.len() && s[i].0@ == k;
            if i < s.len() - 1 {
                assert(s.drop_last()[i].0@ == k);
            }
        }
    }
}

/// Entries with distinct names denote a finite map with one key per entry.
pub proof fn lemma_map_len<V>(s: Seq<(String, V)>)
    requires
        distinct_names(s),
    ensures
        entries_map(s).dom().finite(),
        entries_map(s).dom().len() == s.len(),
    decreases s.len(),
{
    if s.len() == 0 {
        assert(entries_map(s).dom() =~= Set::<Seq<char>>::empty());
    } else {
        let p = s.drop_last();
        assert forall|i: int, j: int| 0 <= i < j < p.len() implies p[i].0@ != p[j].0@ by {
            assert(p[i] == s[i]);
            assert(p[j] == s[j]);
        }
        lemma_map_len(p);
        lemma_map_keys(p, s.last().0@);
        if entries_map(p).contains_key(s.last().0@) {
            let i = choose|i: int| 0 <= i < p.len() && p[i].0@ == s.last().0@;
            assert(s[i].0@ != s[s.len() - 1].0@);
        }
        assert(entries_map(s).dom() =~= entries_map(p).dom().insert(s.last().0@));
    }
}

/// Overwriting the value of entry `i` overwrites the value of its name.
pub proof fn lemma_update_value<V>(s: Seq<(String, V)>, i: int, v: V)
    requires
        distinct_names(s),
        0 <= i < s.len(),
    ensures
        entries_map(s.update(i, (s[i].0, v))) == entries_map(s).insert(s[i].0@, v),
    decreases s.len(),
{
    let t = s.update(i, (s[i].0, v));
    if i == s.len() - 1 {
        assert(t.drop_last() =~= s.drop_last());
        assert(entries_map(t) =~= entries_map(s).insert(s[i].0@, v));
    } else {
        assert(t.drop_last() =~= s.drop_last().update(i, (s[i].0, v)));
        lemma_update_value(s.drop_last(), i, v);
        assert(entries_map(t) =~= entries_map(s).insert(s[i].0@, v));
    }
}

/// A map from names to values; no name occurs twice among its entries.
#[derive(Debug)]
pub struct NameMap<V> {
    entries: Vec<(String, V)>,
}

impl<V> NameMap<V> {
    /// The map from names to values.
    pub closed spec fn view(&self) -> Map<Seq<char>, V> {
        entries_map(self.entries@)
    }

    /// No name occurs in two entries.
    pub closed spec fn wf(&self) -> bool {
        distinct_names(self.entries@)
    }

    /// The entries, in the order in which their names were first inserted.
    pub closed spec fn entries(&self) -> Seq<(String, V)> {
        self.entries@
    }

    /// The map is finite, with one key per entry.
    pub proof fn lemma_len(&self)
        requires
            self.wf(),
        ensures
            self.view().dom().finite(),
            self.view().dom().len() == self.entries().len(),
    {
        lemma_map_len(self.entries@);
    }

    /// The entries denote the map, and name each of its keys once.
    pub proof fn lemma_entries(&self)
        requires
            self.wf(),
        ensures
            forall|i: int| #![trigger self.entries()[i]]
                0 <= i < self.entries().len() ==> self.view().contains_key(self.entries()[i].0@)
                    && self.view()[self.entries()[i].0@] == self.entries()[i].1,
            forall|k: Seq<char>|
                #![trigger self.view().contains_key(k)]
                self.view().contains_key(k) <==> exists|i: int|
                    0 <= i < self.entries().len() && self.entries()[i].0@ == k,
    {
        assert forall|i: int| #![trigger self.entries()[i]]
            0 <= i < self.entries().len() implies self.view().contains_key(self.entries()[i].0@)
                && self.view()[self.entries()[i].0@] == self.entries()[i].1 by {
            lemma_entry_in_map(self.entries@, i);
        }
        assert forall|k: Seq<char>|
            #![trigger self.view().contains_key(k)]
            (self.view().contains_key(k) <==> (exists|i: int|
                0 <= i < self.entries().len() && self.entries()[i].0@ == k)) by {
            lemma_map_keys(self.entries@, k);
            if self.view().contains_key(k) {
                let i = choose|i: int| 0 <= i < self.entries@.len() && self.entries@[i].0@ == k;
                assert(self.entries()[i].0@ == k);
            }
        }
    }

    /// An empty map.
    pub fn new() -> (r: Self)
        ensures
            r.wf(),
            r.view() == Map::<Seq<char>, V>::empty(),
            r.entries().len() == 0,
    {
        NameMap { entries: Vec::new() }
    }

    /// The number of names in the map.
    pub fn len(&self) -> (r: usize)
        ensures
            r == self.entries().len(),
    {
        self.entries.len()
    }

    /// The name of entry `i`.
    pub fn name_at(&self, i: usize) -> (r: &String)
        requires
            i < self.entries().len(),
        ensures
            *r == self.entries()[i as int].0,
    {
        &self.entries[i].0
    }

    /// The value of entry `i`.
    pub fn value_at(&self, i: usize) -> (r: &V)
        requires
            i < self.entries().len(),
        ensures
            *r == self.entries()[i as int].1,
    {
        &self.entries[i].1
    }

    /// The position of the entry for `name`, if there is one.
    fn position(&self, name: &str) -> (r: Option<usize>)
        requires
            self.wf(),
        ensures
            match r {
                Some(i) => i < self.entries().len() && self.entries()[i as int].0@ == name@,
                None => !self.view().contains_key(name@),
            },
    {
        let mut i: usize = 0;
        while i < self.entries.len()
            invariant
                i <= self.entries@.len(),
                forall|j: int| 0 <= j < i ==> self.entries@[j].0@ != name@,
            decreases self.entries.len() - i,
        {
            if text_is(self.entries[i].0.as_str(), name) {
                return Some(i);
            }
            i += 1;
        }
        proof {
            lemma_map_keys(self.entries@, name@);
        }
        None
    }

    /// Whether `name` is in the map.
    pub fn contains(&self, name: &str) -> (r: bool)
        requires
            self.wf(),
        ensures
            r == self.view().contains_key(name@),
    {
        match self.position(name) {
            Some(i) => {
                proof {
                    lemma_entry_in_map(self.entries@, i as int);
                }
                true
            },
            None => false,
        }
    }

    /// The value of `name`, if it is in the map.
    pub fn get(&self, name: &str) -> (r: Option<&V>)
        requires
            self.wf(),
        ensures
            match r {
                Some(v) => self.view().contains_key(name@) && *v == self.view()[name@],
                None => !self.view().contains_key(name@),
            },
    {
        match self.position(name) {
            Some(i) => {
                proof {
                    lemma_entry_in_map(self.entries@, i as int);
                }
                Some(&self.entries[i].1)
            },
            None => None,
        }
    }

    /// The value of `name`, to be changed in place, if it is in the map.
    pub fn get_mut(&mut self, name: &str) -> (r: Option<&mut V>)
        requires
            old(self).wf(),
        ensures
            final(self).wf(),
            match r {
                Some(v) => old(self).view().contains_key(name@) && *v == old(self).view()[name@]
                    && final(self).view() == old(self).view().insert(name@, *final(v))
                    && final(self).entries().len() == old(self).entries().len(),
                None => !old(self).view().contains_key(name@) && *final(self) == *old(self),
            },
    {
        match self.position(name) {
            Some(i) => {
                proof {
                    lemma_entry_in_map(self.entries@, i as int);
                }
                let ghost s = self.entries@;
                let r = &mut self.entries[i].1;
                proof {
                    lemma_update_value(s, i as int, *final(r));
                }
                Some(r)
            },
            None => None,
        }
    }

    /// Sets the value of `name`, adding the name when it is new.
    pub fn insert(&mut self, name: String, value: V)
        requires
            old(self).wf(),
        ensures
            final(self).wf(),
            final(self).view() == old(self).view().insert(name@, value),
    {
        match self.position(name.as_str()) {
            Some(i) => {
                proof {
                    lemma_update_value(self.entries@, i as int, value);
                }
                let ghost s = self.entries@;
                self.entries[i].1 = value;
                assert(self.entries@ =~= s.update(i as int, (s[i as int].0, value)));
            },
            None => {
                proof {
                    lemma_map_keys(self.entries@, name@);
                }
                let ghost s = self.entries@;
                self.entries.push((name, value));
                assert(self.entries@.drop_last() =~= s);
            },
        }
    }
}

} // verus!
