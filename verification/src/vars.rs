//! An insertion-ordered table of named string values with unique keys.
//!
//! It stands where a hash map would otherwise hold the variables of a
//! task file: inserting overwrites the value of an existing key, lookup
//! is by name, and the mathematical model is a map from name to value.

use vstd::prelude::*;

use crate::text::str_eq;

verus! {

/// The map described by a sequence of key/value entries, later entries
/// overriding earlier ones.
pub open spec fn entries_as_map(s: Seq<(String, String)>) -> Map<Seq<char>, Seq<char>>
    decreases s.len(),
{
    if s.len() == 0 {
        Map::empty()
    } else {
        entries_as_map(s.drop_last()).insert(s.last().0@, s.last().1@)
    }
}

/// Keys are pairwise distinct.
pub open spec fn entries_distinct(s: Seq<(String, String)>) -> bool {
    forall|i: int, j: int| 0 <= i < j < s.len() ==> s[i].0@ != s[j].0@
}

pub proof fn lemma_as_map_contains(s: Seq<(String, String)>, k: Seq<char>)
    ensures
        entries_as_map(s).contains_key(k) <==> exists|i: int| 0 <= i < s.len() && s[i].0@ == k,
    decreases s.len(),
{
    if s.len() > 0 {
        lemma_as_map_contains(s.drop_last(), k);
        if entries_as_map(s).contains_key(k) {
            if s.last().0@ != k {
                let i = choose|i: int| 0 <= i < s.drop_last().len() && s.drop_last()[i].0@ == k;
                assert(s[i].0@ == k);
            } else {
                assert(s[s.len() - 1].0@ == k);
            }
        }
        if exists|i: int| 0 <= i < s.len() && s[i].0@ == k {
            let i = choose|i: int| 0 <= i < s.len() && s[i].0@ == k;
            if i < s.len() - 1 {
                assert(s.drop_last()[i].0@ == k);
            }
        }
    }
}

pub proof fn lemma_as_map_get(s: Seq<(String, String)>, i: int)
    requires
        entries_distinct(s),
        0 <= i < s.len(),
    ensures
        entries_as_map(s).contains_key(s[i].0@),
        entries_as_map(s)[s[i].0@] == s[i].1@,
    decreases s.len(),
{
    if i == s.len() - 1 {
    } else {
        assert(entries_distinct(s.drop_last()));
        lemma_as_map_get(s.drop_last(), i);
        assert(s.drop_last()[i] == s[i]);
        assert(s[i].0@ != s.last().0@);
    }
}

/// With distinct keys the number of entries is the size of the map's
/// domain.
pub proof fn lemma_as_map_len(s: Seq<(String, String)>)
    requires
        entries_distinct(s),
    ensures
        entries_as_map(s).dom().finite(),
        entries_as_map(s).dom().len() == s.len(),
    decreases s.len(),
{
    if s.len() == 0 {
        assert(entries_as_map(s).dom() =~= Set::<Seq<char>>::empty());
    } else {
        assert(entries_distinct(s.drop_last()));
        lemma_as_map_len(s.drop_last());
        lemma_as_map_contains(s.drop_last(), s.last().0@);
        assert(forall|i: int|
            0 <= i < s.drop_last().len() ==> s.drop_last()[i].0@ != s.last().0@);
        assert(!entries_as_map(s.drop_last()).contains_key(s.last().0@));
        assert(entries_as_map(s).dom() =~= entries_as_map(s.drop_last()).dom().insert(
            s.last().0@,
        ));
    }
}

/// Overwriting the entry that holds a key equals a map insert.
pub proof fn lemma_as_map_update(s: Seq<(String, String)>, i: int, p: (String, String))
    requires
        entries_distinct(s),
        0 <= i < s.len(),
        s[i].0@ == p.0@,
    ensures
        entries_as_map(s.update(i, p)) == entries_as_map(s).insert(p.0@, p.1@),
    decreases s.len(),
{
    let su = s.update(i, p);
    if i == s.len() - 1 {
        assert(su.drop_last() =~= s.drop_last());
        assert(su.last() == p);
        assert(entries_as_map(su) == entries_as_map(s.drop_last()).insert(p.0@, p.1@));
        assert(entries_as_map(s.drop_last()).insert(s.last().0@, s.last().1@).insert(
            p.0@,
            p.1@,
        ) =~= entries_as_map(s.drop_last()).insert(p.0@, p.1@));
    } else {
        assert(entries_distinct(s.drop_last()));
        assert(s.drop_last()[i] == s[i]);
        lemma_as_map_update(s.drop_last(), i, p);
        assert(su.drop_last() =~= s.drop_last().update(i, p));
        assert(su.last() == s.last());
        assert(s[i].0@ != s.last().0@);
        assert(entries_as_map(su) == entries_as_map(s.drop_last()).insert(p.0@, p.1@).insert(
            s.last().0@,
            s.last().1@,
        ));
        assert(entries_as_map(s.drop_last()).insert(p.0@, p.1@).insert(
            s.last().0@,
            s.last().1@,
        ) =~= entries_as_map(s.drop_last()).insert(s.last().0@, s.last().1@).insert(p.0@, p.1@));
    }
}

/// A table of named string values. Keys are unique; inserting an existing
/// key overwrites its value; the model is the map from names to values.
#[derive(Debug)]
pub struct VarTable {
    entries: Vec<(String, String)>,
}

impl View for VarTable {
    type V = Map<Seq<char>, Seq<char>>;

    closed spec fn view(&self) -> Map<Seq<char>, Seq<char>> {
        entries_as_map(self.entries@)
    }
}

impl VarTable {
    /// The underlying entries, in insertion order.
    pub closed spec fn entries_seq(&self) -> Seq<(String, String)> {
        self.entries@
    }

    /// Well-formedness: every key appears once.
    pub closed spec fn wf(&self) -> bool {
        entries_distinct(self.entries@)
    }

    /// The view is exactly the map described by the entries.
    pub proof fn lemma_view_is_entries(&self)
        ensures
            self@ == entries_as_map(self.entries_seq()),
    {
    }

    /// An empty table.
    pub fn new() -> (r: VarTable)
        ensures
            r@ == Map::<Seq<char>, Seq<char>>::empty(),
            r.wf(),
            r.entries_seq() == Seq::<(String, String)>::empty(),
    {
        VarTable { entries: Vec::new() }
    }

    /// Number of variables held.
    pub fn len(&self) -> (r: usize)
        requires
            self.wf(),
        ensures
            r == self.entries_seq().len(),
            r == self@.dom().len(),
    {
        proof {
            lemma_as_map_len(self.entries@);
        }
        self.entries.len()
    }

    /// Whether the table holds no variables.
    pub fn is_empty(&self) -> (r: bool)
        requires
            self.wf(),
        ensures
            r == (self@.dom() =~= Set::<Seq<char>>::empty()),
    {
        proof {
            lemma_as_map_len(self.entries@);
            if self.entries@.len() == 0 {
                assert(self@.dom() =~= Set::<Seq<char>>::empty());
            } else {
                vstd::set_lib::lemma_set_empty_equivalency_len(self@.dom());
            }
        }
        self.entries.len() == 0
    }

    /// Looks a name up.
    pub fn get(&self, key: &str) -> (r: Option<&String>)
        requires
            self.wf(),
        ensures
            match r {
                Some(v) => self@.contains_key(key@) && v@ == self@[key@],
                None => !self@.contains_key(key@),
            },
    {
        let mut i: usize = 0;
        while i < self.entries.len()
            invariant
                0 <= i <= self.entries@.len(),
                self.wf(),
                forall|j: int| 0 <= j < i ==> self.entries@[j].0@ != key@,
            decreases self.entries@.len() - i,
        {
            let entry = &self.entries[i];
            if str_eq(entry.0.as_str(), key) {
                proof {
                    lemma_as_map_get(self.entries@, i as int);
                }
                return Some(&entry.1);
            }
            i = i + 1;
        }
        proof {
            lemma_as_map_contains(self.entries@, key@);
        }
        None
    }

    /// Whether a name is present.
    pub fn contains_key(&self, key: &str) -> (r: bool)
        requires
            self.wf(),
        ensures
            r == self@.contains_key(key@),
    {
        match self.get(key) {
            Some(_) => true,
            None => false,
        }
    }

    /// Binds a name to a value, overwriting any earlier binding.
    pub fn insert(&mut self, key: String, value: String)
        requires
            old(self).wf(),
        ensures
            final(self)@ == old(self)@.insert(key@, value@),
            final(self).wf(),
            final(self).entries_seq().len() <= old(self).entries_seq().len() + 1,
    {
        let ghost s0 = self.entries@;
        let mut i: usize = 0;
        while i < self.entries.len()
            invariant
                0 <= i <= self.entries@.len(),
                self.entries@ == s0,
                s0 == old(self).entries@,
                entries_distinct(s0),
                forall|j: int| 0 <= j < i ==> s0[j].0@ != key@,
            decreases self.entries@.len() - i,
        {
            if str_eq(self.entries[i].0.as_str(), key.as_str()) {
                let ghost p = (key, value);
                self.entries.set(i, (key, value));
                proof {
                    assert(self.entries@ == s0.update(i as int, p));
                    lemma_as_map_update(s0, i as int, p);
                    assert forall|a: int, b: int|
                        0 <= a < b < self.entries@.len() implies self.entries@[a].0@
                        != self.entries@[b].0@ by {
                        if a != i && b != i {
                            assert(s0[a].0@ != s0[b].0@);
                        }
                    }
                }
                return;
            }
            i = i + 1;
        }
        let ghost p = (key, value);
        self.entries.push((key, value));
        proof {
            assert(self.entries@ == s0.push(p));
            assert(self.entries@.drop_last() =~= s0);
            assert(self.entries@.last() == p);
            assert forall|a: int, b: int|
                0 <= a < b < self.entries@.len() implies self.entries@[a].0@
                != self.entries@[b].0@ by {
                if b < self.entries@.len() - 1 {
                    assert(s0[a].0@ != s0[b].0@);
                } else {
                    assert(s0[a].0@ != key@);
                }
            }
        }
    }

    /// How many entries the table holds (also its map size).
    pub fn entry_count(&self) -> (r: usize)
        ensures
            r == self.entries_seq().len(),
    {
        self.entries.len()
    }

    /// The entry at a position, in insertion order.
    pub fn entry_at(&self, i: usize) -> (r: (&String, &String))
        requires
            i < self.entries_seq().len(),
        ensures
            *r.0 == self.entries_seq()[i as int].0,
            *r.1 == self.entries_seq()[i as int].1,
    {
        let entry = &self.entries[i];
        (&entry.0, &entry.1)
    }

    /// An independent copy of the table.
    pub fn duplicate(&self) -> (r: VarTable)
        ensures
            r.entries_seq() == self.entries_seq(),
            r@ == self@,
            self.wf() ==> r.wf(),
    {
        let mut entries: Vec<(String, String)> = Vec::new();
        let mut i: usize = 0;
        while i < self.entries.len()
            invariant
                0 <= i <= self.entries@.len(),
                entries@ == self.entries@.subrange(0, i as int),
            decreases self.entries@.len() - i,
        {
            let entry = &self.entries[i];
            entries.push((entry.0.clone(), entry.1.clone()));
            proof {
                assert(entries@ =~= self.entries@.subrange(0, i + 1));
            }
            i = i + 1;
        }
        proof {
            assert(entries@ =~= self.entries@);
        }
        VarTable { entries }
    }
}

} // verus!
