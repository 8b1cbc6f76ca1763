//! A small map from text to text that remembers the order in which keys
//! came.

use vstd::prelude::*;
use crate::text::str_eq;

verus! {

/// The value of the first entry at or after `from` whose key is `key`.
pub open spec fn lookup(entries: Seq<(Seq<char>, Seq<char>)>, key: Seq<char>, from: int) -> Option<
    Seq<char>,
>
    decreases entries.len() - from,
{
    if from < 0 || from >= entries.len() {
        None
    } else if entries[from].0 == key {
        Some(entries[from].1)
    } else {
        lookup(entries, key, from + 1)
    }
}

/// The map that a list of entries stands for: each key with the value of
/// its first entry.
pub open spec fn as_map(entries: Seq<(Seq<char>, Seq<char>)>) -> Map<Seq<char>, Seq<char>> {
    Map::new(
        |k: Seq<char>| lookup(entries, k, 0) is Some,
        |k: Seq<char>| lookup(entries, k, 0).unwrap(),
    )
}

pub open spec fn entries_view(entries: Seq<(String, String)>) -> Seq<(Seq<char>, Seq<char>)> {
    entries.map_values(|e: (String, String)| (e.0@, e.1@))
}

/// No key stands in the list twice.
pub open spec fn distinct_keys(entries: Seq<(Seq<char>, Seq<char>)>) -> bool {
    forall|i: int, j: int|
        0 <= i < j < entries.len() ==> (#[trigger] entries[i]).0 != (#[trigger] entries[j]).0
}

proof fn lemma_lookup_push(
    entries: Seq<(Seq<char>, Seq<char>)>,
    key: Seq<char>,
    value: Seq<char>,
    other: Seq<char>,
    from: int,
)
    requires
        0 <= from <= entries.len(),
    ensures
        lookup(entries.push((key, value)), other, from) == match lookup(entries, other, from) {
            Some(v) => Some(v),
            None => if other == key {
                Some(value)
            } else {
                None
            },
        },
    decreases entries.len() - from,
{
    let longer = entries.push((key, value));
    if from < entries.len() {
        assert(longer[from] == entries[from]);
        if entries[from].0 != other {
            lemma_lookup_push(entries, key, value, other, from + 1);
        }
    } else {
        assert(longer[from] == (key, value));
        assert(lookup(longer, other, from + 1) is None);
    }
}

proof fn lemma_lookup_update(
    entries: Seq<(Seq<char>, Seq<char>)>,
    at: int,
    value: Seq<char>,
    other: Seq<char>,
    from: int,
)
    requires
        0 <= from,
        0 <= at < entries.len(),
        forall|i: int| 0 <= i < at ==> (#[trigger] entries[i]).0 != entries[at].0,
    ensures
        lookup(entries.update(at, (entries[at].0, value)), other, from) == if other == entries[at].0
            && from <= at {
            Some(value)
        } else {
            lookup(entries, other, from)
        },
    decreases entries.len() - from,
{
    let changed = entries.update(at, (entries[at].0, value));
    if from < entries.len() {
        if from == at {
            if other != entries[at].0 {
                lemma_lookup_update(entries, at, value, other, from + 1);
            }
        } else {
            assert(changed[from] == entries[from]);
            if entries[from].0 != other {
                lemma_lookup_update(entries, at, value, other, from + 1);
            }
        }
    }
}

/// A list with `key` set to `value`: in the place of the first entry at or
/// after `from` that has the key, and at the end where there is none.
pub open spec fn placed(
    entries: Seq<(Seq<char>, Seq<char>)>,
    key: Seq<char>,
    value: Seq<char>,
    from: int,
) -> Seq<(Seq<char>, Seq<char>)>
    decreases entries.len() - from,
{
    if from < 0 || from >= entries.len() {
        entries.push((key, value))
    } else if entries[from].0 == key {
        entries.update(from, (key, value))
    } else {
        placed(entries, key, value, from + 1)
    }
}

proof fn lemma_placed_at(
    entries: Seq<(Seq<char>, Seq<char>)>,
    key: Seq<char>,
    value: Seq<char>,
    from: int,
    at: int,
)
    requires
        0 <= from <= at < entries.len(),
        entries[at].0 == key,
        forall|j: int| from <= j < at ==> (#[trigger] entries[j]).0 != key,
    ensures
        placed(entries, key, value, from) == entries.update(at, (key, value)),
    decreases at - from,
{
    if from < at {
        lemma_placed_at(entries, key, value, from + 1, at);
    }
}

proof fn lemma_placed_last(
    entries: Seq<(Seq<char>, Seq<char>)>,
    key: Seq<char>,
    value: Seq<char>,
    from: int,
)
    requires
        0 <= from,
        forall|j: int| from <= j < entries.len() ==> (#[trigger] entries[j]).0 != key,
    ensures
        placed(entries, key, value, from) == entries.push((key, value)),
    decreases entries.len() - from,
{
    if from < entries.len() {
        lemma_placed_last(entries, key, value, from + 1);
    }
}

/// A map from text to text. Entries are kept in the order in which their
/// keys were first set.
#[derive(Debug, PartialEq)]
pub struct StringMap {
    entries: Vec<(String, String)>,
}

impl View for StringMap {
    type V = Map<Seq<char>, Seq<char>>;

    closed spec fn view(&self) -> Map<Seq<char>, Seq<char>> {
        as_map(entries_view(self.entries@))
    }
}

impl StringMap {
    #[verifier::type_invariant]
    spec fn wf(&self) -> bool {
        distinct_keys(entries_view(self.entries@))
    }

    /// The entries in order, as plain values.
    pub closed spec fn listed(&self) -> Seq<(Seq<char>, Seq<char>)> {
        entries_view(self.entries@)
    }

    pub fn new() -> (map: StringMap)
        ensures
            map@ == Map::<Seq<char>, Seq<char>>::empty(),
            map.listed().len() == 0,
    {
        let map = StringMap { entries: Vec::new() };
        assert(map@ =~= Map::<Seq<char>, Seq<char>>::empty());
        map
    }

    /// The position of `key` among the entries.
    fn position(&self, key: &str) -> (at: Option<usize>)
        ensures
            match at {
                Some(i) => {
                    &&& i < self.entries@.len()
                    &&& self.entries@[i as int].0@ == key@
                    &&& forall|j: int| 0 <= j < i ==> (#[trigger] self.listed()[j]).0 != key@
                    &&& lookup(self.listed(), key@, 0) == Some(self.entries@[i as int].1@)
                },
                None => {
                    &&& forall|j: int|
                        0 <= j < self.entries@.len() ==> (#[trigger] self.listed()[j]).0 != key@
                    &&& lookup(self.listed(), key@, 0) is None
                },
            },
    {
        let mut i: usize = 0;
        while i < self.entries.len()
            invariant
                i <= self.entries@.len(),
                forall|j: int| 0 <= j < i ==> (#[trigger] self.listed()[j]).0 != key@,
                lookup(self.listed(), key@, 0) == lookup(self.listed(), key@, i as int),
            decreases self.entries@.len() - i,
        {
            if str_eq(self.entries[i].0.as_str(), key) {
                assert(self.listed()[i as int] == (self.entries@[i as int].0@, self.entries@[i as int].1@));
                return Some(i);
            }
            assert(self.listed()[i as int].0 == self.entries@[i as int].0@);
            i += 1;
        }
        None
    }

    /// The value that `key` is set to.
    pub fn get(&self, key: &str) -> (value: Option<&String>)
        ensures
            match value {
                Some(v) => self@.contains_key(key@) && self@[key@] == v@,
                None => !self@.contains_key(key@),
            },
    {
        match self.position(key) {
            Some(i) => Some(&self.entries[i].1),
            None => None,
        }
    }

    pub fn contains_key(&self, key: &str) -> (r: bool)
        ensures
            r == self@.contains_key(key@),
    {
        self.position(key).is_some()
    }

    /// Sets `key` to `value`. A key that was set before keeps its place; a
    /// new key comes last.
    pub fn insert(&mut self, key: String, value: String)
        ensures
            final(self)@ == old(self)@.insert(key@, value@),
            final(self).listed() == placed(old(self).listed(), key@, value@, 0),
    {
        proof {
            use_type_invariant(&*self);
        }
        let ghost before = self.listed();
        let found = self.position(key.as_str());
        proof {
            match found {
                Some(i) => lemma_placed_at(before, key@, value@, 0, i as int),
                None => lemma_placed_last(before, key@, value@, 0),
            }
        }
        let mut entries: Vec<(String, String)> = Vec::new();
        core::mem::swap(&mut self.entries, &mut entries);
        match found {
            Some(i) => {
                entries.set(i, (key, value));
                proof {
                    let after = entries_view(entries@);
                    assert(after =~= before.update(i as int, (before[i as int].0, value@)));
                    assert forall|k: Seq<char>| true implies lookup(after, k, 0) == if k == key@ {
                        Some(value@)
                    } else {
                        lookup(before, k, 0)
                    } by {
                        lemma_lookup_update(before, i as int, value@, k, 0);
                    }
                    assert(as_map(after) =~= as_map(before).insert(key@, value@));
                    assert(distinct_keys(after));
                }
            },
            None => {
                entries.push((key, value));
                proof {
                    let after = entries_view(entries@);
                    assert(after =~= before.push((key@, value@)));
                    assert forall|k: Seq<char>| true implies lookup(after, k, 0) == if k == key@ {
                        Some(value@)
                    } else {
                        lookup(before, k, 0)
                    } by {
                        lemma_lookup_push(before, key@, value@, k, 0);
                    }
                    assert(as_map(after) =~= as_map(before).insert(key@, value@));
                    assert(distinct_keys(after));
                }
            },
        }
        self.entries = entries;
    }

    /// The number of keys.
    pub fn len(&self) -> (n: usize)
        ensures
            n == self.listed().len(),
    {
        self.entries.len()
    }

    /// The entries in the order in which their keys were first set.
    pub fn entries(&self) -> (list: &Vec<(String, String)>)
        ensures
            entries_view(list@) == self.listed(),
            as_map(entries_view(list@)) == self@,
            distinct_keys(entries_view(list@)),
    {
        proof {
            use_type_invariant(self);
        }
        &self.entries
    }
}

} // verus!
