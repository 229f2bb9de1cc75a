//! A map from text to text.
use vstd::prelude::*;

use crate::text;

verus! {

/// A map from text to text. No key occurs twice.
#[derive(Debug)]
pub struct StringMap {
    entries: Vec<(String, String)>,
}

/// The value that the entries give to a key, if one has it.
spec fn found(entries: Seq<(String, String)>, key: Seq<char>) -> Option<Seq<char>> {
    if exists|i: int| entry_at(entries, key, i) {
        Some(entries[choose|i: int| entry_at(entries, key, i)].1@)
    } else {
        None
    }
}

/// Entry `i` has this key.
spec fn entry_at(entries: Seq<(String, String)>, key: Seq<char>, i: int) -> bool {
    0 <= i < entries.len() && entries[i].0@ == key
}

/// No key occurs twice.
spec fn distinct(entries: Seq<(String, String)>) -> bool {
    forall|i: int, j: int|
        0 <= i < j < entries.len() ==> (#[trigger] entries[i]).0@ != (#[trigger] entries[j]).0@
}

impl View for StringMap {
    type V = Map<Seq<char>, Seq<char>>;

    closed spec fn view(&self) -> Map<Seq<char>, Seq<char>> {
        Map::new(
            |key: Seq<char>| found(self.entries@, key) is Some,
            |key: Seq<char>| found(self.entries@, key)->0,
        )
    }
}

proof fn lemma_found(entries: Seq<(String, String)>, key: Seq<char>, i: int)
    requires
        distinct(entries),
        entry_at(entries, key, i),
    ensures
        found(entries, key) == Some(entries[i].1@),
{
    let k = choose|k: int| entry_at(entries, key, k);
    assert(k == i);
}

impl StringMap {
    #[verifier::type_invariant]
    spec fn has_distinct_keys(self) -> bool {
        distinct(self.entries@)
    }

    /// An empty map.
    pub fn new() -> (result: Self)
        ensures
            result@ == Map::<Seq<char>, Seq<char>>::empty(),
    {
        let entries: Vec<(String, String)> = Vec::new();
        let result = StringMap { entries };
        assert(result@ =~= Map::empty());
        result
    }

    /// The position of the entry with this key.
    fn position(&self, key: &str) -> (result: Option<usize>)
        ensures
            match result {
                Some(i) => entry_at(self.entries@, key@, i as int),
                None => forall|i: int| !entry_at(self.entries@, key@, i),
            },
    {
        let mut i: usize = 0;
        while i < self.entries.len()
            invariant
                i <= self.entries@.len(),
                forall|j: int| 0 <= j < i ==> !entry_at(self.entries@, key@, j),
            decreases self.entries@.len() - i,
        {
            if text::same(self.entries[i].0.as_str(), key) {
                return Some(i);
            }
            i = i + 1;
        }
        None
    }

    /// The value of a key.
    pub fn get(&self, key: &str) -> (result: Option<&String>)
        ensures
            match result {
                Some(value) => self@.contains_key(key@) && value@ == self@[key@],
                None => !self@.contains_key(key@),
            },
    {
        proof {
            use_type_invariant(self);
        }
        match self.position(key) {
            Some(i) => {
                proof {
                    lemma_found(self.entries@, key@, i as int);
                }
                Some(&self.entries[i].1)
            },
            None => None,
        }
    }

    /// The map with this value for this key.
    pub fn with(self, key: String, value: String) -> (result: Self)
        ensures
            result@ == self@.insert(key@, value@),
    {
        proof {
            use_type_invariant(&self);
        }
        let ghost before = self.entries@;
        let at = self.position(key.as_str());
        let ghost name = key@;
        let ghost text = value@;
        let mut entries = self.entries;
        match at {
            Some(i) => {
                entries.set(i, (key, value));
            },
            None => {
                entries.push((key, value));
            },
        }
        proof {
            let after = entries@;
            let i = match at {
                Some(i) => i as int,
                None => before.len() as int,
            };
            assert forall|j: int, k: int| 0 <= j < k < after.len() implies (
            #[trigger] after[j]).0@ != (#[trigger] after[k]).0@ by {
                if j != i && k != i {
                    assert(before[j].0@ != before[k].0@);
                } else {
                    let other = if j == i { k } else { j };
                    assert(after[other] == before[other]);
                    if at is None {
                        assert(!entry_at(before, name, other));
                    } else if other < i {
                        assert(before[other].0@ != before[i].0@);
                    } else {
                        assert(before[i].0@ != before[other].0@);
                    }
                }
            }
            lemma_found(after, name, i);
            assert forall|other: Seq<char>| other != name implies #[trigger] found(after, other)
                == found(before, other) by {
                if exists|j: int| entry_at(before, other, j) {
                    let j = choose|j: int| entry_at(before, other, j);
                    assert(entry_at(after, other, j));
                    lemma_found(after, other, j);
                    lemma_found(before, other, j);
                } else if exists|j: int| entry_at(after, other, j) {
                    let j = choose|j: int| entry_at(after, other, j);
                    assert(entry_at(before, other, j));
                }
            }
        }
        let result = StringMap { entries };
        assert(result@ =~= self@.insert(name, text));
        result
    }
}

impl Clone for StringMap {
    fn clone(&self) -> (result: Self)
        ensures
            result@ == self@,
    {
        proof {
            use_type_invariant(self);
        }
        let mut entries: Vec<(String, String)> = Vec::new();
        let mut i: usize = 0;
        while i < self.entries.len()
            invariant
                i <= self.entries@.len(),
                entries@ == self.entries@.subrange(0, i as int),
            decreases self.entries@.len() - i,
        {
            entries.push((self.entries[i].0.clone(), self.entries[i].1.clone()));
            i = i + 1;
            assert(entries@ =~= self.entries@.subrange(0, i as int));
        }
        assert(entries@ =~= self.entries@);
        StringMap { entries }
    }
}

/// Every entry of `entries` is in `map`.
spec fn all_in(entries: Seq<(String, String)>, map: Map<Seq<char>, Seq<char>>, n: int) -> bool {
    forall|i: int|
        0 <= i < n ==> map.contains_key((#[trigger] entries[i]).0@) && map[entries[i].0@]
            == entries[i].1@
}

impl StringMap {
    /// Whether all entries are in the other map too.
    fn is_within(&self, other: &Self) -> (result: bool)
        ensures
            result == self@.submap_of(other@),
    {
        proof {
            use_type_invariant(self);
        }
        let mut i: usize = 0;
        while i < self.entries.len()
            invariant
                distinct(self.entries@),
                i <= self.entries@.len(),
                all_in(self.entries@, other@, i as int),
            decreases self.entries@.len() - i,
        {
            let ghost key = self.entries@[i as int].0@;
            proof {
                assert(entry_at(self.entries@, key, i as int));
                lemma_found(self.entries@, key, i as int);
            }
            match other.get(self.entries[i].0.as_str()) {
                Some(value) => {
                    if !text::same(value.as_str(), self.entries[i].1.as_str()) {
                        assert(self@.dom().contains(key));
                        return false;
                    }
                },
                None => {
                    assert(self@.dom().contains(key));
                    return false;
                },
            }
            i = i + 1;
        }
        assert forall|key: Seq<char>| #[trigger] self@.dom().contains(key) implies other@.dom()
            .contains(key) && self@[key] == other@[key] by {
            let i = choose|i: int| entry_at(self.entries@, key, i);
            lemma_found(self.entries@, key, i);
            assert(other@.contains_key(self.entries@[i].0@));
        }
        true
    }
}

impl PartialEq for StringMap {
    fn eq(&self, other: &Self) -> (result: bool) {
        let result = self.is_within(other) && other.is_within(self);
        proof {
            if result {
                assert(self@ =~= other@);
            }
        }
        result
    }
}

impl vstd::std_specs::cmp::PartialEqSpecImpl for StringMap {
    open spec fn obeys_eq_spec() -> bool {
        true
    }

    open spec fn eq_spec(&self, other: &Self) -> bool {
        self@ == other@
    }
}

impl Eq for StringMap {

}

} // verus!
