//! Access keys by the relay that issued them.

use crate::text;
use vstd::prelude::*;

verus! {

/// Access keys by name. No name stands twice.
#[derive(Debug)]
pub struct RelayKeys {
    entries: Vec<(String, String)>,
}

/// No two entries have the same name.
pub open spec fn distinct_names(entries: Seq<(String, String)>) -> bool {
    forall|i: int, j: int|
        0 <= i < j < entries.len() ==> (#[trigger] entries[i]).0@ != (#[trigger] entries[j]).0@
}

/// What a list of entries maps.
pub open spec fn keys_by_name(entries: Seq<(String, String)>) -> Map<Seq<char>, Seq<char>> {
    Map::new(
        |name: Seq<char>| exists|i: int| 0 <= i < entries.len() && (#[trigger] entries[i]).0@ == name,
        |name: Seq<char>|
            entries[choose|i: int| 0 <= i < entries.len() && (#[trigger] entries[i]).0@ == name].1@,
    )
}

proof fn lemma_entry(entries: Seq<(String, String)>, i: int)
    requires
        distinct_names(entries),
        0 <= i < entries.len(),
    ensures
        keys_by_name(entries).dom().contains(entries[i].0@),
        keys_by_name(entries)[entries[i].0@] == entries[i].1@,
{
}

impl View for RelayKeys {
    type V = Map<Seq<char>, Seq<char>>;

    closed spec fn view(&self) -> Map<Seq<char>, Seq<char>> {
        keys_by_name(self.entries@)
    }
}

impl RelayKeys {
    #[verifier::type_invariant]
    spec fn well_formed(self) -> bool {
        distinct_names(self.entries@)
    }

    pub fn new() -> (keys: RelayKeys)
        ensures
            keys@ == Map::<Seq<char>, Seq<char>>::empty(),
    {
        let keys = RelayKeys { entries: Vec::new() };
        assert(keys@ =~= Map::<Seq<char>, Seq<char>>::empty());
        keys
    }

    /// The names and their keys, each name once.
    pub fn entries(&self) -> (entries: &[(String, String)])
        ensures
            distinct_names(entries@),
            keys_by_name(entries@) == self@,
    {
        proof {
            use_type_invariant(self);
        }
        self.entries.as_slice()
    }

    fn position(&self, name: &str) -> (at: Option<usize>)
        ensures
            match at {
                Some(i) => i < self.entries@.len() && self.entries@[i as int].0@ == name@,
                None => forall|i: int|
                    0 <= i < self.entries@.len() ==> (#[trigger] self.entries@[i]).0@ != name@,
            },
    {
        let mut i: usize = 0;
        while i < self.entries.len()
            invariant
                i <= self.entries@.len(),
                forall|j: int| 0 <= j < i ==> (#[trigger] self.entries@[j]).0@ != name@,
            decreases self.entries@.len() - i,
        {
            if text::same(self.entries[i].0.as_str(), name) {
                return Some(i);
            }
            i = i + 1;
        }
        None
    }

    /// The key under a name.
    pub fn get(&self, name: &str) -> (key: Option<&str>)
        ensures
            match key {
                Some(k) => self@.dom().contains(name@) && self@[name@] == k@,
                None => !self@.dom().contains(name@),
            },
    {
        proof {
            use_type_invariant(self);
        }
        match self.position(name) {
            Some(i) => {
                proof {
                    lemma_entry(self.entries@, i as int);
                }
                Some(self.entries[i].1.as_str())
            },
            None => None,
        }
    }

    /// Keep a key under a name, in place of the one before.
    pub fn insert(&mut self, name: String, key: String)
        ensures
            final(self)@ == old(self)@.insert(name@, key@),
    {
        proof {
            use_type_invariant(&*self);
        }
        let at: Option<usize> = self.position(name.as_str());
        let ghost before = self.entries@;
        let mut entries: Vec<(String, String)> = Vec::new();
        std::mem::swap(&mut entries, &mut self.entries);
        let ghost pair = (name, key);
        match at {
            Some(i) => {
                entries.set(i, (name, key));
                proof {
                    lemma_replaced(before, i as int, pair);
                }
            },
            None => {
                entries.push((name, key));
                proof {
                    lemma_pushed(before, pair);
                }
            },
        }
        self.entries = entries;
    }

    /// Forget the key under a name.
    pub fn remove(&mut self, name: &str)
        ensures
            final(self)@ == old(self)@.remove(name@),
    {
        proof {
            use_type_invariant(&*self);
        }
        match self.position(name) {
            Some(i) => {
                let ghost before = self.entries@;
                let mut entries: Vec<(String, String)> = Vec::new();
                std::mem::swap(&mut entries, &mut self.entries);
                entries.remove(i);
                proof {
                    lemma_removed(before, i as int);
                }
                self.entries = entries;
            },
            None => {
                assert(self@ =~= self@.remove(name@));
            },
        }
    }

    /// Whether every entry of `other` stands here too.
    fn holds_all_of(&self, other: &RelayKeys) -> (b: bool)
        ensures
            b == (forall|name: Seq<char>| #[trigger]
                other@.dom().contains(name) ==> self@.dom().contains(name) && self@[name]
                    == other@[name]),
    {
        proof {
            use_type_invariant(self);
            use_type_invariant(other);
        }
        let mut i: usize = 0;
        while i < other.entries.len()
            invariant
                i <= other.entries@.len(),
                distinct_names(self.entries@),
                distinct_names(other.entries@),
                forall|j: int|
                    0 <= j < i ==> {
                        let e = #[trigger] other.entries@[j];
                        self@.dom().contains(e.0@) && self@[e.0@] == e.1@
                    },
            decreases other.entries@.len() - i,
        {
            proof {
                lemma_entry(other.entries@, i as int);
            }
            let found: bool = match self.get(other.entries[i].0.as_str()) {
                Some(k) => text::same(k, other.entries[i].1.as_str()),
                None => false,
            };
            if !found {
                assert(other@.dom().contains(other.entries@[i as int].0@));
                return false;
            }
            i = i + 1;
        }
        assert forall|name: Seq<char>| #[trigger] other@.dom().contains(name) implies self@.dom().contains(
            name,
        ) && self@[name] == other@[name] by {
            let j = choose|j: int|
                0 <= j < other.entries@.len() && (#[trigger] other.entries@[j]).0@ == name;
            lemma_entry(other.entries@, j);
        }
        true
    }
}

impl Clone for RelayKeys {
    fn clone(&self) -> (keys: Self)
        ensures
            keys@ == self@,
    {
        proof {
            use_type_invariant(self);
        }
        let mut entries: Vec<(String, String)> = Vec::new();
        let mut i: usize = 0;
        while i < self.entries.len()
            invariant
                i <= self.entries@.len(),
                entries@ == self.entries@.take(i as int),
            decreases self.entries@.len() - i,
        {
            entries.push((self.entries[i].0.clone(), self.entries[i].1.clone()));
            assert(entries@ =~= self.entries@.take(i + 1));
            i = i + 1;
        }
        assert(entries@ =~= self.entries@);
        RelayKeys { entries }
    }
}

impl Default for RelayKeys {
    fn default() -> (keys: Self)
        ensures
            keys@ == Map::<Seq<char>, Seq<char>>::empty(),
    {
        RelayKeys::new()
    }
}

/// The same keys under the same names, in whatever order.
impl PartialEq for RelayKeys {
    fn eq(&self, other: &Self) -> (b: bool) {
        let b: bool = self.holds_all_of(other) && other.holds_all_of(self);
        assert(b ==> self@ =~= other@);
        b
    }
}

impl vstd::std_specs::cmp::PartialEqSpecImpl for RelayKeys {
    open spec fn obeys_eq_spec() -> bool {
        true
    }

    open spec fn eq_spec(&self, other: &Self) -> bool {
        self@ == other@
    }
}

proof fn lemma_replaced(before: Seq<(String, String)>, i: int, pair: (String, String))
    requires
        distinct_names(before),
        0 <= i < before.len(),
        before[i].0@ == pair.0@,
    ensures
        distinct_names(before.update(i, pair)),
        keys_by_name(before.update(i, pair)) == keys_by_name(before).insert(pair.0@, pair.1@),
{
    let after = before.update(i, pair);
    assert(distinct_names(after));
    assert forall|name: Seq<char>|
        keys_by_name(after).dom().contains(name) == keys_by_name(before).insert(
            pair.0@,
            pair.1@,
        ).dom().contains(name) by {
        if keys_by_name(before).dom().contains(name) {
            let j = choose|j: int| 0 <= j < before.len() && (#[trigger] before[j]).0@ == name;
            assert(after[j].0@ == name);
        }
        if name == pair.0@ {
            assert(after[i].0@ == name);
        }
    }
    assert forall|name: Seq<char>| #[trigger] keys_by_name(after).dom().contains(name) implies keys_by_name(
        after,
    )[name] == keys_by_name(before).insert(pair.0@, pair.1@)[name] by {
        let j = choose|j: int| 0 <= j < after.len() && (#[trigger] after[j]).0@ == name;
        lemma_entry(after, j);
        lemma_entry(before, j);
    }
    assert(keys_by_name(after) =~= keys_by_name(before).insert(pair.0@, pair.1@));
}

proof fn lemma_pushed(before: Seq<(String, String)>, pair: (String, String))
    requires
        distinct_names(before),
        forall|i: int| 0 <= i < before.len() ==> (#[trigger] before[i]).0@ != pair.0@,
    ensures
        distinct_names(before.push(pair)),
        keys_by_name(before.push(pair)) == keys_by_name(before).insert(pair.0@, pair.1@),
{
    let after = before.push(pair);
    assert(distinct_names(after));
    assert(after[before.len() as int] == pair);
    assert forall|name: Seq<char>|
        keys_by_name(after).dom().contains(name) == keys_by_name(before).insert(
            pair.0@,
            pair.1@,
        ).dom().contains(name) by {
        if keys_by_name(before).dom().contains(name) {
            let j = choose|j: int| 0 <= j < before.len() && (#[trigger] before[j]).0@ == name;
            assert(after[j].0@ == name);
        }
        if keys_by_name(after).dom().contains(name) && name != pair.0@ {
            let j = choose|j: int| 0 <= j < after.len() && (#[trigger] after[j]).0@ == name;
            assert(before[j].0@ == name);
        }
    }
    assert forall|name: Seq<char>| #[trigger] keys_by_name(after).dom().contains(name) implies keys_by_name(
        after,
    )[name] == keys_by_name(before).insert(pair.0@, pair.1@)[name] by {
        let j = choose|j: int| 0 <= j < after.len() && (#[trigger] after[j]).0@ == name;
        lemma_entry(after, j);
        if j < before.len() {
            assert(before[j] == after[j]);
            lemma_entry(before, j);
        }
    }
    assert(keys_by_name(after) =~= keys_by_name(before).insert(pair.0@, pair.1@));
}

proof fn lemma_removed(before: Seq<(String, String)>, i: int)
    requires
        distinct_names(before),
        0 <= i < before.len(),
    ensures
        distinct_names(before.remove(i)),
        keys_by_name(before.remove(i)) == keys_by_name(before).remove(before[i].0@),
{
    let after = before.remove(i);
    assert(distinct_names(after));
    assert forall|name: Seq<char>|
        keys_by_name(after).dom().contains(name) == keys_by_name(before).remove(
            before[i].0@,
        ).dom().contains(name) by {
        if keys_by_name(before).dom().contains(name) && name != before[i].0@ {
            let j = choose|j: int| 0 <= j < before.len() && (#[trigger] before[j]).0@ == name;
            if j < i {
                assert(after[j].0@ == name);
            } else {
                assert(after[j - 1].0@ == name);
            }
        }
        if keys_by_name(after).dom().contains(name) {
            let j = choose|j: int| 0 <= j < after.len() && (#[trigger] after[j]).0@ == name;
            if j < i {
                assert(before[j].0@ == name);
            } else {
                assert(before[j + 1].0@ == name);
            }
        }
    }
    assert forall|name: Seq<char>| #[trigger] keys_by_name(after).dom().contains(name) implies keys_by_name(
        after,
    )[name] == keys_by_name(before).remove(before[i].0@)[name] by {
        let j = choose|j: int| 0 <= j < after.len() && (#[trigger] after[j]).0@ == name;
        lemma_entry(after, j);
        if j < i {
            lemma_entry(before, j);
        } else {
            lemma_entry(before, j + 1);
        }
    }
    assert(keys_by_name(after) =~= keys_by_name(before).remove(before[i].0@));
}

} // verus!
