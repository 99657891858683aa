//! The table that a header yields: names, each with a number of eight bits.
//!
//! A name occurs once. The entries keep the order in which their names were
//! first recorded, so that what is derived from a table does not depend on
//! anything but the header.

use vstd::prelude::*;
use crate::text::same_text;

verus! {

/// The names of `entries`, in order.
pub open spec fn names(entries: Seq<(Seq<char>, u8)>) -> Seq<Seq<char>> {
    entries.map_values(|entry: (Seq<char>, u8)| entry.0)
}

/// Whether no name occurs twice in `entries`.
pub open spec fn distinct_names(entries: Seq<(Seq<char>, u8)>) -> bool {
    names(entries).no_duplicates()
}

/// Where `name` stands in `entries`, if it does.
pub open spec fn position(entries: Seq<(Seq<char>, u8)>, name: Seq<char>) -> Option<int> {
    names(entries).index_of_first(name)
}

/// The number that `entries` give for `name`, if any.
pub open spec fn lookup(entries: Seq<(Seq<char>, u8)>, name: Seq<char>) -> Option<u8> {
    match position(entries, name) {
        Some(i) => Some(entries[i].1),
        None => None,
    }
}

/// `entries` once `name` is recorded with `value`: a name already there keeps
/// its place and takes the new number, a new name goes to the end.
pub open spec fn record(entries: Seq<(Seq<char>, u8)>, name: Seq<char>, value: u8) -> Seq<
    (Seq<char>, u8),
> {
    match position(entries, name) {
        Some(i) => entries.update(i, (name, value)),
        None => entries.push((name, value)),
    }
}

/// What `position` says: the first index at which the name stands.
pub proof fn lemma_position(entries: Seq<(Seq<char>, u8)>, name: Seq<char>)
    ensures
        match position(entries, name) {
            Some(i) => {
                &&& 0 <= i < entries.len()
                &&& entries[i].0 == name
                &&& forall|j: int| 0 <= j < i ==> (#[trigger] entries[j]).0 != name
            },
            None => forall|j: int| 0 <= j < entries.len() ==> (#[trigger] entries[j]).0 != name,
        },
{
    let all = names(entries);
    all.index_of_first_ensures(name);
    match all.index_of_first(name) {
        Some(i) => {
            assert forall|j: int| 0 <= j < i implies (#[trigger] entries[j]).0 != name by {
                assert(all[j] == entries[j].0);
            }
        },
        None => {
            assert forall|j: int| 0 <= j < entries.len() implies (#[trigger] entries[j]).0
                != name by {
                assert(all[j] == entries[j].0);
            }
        },
    }
}

/// An index that holds `name` with none before it is its position.
pub proof fn lemma_position_is(entries: Seq<(Seq<char>, u8)>, name: Seq<char>, i: int)
    requires
        0 <= i < entries.len(),
        entries[i].0 == name,
        forall|j: int| 0 <= j < i ==> (#[trigger] entries[j]).0 != name,
    ensures
        position(entries, name) == Some(i),
{
    lemma_position(entries, name);
    assert(names(entries)[i] == name);
}

/// Recording a name keeps the names distinct, gives that name its number and
/// leaves every other name as it was. The table grows by one for a new name
/// and not at all for a known one.
pub proof fn lemma_record(entries: Seq<(Seq<char>, u8)>, name: Seq<char>, value: u8)
    requires
        distinct_names(entries),
    ensures
        distinct_names(record(entries, name, value)),
        lookup(record(entries, name, value), name) == Some(value),
        forall|other: Seq<char>|
            other != name ==> #[trigger] lookup(record(entries, name, value), other) == lookup(
                entries,
                other,
            ),
        record(entries, name, value).len() == if position(entries, name) is Some {
            entries.len()
        } else {
            entries.len() + 1
        },
{
    let after = record(entries, name, value);
    lemma_position(entries, name);
    assert forall|i: int, j: int|
        0 <= i < after.len() && 0 <= j < after.len() && i != j implies names(after)[i] != names(
        after,
    )[j] by {
        assert(names(after)[i] == after[i].0);
        assert(names(after)[j] == after[j].0);
        if i < entries.len() {
            assert(names(entries)[i] == entries[i].0);
        }
        if j < entries.len() {
            assert(names(entries)[j] == entries[j].0);
        }
    }
    match position(entries, name) {
        Some(i) => {
            lemma_position_is(after, name, i);
        },
        None => {
            lemma_position_is(after, name, entries.len() as int);
        },
    }
    assert forall|other: Seq<char>| other != name implies #[trigger] lookup(after, other)
        == lookup(entries, other) by {
        lemma_position(entries, other);
        match position(entries, other) {
            Some(k) => {
                lemma_position_is(after, other, k);
            },
            None => {
                lemma_position(after, other);
                if let Some(k) = position(after, other) {
                    if k < entries.len() {
                        assert(entries[k].0 == after[k].0 || after[k].0 == name);
                    }
                }
            },
        }
    }
}

/// A table of names and their numbers.
#[derive(Debug, PartialEq, Eq)]
pub struct SignalTable {
    entries: Vec<(String, u8)>,
}

impl View for SignalTable {
    type V = Seq<(Seq<char>, u8)>;

    /// The entries, in the order in which their names were first recorded.
    closed spec fn view(&self) -> Seq<(Seq<char>, u8)> {
        self.entries@.map_values(|entry: (String, u8)| (entry.0@, entry.1))
    }
}

impl Clone for SignalTable {
    /// A table with the same entries.
    fn clone(&self) -> (copy: SignalTable)
        ensures
            copy@ == self@,
    {
        proof {
            use_type_invariant(self);
        }
        let mut entries: Vec<(String, u8)> = Vec::new();
        let n = self.entries.len();
        let mut i: usize = 0;
        while i < n
            invariant
                i <= n,
                n == self.entries@.len(),
                entries@.len() == i,
                forall|k: int|
                    0 <= k < i ==> (#[trigger] entries@[k]).0@ == self.entries@[k].0@
                        && entries@[k].1 == self.entries@[k].1,
            decreases n - i,
        {
            entries.push((self.entries[i].0.clone(), self.entries[i].1));
            i += 1;
        }
        assert(entries@.map_values(|entry: (String, u8)| (entry.0@, entry.1)) =~= self@);
        SignalTable { entries }
    }
}

impl SignalTable {
    /// No name occurs twice in a table.
    #[verifier::type_invariant]
    spec fn names_are_distinct(&self) -> bool {
        distinct_names(self@)
    }

    /// A table without entries.
    pub fn new() -> (table: SignalTable)
        ensures
            table@ == Seq::<(Seq<char>, u8)>::empty(),
    {
        let entries: Vec<(String, u8)> = Vec::new();
        assert(entries@.map_values(|entry: (String, u8)| (entry.0@, entry.1)) =~= Seq::<
            (Seq<char>, u8),
        >::empty());
        SignalTable { entries }
    }

    /// The number of entries: the number of names, as none occurs twice.
    pub fn len(&self) -> (n: usize)
        ensures
            n == self@.len(),
            distinct_names(self@),
    {
        proof {
            use_type_invariant(self);
        }
        self.entries.len()
    }

    /// Whether the table has no entry.
    pub fn is_empty(&self) -> (empty: bool)
        ensures
            empty == (self@.len() == 0),
    {
        self.entries.len() == 0
    }

    /// The name of the entry at `index`.
    pub fn name_at(&self, index: usize) -> (name: &str)
        requires
            index < self@.len(),
        ensures
            name@ == self@[index as int].0,
    {
        self.entries[index].0.as_str()
    }

    /// The number of the entry at `index`.
    pub fn value_at(&self, index: usize) -> (value: u8)
        requires
            index < self@.len(),
        ensures
            value == self@[index as int].1,
    {
        self.entries[index].1
    }

    /// The index of the entry for `name`, if there is one.
    pub fn find(&self, name: &str) -> (found: Option<usize>)
        ensures
            match found {
                Some(i) => i < self@.len() && position(self@, name@) == Some(i as int),
                None => position(self@, name@) is None,
            },
    {
        let n = self.entries.len();
        let mut i: usize = 0;
        while i < n
            invariant
                i <= n,
                n == self@.len(),
                forall|j: int| 0 <= j < i ==> (#[trigger] self@[j]).0 != name@,
            decreases n - i,
        {
            if same_text(self.entries[i].0.as_str(), name) {
                proof {
                    lemma_position_is(self@, name@, i as int);
                }
                return Some(i);
            }
            i += 1;
        }
        proof {
            lemma_position(self@, name@);
        }
        None
    }

    /// The number recorded for `name`, if any.
    pub fn get(&self, name: &str) -> (value: Option<u8>)
        ensures
            value == lookup(self@, name@),
    {
        match self.find(name) {
            Some(i) => Some(self.entries[i].1),
            None => None,
        }
    }

    /// Records `name` with `value`, in place of the number it had if it was
    /// there already. Returns that earlier number.
    pub fn insert(&mut self, name: String, value: u8) -> (earlier: Option<u8>)
        ensures
            final(self)@ == record(old(self)@, name@, value),
            earlier == lookup(old(self)@, name@),
    {
        proof {
            use_type_invariant(&*self);
            lemma_record(self@, name@, value);
            lemma_position(self@, name@);
        }
        match self.find(name.as_str()) {
            Some(i) => {
                let earlier = self.entries[i].1;
                let ghost renamed = self.entries@.update(
                    i as int,
                    (self.entries@[i as int].0, value),
                );
                assert(renamed.map_values(|entry: (String, u8)| (entry.0@, entry.1)) =~= record(
                    self@,
                    name@,
                    value,
                ));
                let mut entries: Vec<(String, u8)> = Vec::new();
                assert(entries@.map_values(|entry: (String, u8)| (entry.0@, entry.1)) =~= Seq::<
                    (Seq<char>, u8),
                >::empty());
                std::mem::swap(&mut self.entries, &mut entries);
                entries[i].1 = value;
                assert(entries@ =~= renamed);
                self.entries = entries;
                Some(earlier)
            },
            None => {
                let ghost longer = self.entries@.push((name, value));
                assert(longer.map_values(|entry: (String, u8)| (entry.0@, entry.1)) =~= record(
                    self@,
                    name@,
                    value,
                ));
                let mut entries: Vec<(String, u8)> = Vec::new();
                assert(entries@.map_values(|entry: (String, u8)| (entry.0@, entry.1)) =~= Seq::<
                    (Seq<char>, u8),
                >::empty());
                std::mem::swap(&mut self.entries, &mut entries);
                entries.push((name, value));
                self.entries = entries;
                None
            },
        }
    }
}

} // verus!
