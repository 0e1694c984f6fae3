//! The values recorded for options, by name.

use vstd::prelude::*;
use crate::flag::{FlagValue, FlagValueView};
use crate::search::{
    first_index,
    lemma_first_index,
    lemma_first_index_congruent,
    lemma_first_index_is,
    lemma_first_index_push,
};

verus! {

/// A recorded name with its value, as mathematical content.
pub type Entry = (Seq<char>, FlagValueView);

/// The views of a list of recorded entries.
pub open spec fn entry_views(entries: Seq<(String, FlagValue)>) -> Seq<Entry> {
    Seq::new(entries.len(), |i: int| (entries[i].0@, entries[i].1@))
}

/// The test for an entry recorded under `name`.
pub open spec fn recorded_as(name: Seq<char>) -> spec_fn(Entry) -> bool {
    |e: Entry| e.0 == name
}

/// The index of the entry recorded under `name`, or the number of entries.
pub open spec fn entry_position(entries: Seq<Entry>, name: Seq<char>) -> int {
    first_index(entries, recorded_as(name))
}

/// The map from each recorded name to its value.
pub open spec fn entries_map(entries: Seq<Entry>) -> Map<Seq<char>, FlagValueView> {
    Map::new(
        |name: Seq<char>| entry_position(entries, name) < entries.len(),
        |name: Seq<char>| entries[entry_position(entries, name)].1,
    )
}

/// The recorded names, in order.
pub open spec fn entry_names(entries: Seq<Entry>) -> Seq<Seq<char>> {
    Seq::new(entries.len(), |i: int| entries[i].0)
}

/// Overwriting the value of a recorded name changes the map at that name
/// only, and no name.
proof fn lemma_overwrite(entries: Seq<Entry>, name: Seq<char>, value: FlagValueView)
    requires
        entry_position(entries, name) < entries.len(),
    ensures
        entries_map(entries.update(entry_position(entries, name), (name, value)))
            == entries_map(entries).insert(name, value),
        entry_names(entries.update(entry_position(entries, name), (name, value)))
            == entry_names(entries),
{
    let at = entry_position(entries, name);
    lemma_first_index(entries, recorded_as(name));
    let after = entries.update(at, (name, value));
    let changed = entries_map(after);
    let inserted = entries_map(entries).insert(name, value);
    assert forall|key: Seq<char>|
        {
            &&& #[trigger] changed.dom().contains(key) == inserted.dom().contains(key)
            &&& changed.dom().contains(key) ==> changed[key] == inserted[key]
        } by {
        lemma_first_index_congruent(entries, after, recorded_as(key));
        lemma_first_index(entries, recorded_as(key));
        let here = entry_position(entries, key);
        assert(entry_position(after, key) == here);
        if here < entries.len() && key != name {
            assert(entries[here].0 != entries[at].0);
            assert(after[here] == entries[here]);
        }
    }
    assert(changed =~= inserted);
    assert(entry_names(after) =~= entry_names(entries));
}

/// Appending a name that was not recorded adds it to the map and changes no
/// other name.
proof fn lemma_append(entries: Seq<Entry>, name: Seq<char>, value: FlagValueView)
    requires
        entry_position(entries, name) == entries.len(),
    ensures
        entries_map(entries.push((name, value))) == entries_map(entries).insert(name, value),
        entry_names(entries.push((name, value))) == entry_names(entries).push(name),
{
    let after = entries.push((name, value));
    let grown = entries_map(after);
    let inserted = entries_map(entries).insert(name, value);
    assert forall|key: Seq<char>|
        {
            &&& #[trigger] grown.dom().contains(key) == inserted.dom().contains(key)
            &&& grown.dom().contains(key) ==> grown[key] == inserted[key]
        } by {
        lemma_first_index_push(entries, (name, value), recorded_as(key));
        lemma_first_index(entries, recorded_as(key));
        let here = entry_position(entries, key);
        if here < entries.len() {
            assert(entry_position(after, key) == here);
            assert(after[here] == entries[here]);
        } else if key == name {
            assert(entry_position(after, key) == entries.len());
            assert(after[entries.len() as int] == (name, value));
        } else {
            assert(entry_position(after, key) == after.len());
        }
    }
    assert(grown =~= inserted);
    assert(entry_names(after) =~= entry_names(entries).push(name));
}

/// The values recorded for options, keyed by option name. A name is recorded
/// at most once; recording it again overwrites its value.
#[derive(Debug)]
pub struct FlagValues {
    entries: Vec<(String, FlagValue)>,
}

impl View for FlagValues {
    type V = Map<Seq<char>, FlagValueView>;

    closed spec fn view(&self) -> Map<Seq<char>, FlagValueView> {
        entries_map(entry_views(self.entries@))
    }
}

impl FlagValues {
    /// The recorded names, in the order in which they were first recorded.
    pub closed spec fn names(&self) -> Seq<Seq<char>> {
        entry_names(entry_views(self.entries@))
    }

    #[verifier::type_invariant]
    spec fn names_distinct(&self) -> bool {
        self.names().no_duplicates()
    }

    /// No recorded values.
    pub fn new() -> (values: FlagValues)
        ensures
            values@ == Map::<Seq<char>, FlagValueView>::empty(),
            values.names() == Seq::<Seq<char>>::empty(),
    {
        let values = FlagValues { entries: Vec::new() };
        assert(values@ =~= Map::<Seq<char>, FlagValueView>::empty());
        assert(values.names() =~= Seq::<Seq<char>>::empty());
        values
    }

    /// The index of the entry recorded under `name`, or the number of entries.
    fn position_of(&self, name: &String) -> (at: usize)
        ensures
            at == entry_position(entry_views(self.entries@), name@),
            at <= self.entries.len(),
    {
        let mut at: usize = 0;
        while at < self.entries.len() && !(self.entries[at].0 == *name)
            invariant
                at <= self.entries.len(),
                forall|j: int|
                    0 <= j < at ==> (#[trigger] entry_views(self.entries@)[j]).0 != name@,
            decreases self.entries.len() - at,
        {
            at += 1;
        }
        proof {
            lemma_first_index_is(entry_views(self.entries@), recorded_as(name@), at as int);
        }
        at
    }

    /// Records `value` under `name`, in place of any value recorded under it.
    pub fn insert(&mut self, name: String, value: FlagValue)
        ensures
            final(self)@ == old(self)@.insert(name@, value@),
            final(self).names() == if old(self)@.contains_key(name@) {
                old(self).names()
            } else {
                old(self).names().push(name@)
            },
    {
        proof {
            use_type_invariant(&*self);
        }
        let at = self.position_of(&name);
        let ghost before = entry_views(self.entries@);
        let ghost entry = (name@, value@);
        let mut entries: Vec<(String, FlagValue)> = Vec::new();
        std::mem::swap(&mut entries, &mut self.entries);
        if at < entries.len() {
            entries.set(at, (name, value));
            proof {
                assert(entry_views(entries@) =~= before.update(at as int, entry));
                lemma_overwrite(before, entry.0, entry.1);
            }
        } else {
            entries.push((name, value));
            proof {
                assert(entry_views(entries@) =~= before.push(entry));
                lemma_append(before, entry.0, entry.1);
                assert forall|j: int| 0 <= j < before.len() implies (#[trigger] entry_names(
                    before,
                )[j]) != entry.0 by {
                    lemma_first_index(before, recorded_as(entry.0));
                    assert(before[j].0 != entry.0);
                }
            }
        }
        self.entries = entries;
    }

    /// The value recorded under `name`.
    pub fn get(&self, name: &str) -> (value: Option<&FlagValue>)
        ensures
            match value {
                Some(v) => self@.contains_key(name@) && self@[name@] == v@,
                None => !self@.contains_key(name@),
            },
    {
        let name = name.to_owned();
        let at = self.position_of(&name);
        if at < self.entries.len() {
            Some(&self.entries[at].1)
        } else {
            None
        }
    }

    /// Whether a value is recorded under `name`.
    pub fn contains_key(&self, name: &str) -> (b: bool)
        ensures
            b == self@.contains_key(name@),
    {
        let name = name.to_owned();
        self.position_of(&name) < self.entries.len()
    }

    /// The number of recorded names.
    pub fn len(&self) -> (n: usize)
        ensures
            n == self.names().len(),
            self.names().no_duplicates(),
            forall|name: Seq<char>| self.names().contains(name) <==> self@.contains_key(name),
    {
        proof {
            use_type_invariant(self);
            let entries = entry_views(self.entries@);
            assert forall|name: Seq<char>| self.names().contains(name) <==> self@.contains_key(
                name,
            ) by {
                lemma_first_index(entries, recorded_as(name));
                if self.names().contains(name) {
                    let i = choose|i: int| 0 <= i < entries.len() && self.names()[i] == name;
                    assert(entries[i].0 == name);
                }
                if self@.contains_key(name) {
                    assert(self.names()[entry_position(entries, name)] == name);
                }
            }
        }
        self.entries.len()
    }

    /// The name recorded at `index`, with its value.
    pub fn entry_at(&self, index: usize) -> (entry: (&String, &FlagValue))
        requires
            index < self.names().len(),
        ensures
            entry.0@ == self.names()[index as int],
            self@.contains_key(entry.0@),
            self@[entry.0@] == entry.1@,
    {
        proof {
            use_type_invariant(self);
            let entries = entry_views(self.entries@);
            let name = entries[index as int].0;
            lemma_first_index(entries, recorded_as(name));
            let at = entry_position(entries, name);
            assert(self.names()[at] == name);
            assert(self.names()[index as int] == name);
        }
        (&self.entries[index].0, &self.entries[index].1)
    }
}

impl Clone for FlagValues {
    fn clone(&self) -> (copy: FlagValues)
        ensures
            copy@ == self@,
            copy.names() == self.names(),
    {
        proof {
            use_type_invariant(self);
        }
        let mut entries: Vec<(String, FlagValue)> = Vec::new();
        let mut at: usize = 0;
        while at < self.entries.len()
            invariant
                at <= self.entries.len(),
                entries.len() == at,
                forall|j: int|
                    0 <= j < at ==> (#[trigger] entries[j]).0@ == self.entries[j].0@
                        && entries[j].1@ == self.entries[j].1@,
            decreases self.entries.len() - at,
        {
            entries.push((self.entries[at].0.clone(), self.entries[at].1.clone()));
            at += 1;
        }
        assert(entry_views(entries@) =~= entry_views(self.entries@));
        FlagValues { entries }
    }
}

} // verus!
