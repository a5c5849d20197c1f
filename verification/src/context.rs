//! The context that travels with an image through the pipeline.

use crate::binary32::Binary32;
use vstd::prelude::*;

verus! {

/// A value that a step has computed.
#[derive(Clone, Copy, Debug)]
pub enum ComputedValue {
    Float(Binary32),
}

/// A computed value under its key.
#[derive(Debug)]
pub struct ComputedEntry {
    pub key: String,
    pub value: ComputedValue,
}

/// Computed values by their keys.
#[derive(Debug)]
pub struct ComputedValues {
    pub entries: Vec<ComputedEntry>,
}

/// The values that entries hold; of several entries with one key the last counts.
pub open spec fn values_of(entries: Seq<ComputedEntry>) -> Map<Seq<char>, ComputedValue>
    decreases entries.len(),
{
    if entries.len() == 0 {
        Map::empty()
    } else {
        values_of(entries.drop_last()).insert(entries.last().key@, entries.last().value)
    }
}

impl View for ComputedValues {
    type V = Map<Seq<char>, ComputedValue>;

    open spec fn view(&self) -> Map<Seq<char>, ComputedValue> {
        values_of(self.entries@)
    }
}

/// What the last entry with a key holds is the value of the key.
proof fn lemma_last_entry(entries: Seq<ComputedEntry>, i: int)
    requires
        0 <= i < entries.len(),
        forall|j: int| i < j < entries.len() ==> (#[trigger] entries[j]).key@ != entries[i].key@,
    ensures
        values_of(entries).contains_key(entries[i].key@),
        values_of(entries)[entries[i].key@] == entries[i].value,
    decreases entries.len(),
{
    if i < entries.len() - 1 {
        assert(entries[entries.len() - 1].key@ != entries[i].key@);
        assert forall|j: int| i < j < entries.drop_last().len() implies (
        #[trigger] entries.drop_last()[j]).key@ != entries[i].key@ by {
            assert(entries[j].key@ != entries[i].key@);
        }
        lemma_last_entry(entries.drop_last(), i);
    }
}

/// A key that no entry has is without a value.
proof fn lemma_no_entry(entries: Seq<ComputedEntry>, key: Seq<char>)
    requires
        forall|j: int| 0 <= j < entries.len() ==> (#[trigger] entries[j]).key@ != key,
    ensures
        !values_of(entries).contains_key(key),
    decreases entries.len(),
{
    if entries.len() > 0 {
        assert(entries[entries.len() - 1].key@ != key);
        assert forall|j: int| 0 <= j < entries.drop_last().len() implies (
        #[trigger] entries.drop_last()[j]).key@ != key by {
            assert(entries[j].key@ != key);
        }
        lemma_no_entry(entries.drop_last(), key);
    }
}

/// Replacing the last entry with a key gives the key the new value.
proof fn lemma_replace(entries: Seq<ComputedEntry>, i: int, entry: ComputedEntry)
    requires
        0 <= i < entries.len(),
        entry.key@ == entries[i].key@,
        forall|j: int| i < j < entries.len() ==> (#[trigger] entries[j]).key@ != entry.key@,
    ensures
        values_of(entries.update(i, entry)) == values_of(entries).insert(entry.key@, entry.value),
    decreases entries.len(),
{
    let replaced = entries.update(i, entry);
    let (front, last) = (entries.drop_last(), entries.last());
    if i == entries.len() - 1 {
        assert(replaced.drop_last() =~= front);
        assert(values_of(replaced) =~= values_of(entries).insert(entry.key@, entry.value));
    } else {
        assert(entries[entries.len() - 1].key@ != entry.key@);
        assert(replaced.drop_last() =~= front.update(i, entry));
        assert forall|j: int| i < j < front.len() implies (#[trigger] front[j]).key@
            != entry.key@ by {
            assert(entries[j].key@ != entry.key@);
        }
        lemma_replace(front, i, entry);
        assert(values_of(replaced) =~= values_of(entries).insert(entry.key@, entry.value));
    }
}

impl ComputedValues {
    pub fn new() -> (values: ComputedValues)
        ensures
            values@ == Map::<Seq<char>, ComputedValue>::empty(),
    {
        ComputedValues { entries: Vec::new() }
    }

    /// The index after the last entry with a key; zero where there is none.
    fn find(&self, key: &String) -> (end: usize)
        ensures
            end <= self.entries@.len(),
            end > 0 ==> self.entries@[end - 1].key@ == key@,
            forall|j: int| end <= j < self.entries@.len() ==> (#[trigger] self.entries@[j]).key@
                != key@,
    {
        let mut end: usize = self.entries.len();
        while end > 0 && self.entries[end - 1].key != *key
            invariant
                end <= self.entries@.len(),
                forall|j: int|
                    end <= j < self.entries@.len() ==> (#[trigger] self.entries@[j]).key@ != key@,
            decreases end,
        {
            end = end - 1;
        }
        end
    }

    /// Stores a value under a key, in place of the value that was there.
    pub fn set(&mut self, key: &str, value: ComputedValue)
        ensures
            final(self)@ == old(self)@.insert(key@, value),
    {
        let entry = ComputedEntry { key: key.to_owned(), value };
        let end: usize = self.find(&entry.key);
        if end > 0 {
            proof {
                lemma_replace(self.entries@, end - 1, entry);
            }
            self.entries.set(end - 1, entry);
        } else {
            proof {
                assert(self.entries@.push(entry).drop_last() =~= self.entries@);
            }
            self.entries.push(entry);
        }
    }

    /// The value under a key.
    pub fn get(&self, key: &str) -> (value: Option<ComputedValue>)
        ensures
            value == if self@.contains_key(key@) {
                Some(self@[key@])
            } else {
                None
            },
    {
        let end: usize = self.find(&key.to_owned());
        if end > 0 {
            proof {
                lemma_last_entry(self.entries@, end - 1);
            }
            Some(self.entries[end - 1].value)
        } else {
            proof {
                lemma_no_entry(self.entries@, key@);
            }
            None
        }
    }
}

/// What travels with an image: the values that steps have computed, and whatever else the
/// pipeline carries along.
#[derive(Debug)]
pub struct PipelineContext<C> {
    pub carried: C,
    pub computed: ComputedValues,
}

/// One more entry gives its key its value and leaves the other keys alone; no entries hold
/// nothing.
pub proof fn entries_are_stored_in_turn(
    entries: Seq<ComputedEntry>,
    entry: ComputedEntry,
    key: Seq<char>,
)
    ensures
        values_of(Seq::empty()) == Map::<Seq<char>, ComputedValue>::empty(),
        values_of(entries.push(entry)).contains_key(entry.key@),
        values_of(entries.push(entry))[entry.key@] == entry.value,
        key != entry.key@ ==> (values_of(entries.push(entry)).contains_key(key) <==> values_of(
            entries,
        ).contains_key(key)),
        key != entry.key@ ==> values_of(entries.push(entry))[key] == values_of(entries)[key],
{
    assert(entries.push(entry).drop_last() =~= entries);
}

} // verus!
