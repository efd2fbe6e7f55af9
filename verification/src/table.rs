//! Tables of what is known about places in the code.
use crate::span::{CodeSpan, Sp};
use vstd::prelude::*;

verus! {

/// Something that can be copied.
pub trait Entry: Sized {
    /// A copy.
    fn copied(&self) -> (res: Self)
        ensures
            res == *self,
    ;
}

/// Something that a table can be read by.
pub trait Key: Entry {
    type Id;

    /// What tells keys apart.
    spec fn id(&self) -> Self::Id;

    /// Whether two keys are the same.
    fn same_key(&self, other: &Self) -> (res: bool)
        ensures
            res == (self.id() == other.id()),
    ;
}

/// A text that a macro expanded to, with the name of the macro.
#[derive(Debug, PartialEq, Eq)]
pub struct Expansion {
    pub name: String,
    pub text: String,
}

impl Entry for CodeSpan {
    fn copied(&self) -> (res: Self) {
        self.clone()
    }
}

impl Key for CodeSpan {
    type Id = CodeSpan;

    open spec fn id(&self) -> CodeSpan {
        *self
    }

    fn same_key(&self, other: &Self) -> (res: bool) {
        self.same(other)
    }
}

impl Entry for Sp<String> {
    fn copied(&self) -> (res: Self) {
        self.clone()
    }
}

impl Key for Sp<String> {
    type Id = (Seq<char>, CodeSpan);

    open spec fn id(&self) -> (Seq<char>, CodeSpan) {
        (self.value@, self.span)
    }

    fn same_key(&self, other: &Self) -> (res: bool) {
        self.value == other.value && self.span.same(&other.span)
    }
}

impl Entry for usize {
    fn copied(&self) -> (res: Self) {
        *self
    }
}

impl Entry for Expansion {
    fn copied(&self) -> (res: Self) {
        Expansion { name: self.name.clone(), text: self.text.clone() }
    }
}

/// A table that holds one value for each key in it.
#[derive(Debug, PartialEq, Eq)]
pub struct Table<K, V> {
    entries: Vec<(K, V)>,
}

/// What a list of entries maps keys to; a later entry counts over an earlier one.
spec fn entries_map<K: Key, V>(entries: Seq<(K, V)>) -> Map<K::Id, V>
    decreases entries.len(),
{
    if entries.len() == 0 {
        Map::empty()
    } else {
        entries_map(entries.drop_last()).insert(entries.last().0.id(), entries.last().1)
    }
}

impl<K: Key, V> View for Table<K, V> {
    type V = Map<K::Id, V>;

    closed spec fn view(&self) -> Map<K::Id, V> {
        entries_map(self.entries@)
    }
}

/// Changing the last entry of a key changes what the key is mapped to.
proof fn lemma_entry_changed<K: Key, V>(entries: Seq<(K, V)>, i: int, key: K, value: V)
    requires
        0 <= i < entries.len(),
        entries[i].0.id() == key.id(),
        forall|j: int| i < j < entries.len() ==> (#[trigger] entries[j]).0.id() != key.id(),
    ensures
        entries_map(entries.update(i, (key, value))) == entries_map(entries).insert(
            key.id(),
            value,
        ),
    decreases entries.len(),
{
    let changed = entries.update(i, (key, value));
    if i == entries.len() - 1 {
        assert(changed.drop_last() =~= entries.drop_last());
        assert(entries_map(changed) =~= entries_map(entries).insert(key.id(), value));
    } else {
        assert(changed.drop_last() =~= entries.drop_last().update(i, (key, value)));
        lemma_entry_changed(entries.drop_last(), i, key, value);
        assert(changed.last() == entries.last());
        assert(entries.last().0.id() != key.id());
        assert(entries_map(changed) =~= entries_map(entries).insert(key.id(), value));
    }
}

/// A key that no entry has is not mapped.
proof fn lemma_absent<K: Key, V>(entries: Seq<(K, V)>, id: K::Id)
    requires
        forall|j: int| 0 <= j < entries.len() ==> (#[trigger] entries[j]).0.id() != id,
    ensures
        !entries_map(entries).dom().contains(id),
    decreases entries.len(),
{
    if entries.len() > 0 {
        lemma_absent(entries.drop_last(), id);
        assert(entries.last().0.id() != id);
    }
}

/// A key is mapped to what its last entry says.
proof fn lemma_present<K: Key, V>(entries: Seq<(K, V)>, i: int, id: K::Id)
    requires
        0 <= i < entries.len(),
        entries[i].0.id() == id,
        forall|j: int| i < j < entries.len() ==> (#[trigger] entries[j]).0.id() != id,
    ensures
        entries_map(entries).dom().contains(id),
        entries_map(entries)[id] == entries[i].1,
    decreases entries.len(),
{
    if i < entries.len() - 1 {
        assert(entries.last().0.id() != id);
        lemma_present(entries.drop_last(), i, id);
    }
}

impl<K: Key, V> Table<K, V> {
    /// A table with nothing in it.
    pub fn new() -> (res: Self)
        ensures
            res@ == Map::<K::Id, V>::empty(),
    {
        Table { entries: Vec::new() }
    }

    /// The number of the last entry of a key.
    fn find(&self, key: &K) -> (res: Option<usize>)
        ensures
            match res {
                Some(i) => i < self.entries@.len() && self.entries@[i as int].0.id() == key.id()
                    && forall|j: int|
                    i < j < self.entries@.len() ==> (#[trigger] self.entries@[j]).0.id()
                        != key.id(),
                None => forall|j: int|
                    0 <= j < self.entries@.len() ==> (#[trigger] self.entries@[j]).0.id()
                        != key.id(),
            },
    {
        let mut i: usize = self.entries.len();
        while i > 0
            invariant
                i <= self.entries@.len(),
                forall|j: int|
                    i <= j < self.entries@.len() ==> (#[trigger] self.entries@[j]).0.id()
                        != key.id(),
            decreases i,
        {
            i = i - 1;
            if self.entries[i].0.same_key(key) {
                return Some(i);
            }
        }
        None
    }

    /// Puts a value in for a key, in place of the one that was there.
    pub fn insert(&mut self, key: K, value: V)
        ensures
            final(self)@ == old(self)@.insert(key.id(), value),
    {
        match self.find(&key) {
            Some(i) => {
                proof {
                    lemma_entry_changed(self.entries@, i as int, key, value);
                }
                self.entries.set(i, (key, value));
            },
            None => {
                let ghost before = self.entries@;
                self.entries.push((key, value));
                assert(self.entries@.drop_last() =~= before);
            },
        }
    }

    /// The value for a key.
    pub fn get(&self, key: &K) -> (res: Option<&V>)
        ensures
            res == (if self@.dom().contains(key.id()) {
                Some(&self@[key.id()])
            } else {
                None
            }),
    {
        match self.find(key) {
            Some(i) => {
                proof {
                    lemma_present(self.entries@, i as int, key.id());
                }
                Some(&self.entries[i].1)
            },
            None => {
                proof {
                    lemma_absent(self.entries@, key.id());
                }
                None
            },
        }
    }
}

impl<K: Key, V: Entry> Table<K, V> {
    /// A copy of the table.
    pub fn copied(&self) -> (res: Self)
        ensures
            res@ == self@,
    {
        let mut entries: Vec<(K, V)> = Vec::new();
        for i in 0..self.entries.len()
            invariant
                entries@ == self.entries@.take(i as int),
        {
            entries.push((self.entries[i].0.copied(), self.entries[i].1.copied()));
            assert(entries@ =~= self.entries@.take(i + 1));
        }
        assert(entries@ =~= self.entries@);
        Table { entries }
    }
}

/// Keys are told apart by everything about them: a place by the whole of it, and a name at a place
/// by its text and its place.
pub proof fn law_keys_told_apart(a: CodeSpan, b: CodeSpan, c: Sp<String>, d: Sp<String>)
    ensures
        a.id() == b.id() <==> a == b,
        c.id() == d.id() <==> c.value@ == d.value@ && c.span == d.span,
{
}

} // verus!
