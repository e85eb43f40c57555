use vstd::prelude::*;
use crate::text::same_text;

verus! {

/// Whether no two entries of `entries` have the same key.
pub open spec fn distinct_keys<V>(entries: Seq<(Seq<char>, V)>) -> bool {
    forall|i: int, j: int|
        0 <= i < entries.len() && 0 <= j < entries.len() && i != j ==> entries[i].0
            != entries[j].0
}

/// Whether some entry of `entries` has the key `key`.
pub open spec fn has_key<V>(entries: Seq<(Seq<char>, V)>, key: Seq<char>) -> bool {
    exists|i: int| 0 <= i < entries.len() && #[trigger] entries[i].0 == key
}

/// The map that `entries` stands for: each key with its value.
pub open spec fn entries_map<V>(entries: Seq<(Seq<char>, V)>) -> Map<Seq<char>, V>
    decreases entries.len(),
{
    if entries.len() == 0 {
        Map::empty()
    } else {
        entries_map(entries.drop_last()).insert(entries.last().0, entries.last().1)
    }
}

/// The keys of the map are the keys of the entries.
pub proof fn lemma_map_keys<V>(entries: Seq<(Seq<char>, V)>, key: Seq<char>)
    ensures
        entries_map(entries).contains_key(key) <==> has_key(entries, key),
    decreases entries.len(),
{
    if entries.len() > 0 {
        let rest = entries.drop_last();
        lemma_map_keys(rest, key);
        if has_key(rest, key) {
            let i = choose|i: int| 0 <= i < rest.len() && #[trigger] rest[i].0 == key;
            assert(entries[i].0 == key);
        }
        if has_key(entries, key) {
            let i = choose|i: int| 0 <= i < entries.len() && #[trigger] entries[i].0 == key;
            if i < rest.len() {
                assert(rest[i].0 == key);
            }
        }
        if entries.last().0 == key {
            assert(entries[entries.len() - 1].0 == key);
        }
    }
}

/// Where the keys are distinct, the map gives each entry's key its value.
pub proof fn lemma_map_value<V>(entries: Seq<(Seq<char>, V)>, i: int)
    requires
        distinct_keys(entries),
        0 <= i < entries.len(),
    ensures
        entries_map(entries).contains_key(entries[i].0),
        entries_map(entries)[entries[i].0] == entries[i].1,
    decreases entries.len(),
{
    let rest = entries.drop_last();
    if i < entries.len() - 1 {
        assert(distinct_keys(rest)) by {
            assert forall|a: int, b: int|
                0 <= a < rest.len() && 0 <= b < rest.len() && a != b implies rest[a].0
                != rest[b].0 by {
                assert(rest[a] == entries[a] && rest[b] == entries[b]);
            }
        }
        lemma_map_value(rest, i);
        assert(rest[i] == entries[i]);
        assert(entries[i].0 != entries[entries.len() - 1].0);
    }
}

/// One entry of a [`KeyedList`].
#[derive(Debug)]
pub struct Slot<V> {
    name: String,
    item: V,
}

/// An insertion-ordered map from text keys to values: a list of entries
/// of which no two have the same key.
#[derive(Debug)]
pub struct KeyedList<V> {
    slots: Vec<Slot<V>>,
}

impl<V> View for KeyedList<V> {
    type V = Map<Seq<char>, V>;

    /// The map from each key to its value.
    open spec fn view(&self) -> Map<Seq<char>, V> {
        entries_map(self.entries())
    }
}

impl<V> KeyedList<V> {
    /// The entries in the order in which their keys were first inserted.
    pub closed spec fn entries(self) -> Seq<(Seq<char>, V)> {
        Seq::new(self.slots@.len(), |i: int| (self.slots@[i].name@, self.slots@[i].item))
    }

    /// What holds of every list: no key occurs twice.
    #[verifier::type_invariant]
    pub open spec fn wf(self) -> bool {
        distinct_keys(self.entries())
    }

    /// The empty list.
    pub fn new() -> (r: Self)
        ensures
            r.entries() == Seq::<(Seq<char>, V)>::empty(),
            r@ == Map::<Seq<char>, V>::empty(),
    {
        let r = KeyedList { slots: Vec::new() };
        assert(r.entries() =~= Seq::<(Seq<char>, V)>::empty());
        r
    }

    /// The number of entries.
    pub fn len(&self) -> (n: usize)
        ensures
            n == self.entries().len(),
    {
        self.slots.len()
    }

    /// Whether there is no entry.
    pub fn is_empty(&self) -> (r: bool)
        ensures
            r == (self.entries().len() == 0),
    {
        self.slots.len() == 0
    }

    /// The key of the entry at `i`.
    pub fn key_at(&self, i: usize) -> (r: &String)
        requires
            i < self.entries().len(),
        ensures
            r@ == self.entries()[i as int].0,
    {
        &self.slots[i].name
    }

    /// The value of the entry at `i`.
    pub fn value_at(&self, i: usize) -> (r: &V)
        requires
            i < self.entries().len(),
        ensures
            *r == self.entries()[i as int].1,
    {
        &self.slots[i].item
    }

    /// The place of the entry with the key `key`, if there is one.
    pub fn position(&self, key: &str) -> (r: Option<usize>)
        ensures
            match r {
                Some(i) => i < self.entries().len() && self.entries()[i as int].0 == key@,
                None => !has_key(self.entries(), key@),
            },
            r is Some <==> self@.contains_key(key@),
    {
        let mut i: usize = 0;
        while i < self.slots.len()
            invariant
                i <= self.slots.len(),
                forall|j: int| 0 <= j < i ==> self.entries()[j].0 != key@,
            decreases self.slots.len() - i,
        {
            if same_text(self.slots[i].name.as_str(), key) {
                proof {
                    assert(self.entries()[i as int].0 == key@);
                    lemma_map_keys(self.entries(), key@);
                }
                return Some(i);
            }
            i += 1;
        }
        proof {
            lemma_map_keys(self.entries(), key@);
        }
        None
    }

    /// Whether there is an entry with the key `key`.
    pub fn contains_key(&self, key: &str) -> (r: bool)
        ensures
            r == self@.contains_key(key@),
    {
        self.position(key).is_some()
    }

    /// The value under `key`, if there is one.
    pub fn get(&self, key: &str) -> (r: Option<&V>)
        ensures
            match r {
                Some(v) => self@.contains_key(key@) && self@[key@] == *v,
                None => !self@.contains_key(key@),
            },
    {
        match self.position(key) {
            Some(i) => {
                proof {
                    use_type_invariant(self);
                    lemma_map_value(self.entries(), i as int);
                }
                Some(&self.slots[i].item)
            },
            None => None,
        }
    }

    /// Puts `value` in the place of the value at `i` and hands the former
    /// value back. The keys and their order stay.
    pub fn replace_at(&mut self, i: usize, value: V) -> (r: V)
        requires
            i < old(self).entries().len(),
        ensures
            final(self).entries() == old(self).entries().update(
                i as int,
                (old(self).entries()[i as int].0, value),
            ),
            final(self)@ == old(self)@.insert(old(self).entries()[i as int].0, value),
            r == old(self).entries()[i as int].1,
    {
        proof {
            use_type_invariant(&*self);
        }
        let ghost before = self.entries();
        let mut slots: Vec<Slot<V>> = Vec::new();
        core::mem::swap(&mut self.slots, &mut slots);
        let mut v = value;
        core::mem::swap(&mut slots[i].item, &mut v);
        let ghost after = Seq::new(slots@.len(), |k: int| (slots@[k].name@, slots@[k].item));
        proof {
            assert(after =~= before.update(i as int, (before[i as int].0, value)));
            lemma_update_keeps_distinct(before, i as int, value);
            lemma_map_update(before, i as int, value);
        }
        self.slots = slots;
        v
    }

    /// Adds an entry for a key that the list does not have.
    pub(crate) fn push_new(&mut self, key: String, value: V)
        requires
            !old(self)@.contains_key(key@),
        ensures
            final(self).entries() == old(self).entries().push((key@, value)),
            final(self)@ == old(self)@.insert(key@, value),
    {
        proof {
            use_type_invariant(&*self);
            lemma_map_keys(self.entries(), key@);
        }
        let ghost before = self.entries();
        let mut slots: Vec<Slot<V>> = Vec::new();
        core::mem::swap(&mut self.slots, &mut slots);
        slots.push(Slot { name: key, item: value });
        let ghost after = Seq::new(slots@.len(), |k: int| (slots@[k].name@, slots@[k].item));
        proof {
            assert(after =~= before.push((key@, value)));
            assert(after.drop_last() =~= before);
            assert(distinct_keys(after)) by {
                assert forall|a: int, b: int|
                    0 <= a < after.len() && 0 <= b < after.len() && a != b implies after[a].0
                    != after[b].0 by {
                    if a < before.len() && b < before.len() {
                        assert(after[a] == before[a] && after[b] == before[b]);
                    } else if a < before.len() {
                        assert(before[a].0 != key@);
                    } else {
                        assert(before[b].0 != key@);
                    }
                }
            }
        }
        self.slots = slots;
    }

    /// Puts `value` under `key`: in the place of the value that `key` had,
    /// which is handed back, or else in a new entry at the end.
    pub fn insert(&mut self, key: String, value: V) -> (r: Option<V>)
        ensures
            final(self)@ == old(self)@.insert(key@, value),
            match r {
                Some(v) => old(self)@.contains_key(key@) && old(self)@[key@] == v,
                None => !old(self)@.contains_key(key@),
            },
            old(self)@.contains_key(key@) ==> exists|i: int|
                0 <= i < old(self).entries().len() && old(self).entries()[i].0 == key@
                    && final(self).entries() == old(self).entries().update(i, (key@, value)),
            !old(self)@.contains_key(key@) ==> final(self).entries() == old(self).entries().push(
                (key@, value),
            ),
    {
        match self.position(key.as_str()) {
            Some(i) => {
                proof {
                    use_type_invariant(&*self);
                    lemma_map_value(self.entries(), i as int);
                }
                let former = self.replace_at(i, value);
                Some(former)
            },
            None => {
                self.push_new(key, value);
                None
            },
        }
    }

    /// Removes every entry.
    pub fn clear(&mut self)
        ensures
            final(self).entries() == Seq::<(Seq<char>, V)>::empty(),
            final(self)@ == Map::<Seq<char>, V>::empty(),
    {
        let slots: Vec<Slot<V>> = Vec::new();
        let ghost after = Seq::new(slots@.len(), |k: int| (slots@[k].name@, slots@[k].item));
        assert(after =~= Seq::<(Seq<char>, V)>::empty());
        self.slots = slots;
    }
}

/// A new value in an entry leaves the keys distinct.
proof fn lemma_update_keeps_distinct<V>(entries: Seq<(Seq<char>, V)>, i: int, value: V)
    requires
        distinct_keys(entries),
        0 <= i < entries.len(),
    ensures
        distinct_keys(entries.update(i, (entries[i].0, value))),
{
    let after = entries.update(i, (entries[i].0, value));
    assert forall|a: int, b: int|
        0 <= a < after.len() && 0 <= b < after.len() && a != b implies after[a].0
        != after[b].0 by {
        assert(after[a].0 == entries[a].0);
        assert(after[b].0 == entries[b].0);
    }
}

/// A new value in an entry is a new value under its key in the map.
pub proof fn lemma_map_update<V>(entries: Seq<(Seq<char>, V)>, i: int, value: V)
    requires
        distinct_keys(entries),
        0 <= i < entries.len(),
    ensures
        entries_map(entries.update(i, (entries[i].0, value))) == entries_map(entries).insert(
            entries[i].0,
            value,
        ),
    decreases entries.len(),
{
    let after = entries.update(i, (entries[i].0, value));
    let rest = entries.drop_last();
    let last = entries.len() - 1;
    if i == last {
        assert(after.drop_last() =~= rest);
        assert(entries_map(after) =~= entries_map(entries).insert(entries[i].0, value));
    } else {
        assert(distinct_keys(rest)) by {
            assert forall|a: int, b: int|
                0 <= a < rest.len() && 0 <= b < rest.len() && a != b implies rest[a].0
                != rest[b].0 by {
                assert(rest[a] == entries[a] && rest[b] == entries[b]);
            }
        }
        lemma_map_update(rest, i, value);
        assert(rest[i] == entries[i]);
        assert(after.drop_last() =~= rest.update(i, (entries[i].0, value)));
        assert(after.last() == entries.last());
        assert(entries[i].0 != entries[last].0);
        assert(entries_map(after) =~= entries_map(entries).insert(entries[i].0, value));
    }
}

} // verus!
