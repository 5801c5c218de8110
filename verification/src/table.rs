//! Maps from texts to values.

use crate::model::Duplicate;
use crate::text::same_text;
use vstd::prelude::*;

verus! {

/// A map from texts to values. No key occurs twice.
#[derive(Debug)]
pub struct TextMap<V> {
    entries: Vec<(String, V)>,
}

/// No two entries have the same key.
pub open spec fn keys_differ<V>(entries: Seq<(String, V)>) -> bool {
    forall|i: int, j: int|
        0 <= i < j < entries.len() ==> (#[trigger] entries[i]).0@ != (#[trigger] entries[j]).0@
}

/// The map that the entries make, a later entry in place of an earlier one.
pub open spec fn entries_map<V: View>(entries: Seq<(String, V)>) -> Map<Seq<char>, V::V>
    decreases entries.len(),
{
    if entries.len() == 0 {
        Map::empty()
    } else {
        entries_map(entries.drop_last()).insert(entries.last().0@, entries.last().1@)
    }
}

/// The keys of the map are those of the entries.
proof fn lemma_keys<V: View>(entries: Seq<(String, V)>, key: Seq<char>)
    ensures
        entries_map(entries).contains_key(key) <==> exists|i: int|
            0 <= i < entries.len() && (#[trigger] entries[i]).0@ == key,
    decreases entries.len(),
{
    if entries.len() > 0 {
        let rest = entries.drop_last();
        lemma_keys(rest, key);
        if exists|i: int| 0 <= i < rest.len() && (#[trigger] rest[i]).0@ == key {
            let i = choose|i: int| 0 <= i < rest.len() && (#[trigger] rest[i]).0@ == key;
            assert(entries[i].0@ == key);
        }
        if exists|i: int| 0 <= i < entries.len() && (#[trigger] entries[i]).0@ == key {
            let i = choose|i: int| 0 <= i < entries.len() && (#[trigger] entries[i]).0@ == key;
            if i < rest.len() {
                assert(rest[i].0@ == key);
            }
        }
    }
}

/// Each entry's value stands in the map under its key.
proof fn lemma_value<V: View>(entries: Seq<(String, V)>, i: int)
    requires
        keys_differ(entries),
        0 <= i < entries.len(),
    ensures
        entries_map(entries).contains_key(entries[i].0@),
        entries_map(entries)[entries[i].0@] == entries[i].1@,
    decreases entries.len(),
{
    let rest = entries.drop_last();
    if i < rest.len() {
        assert(keys_differ(rest)) by {
            assert forall|a: int, b: int| 0 <= a < b < rest.len() implies (
            #[trigger] rest[a]).0@ != (#[trigger] rest[b]).0@ by {
                assert(entries[a].0@ != entries[b].0@);
            }
        }
        lemma_value(rest, i);
        assert(rest[i] == entries[i]);
        assert(entries[i].0@ != entries[entries.len() - 1].0@);
    }
}

/// Another value in an entry is another value under its key.
proof fn lemma_update<V: View>(entries: Seq<(String, V)>, i: int, value: V)
    requires
        keys_differ(entries),
        0 <= i < entries.len(),
    ensures
        keys_differ(entries.update(i, (entries[i].0, value))),
        entries_map(entries.update(i, (entries[i].0, value))) == entries_map(entries).insert(
            entries[i].0@,
            value@,
        ),
{
    let next = entries.update(i, (entries[i].0, value));
    assert forall|a: int, b: int| 0 <= a < b < next.len() implies (#[trigger] next[a]).0@ != (
    #[trigger] next[b]).0@ by {
        assert(entries[a].0@ != entries[b].0@);
    }
    assert forall|key: Seq<char>|
        #![trigger entries_map(next).contains_key(key)]
        entries_map(next).contains_key(key) <==> entries_map(entries).insert(
            entries[i].0@,
            value@,
        ).contains_key(key) by {
        lemma_keys(next, key);
        lemma_keys(entries, key);
        if entries_map(next).contains_key(key) {
            let j = choose|j: int| 0 <= j < next.len() && (#[trigger] next[j]).0@ == key;
            assert(entries[j].0@ == key);
        }
        if entries_map(entries).contains_key(key) {
            let j = choose|j: int| 0 <= j < entries.len() && (#[trigger] entries[j]).0@ == key;
            assert(next[j].0@ == key);
        }
        if key == entries[i].0@ {
            assert(next[i].0@ == key);
        }
    }
    assert forall|key: Seq<char>|
        #![trigger entries_map(next)[key]]
        entries_map(next).contains_key(key) implies entries_map(next)[key] == entries_map(
        entries,
    ).insert(entries[i].0@, value@)[key] by {
        lemma_keys(next, key);
        let j = choose|j: int| 0 <= j < next.len() && (#[trigger] next[j]).0@ == key;
        lemma_value(next, j);
        lemma_value(entries, j);
        if j != i {
            if j < i {
                assert(entries[j].0@ != entries[i].0@);
            } else {
                assert(entries[i].0@ != entries[j].0@);
            }
        }
    }
    assert(entries_map(next) =~= entries_map(entries).insert(entries[i].0@, value@));
}

/// The key of an entry is not among those of the entries before it.
pub proof fn lemma_new_key<V: View>(entries: Seq<(String, V)>, i: int)
    requires
        keys_differ(entries),
        0 <= i < entries.len(),
    ensures
        !entries_map(entries.take(i)).contains_key(entries[i].0@),
{
    lemma_keys(entries.take(i), entries[i].0@);
    if entries_map(entries.take(i)).contains_key(entries[i].0@) {
        let j = choose|j: int|
            0 <= j < i && (#[trigger] entries.take(i)[j]).0@ == entries[i].0@;
        assert(entries[j].0@ != entries[i].0@);
    }
}

impl<V: View> View for TextMap<V> {
    type V = Map<Seq<char>, V::V>;

    closed spec fn view(&self) -> Map<Seq<char>, V::V> {
        entries_map(self.entries@)
    }
}

impl<V> TextMap<V> {
    #[verifier::type_invariant]
    spec fn well_formed(self) -> bool {
        keys_differ(self.entries@)
    }
}

impl<V: View> TextMap<V> {
    /// The empty map.
    pub fn new() -> (r: TextMap<V>)
        ensures
            r@ == Map::<Seq<char>, V::V>::empty(),
    {
        TextMap { entries: Vec::new() }
    }

    /// The index of the entry with the key, or the number of entries.
    fn position(&self, key: &str) -> (r: usize)
        ensures
            r <= self.entries@.len(),
            r < self.entries@.len() ==> self.entries@[r as int].0@ == key@,
            r == self.entries@.len() ==> forall|i: int|
                0 <= i < self.entries@.len() ==> (#[trigger] self.entries@[i]).0@ != key@,
    {
        let mut i: usize = 0;
        while i < self.entries.len()
            invariant
                i <= self.entries@.len(),
                forall|j: int| 0 <= j < i ==> (#[trigger] self.entries@[j]).0@ != key@,
            decreases self.entries@.len() - i,
        {
            if same_text(&self.entries[i].0, key) {
                return i;
            }
            i += 1;
        }
        i
    }

    /// The value under the key.
    pub fn get(&self, key: &str) -> (r: Option<&V>)
        ensures
            r is Some <==> self@.contains_key(key@),
            r matches Some(value) ==> value@ == self@[key@],
    {
        proof {
            use_type_invariant(self);
            lemma_keys(self.entries@, key@);
        }
        let i = self.position(key);
        if i < self.entries.len() {
            proof {
                lemma_value(self.entries@, i as int);
            }
            Some(&self.entries[i].1)
        } else {
            None
        }
    }

    /// Puts the value under the key.
    pub fn insert(&mut self, key: String, value: V)
        ensures
            final(self)@ == old(self)@.insert(key@, value@),
    {
        proof {
            use_type_invariant(&*self);
        }
        let i = self.position(&key);
        let mut entries: Vec<(String, V)> = Vec::new();
        std::mem::swap(&mut entries, &mut self.entries);
        let ghost before = entries@;
        if i < entries.len() {
            proof {
                lemma_update(before, i as int, value);
                assert(before[i as int].0@ == key@);
                lemma_same_keys(before, i as int, (key, value));
            }
            entries.set(i, (key, value));
        } else {
            entries.push((key, value));
            proof {
                assert(entries@.drop_last() =~= before);
                assert(keys_differ(entries@)) by {
                    assert forall|a: int, b: int| 0 <= a < b < entries@.len() implies (
                    #[trigger] entries@[a]).0@ != (#[trigger] entries@[b]).0@ by {
                        if b < before.len() {
                            assert(before[a].0@ != before[b].0@);
                        } else {
                            assert(before[a].0@ != key@);
                        }
                    }
                }
            }
        }
        self.entries = entries;
    }

    /// The map without its cover: the entries, none of them with the key of another.
    pub fn into_entries(self) -> (r: Vec<(String, V)>)
        ensures
            keys_differ(r@),
            entries_map(r@) == self@,
    {
        proof {
            use_type_invariant(&self);
        }
        self.entries
    }

    /// Puts every value of `other` under its key.
    pub fn extend(&mut self, other: TextMap<V>)
        ensures
            final(self)@ == old(self)@.union_prefer_right(other@),
    {
        let ghost start = self@;
        let entries = other.into_entries();
        let ghost all = entries@;
        for entry in it: entries
            invariant
                it.seq() == all,
                self@ == start.union_prefer_right(entries_map(all.take(it.index() as int))),
        {
            let ghost i = it.index() as int;
            assert(all.take(i + 1).drop_last() =~= all.take(i));
            let ghost before = self@;
            let (key, value) = entry;
            self.insert(key, value);
            assert(self@ =~= start.union_prefer_right(entries_map(all.take(i + 1))));
        }
        assert(all.take(all.len() as int) =~= all);
    }
}

/// The text of a key, not the string that holds it, decides what the map is.
proof fn lemma_same_keys<V: View>(entries: Seq<(String, V)>, i: int, entry: (String, V))
    requires
        keys_differ(entries),
        0 <= i < entries.len(),
        entries[i].0@ == entry.0@,
    ensures
        keys_differ(entries.update(i, entry)),
        entries_map(entries.update(i, entry)) == entries_map(
            entries.update(i, (entries[i].0, entry.1)),
        ),
{
    let next = entries.update(i, entry);
    assert forall|a: int, b: int| 0 <= a < b < next.len() implies (#[trigger] next[a]).0@ != (
    #[trigger] next[b]).0@ by {
        assert(entries[a].0@ != entries[b].0@);
    }
    lemma_same_texts(next, entries.update(i, (entries[i].0, entry.1)));
}

/// Entries with the same keys and values make the same map.
proof fn lemma_same_texts<V: View>(a: Seq<(String, V)>, b: Seq<(String, V)>)
    requires
        a.len() == b.len(),
        forall|i: int|
            0 <= i < a.len() ==> (#[trigger] a[i]).0@ == b[i].0@ && a[i].1@ == b[i].1@,
    ensures
        entries_map(a) == entries_map(b),
    decreases a.len(),
{
    if a.len() > 0 {
        assert forall|i: int| 0 <= i < a.drop_last().len() implies (
        #[trigger] a.drop_last()[i]).0@ == b.drop_last()[i].0@ && a.drop_last()[i].1@
            == b.drop_last()[i].1@ by {
            assert(a[i].0@ == b[i].0@);
        }
        lemma_same_texts(a.drop_last(), b.drop_last());
        assert(a[a.len() - 1].0@ == b[a.len() - 1].0@);
    }
}

impl<V: Duplicate> Duplicate for TextMap<V> {
    fn duplicate(&self) -> (r: TextMap<V>) {
        proof {
            use_type_invariant(self);
        }
        let mut entries: Vec<(String, V)> = Vec::new();
        let mut i: usize = 0;
        while i < self.entries.len()
            invariant
                i <= self.entries@.len(),
                entries@.len() == i,
                forall|j: int|
                    0 <= j < i ==> (#[trigger] entries@[j]).0@ == self.entries@[j].0@
                        && entries@[j].1@ == self.entries@[j].1@,
            decreases self.entries@.len() - i,
        {
            entries.push((self.entries[i].0.clone(), self.entries[i].1.duplicate()));
            i += 1;
        }
        proof {
            lemma_same_texts(entries@, self.entries@);
            assert(keys_differ(entries@)) by {
                assert forall|a: int, b: int| 0 <= a < b < entries@.len() implies (
                #[trigger] entries@[a]).0@ != (#[trigger] entries@[b]).0@ by {
                    assert(self.entries@[a].0@ != self.entries@[b].0@);
                }
            }
        }
        TextMap { entries }
    }
}

} // verus!
