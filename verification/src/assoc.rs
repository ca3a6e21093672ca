//! A map kept as a list of its entries, in the order in which keys first came in.
//!
//! Keys are compared by their views, so that ids and paths can be keys: vstd specifies the maps
//! of the standard library for primitive keys only. A lookup goes through the list.

use vstd::prelude::*;

verus! {

/// A key of an [`AssocMap`]: two keys are the same key if their views are equal.
pub trait MapKey: View + Sized {
    /// Whether the two keys are the same key.
    fn same(&self, other: &Self) -> (res: bool)
        ensures
            res == (self@ == other@),
    ;
}

/// The map that a list of entries stands for; of two entries with one key the later
/// one counts.
pub open spec fn entries_map<K: View, V>(entries: Seq<(K, V)>) -> Map<K::V, V>
    decreases entries.len(),
{
    if entries.len() == 0 {
        Map::empty()
    } else {
        entries_map(entries.drop_last()).insert(entries.last().0@, entries.last().1)
    }
}

/// Whether no key occurs twice in a list of entries.
pub open spec fn keys_distinct<K: View, V>(entries: Seq<(K, V)>) -> bool {
    forall|i: int, j: int|
        0 <= i < j < entries.len() ==> (#[trigger] entries[i]).0@ != (#[trigger] entries[j]).0@
}

/// Whether some entry has the key `key`.
pub open spec fn has_key<K: View, V>(entries: Seq<(K, V)>, key: K::V) -> bool {
    exists|i: int| 0 <= i < entries.len() && (#[trigger] entries[i]).0@ == key
}

/// The keys of [`entries_map`] are the keys that occur in the list.
pub proof fn lemma_entries_map_keys<K: View, V>(entries: Seq<(K, V)>, key: K::V)
    ensures
        entries_map(entries).contains_key(key) <==> has_key(entries, key),
    decreases entries.len(),
{
    if entries.len() > 0 {
        let front = entries.drop_last();
        lemma_entries_map_keys(front, key);
        if has_key(front, key) {
            let i = choose|i: int| 0 <= i < front.len() && (#[trigger] front[i]).0@ == key;
            assert(entries[i].0@ == key);
        }
        if has_key(entries, key) {
            let i = choose|i: int| 0 <= i < entries.len() && (#[trigger] entries[i]).0@ == key;
            if i < front.len() {
                assert(front[i].0@ == key);
            }
        }
    }
}

/// Where no key occurs twice, each entry is what the map holds under its key.
pub proof fn lemma_entries_map_values<K: View, V>(entries: Seq<(K, V)>, i: int)
    requires
        keys_distinct(entries),
        0 <= i < entries.len(),
    ensures
        entries_map(entries).contains_key(entries[i].0@),
        entries_map(entries)[entries[i].0@] == entries[i].1,
    decreases entries.len(),
{
    let front = entries.drop_last();
    if i < front.len() {
        assert(keys_distinct(front));
        lemma_entries_map_values(front, i);
        assert(front[i] == entries[i]);
    }
}

/// Replacing the value of one entry sets that key in the map.
proof fn lemma_entries_map_update<K: View, V>(entries: Seq<(K, V)>, i: int, key: K, value: V)
    requires
        keys_distinct(entries),
        0 <= i < entries.len(),
        key@ == entries[i].0@,
    ensures
        keys_distinct(entries.update(i, (key, value))),
        entries_map(entries.update(i, (key, value))) == entries_map(entries).insert(key@, value),
{
    let after = entries.update(i, (key, value));
    assert(keys_distinct(after));
    let left = entries_map(after);
    let right = entries_map(entries).insert(key@, value);
    assert forall|k: K::V| left.contains_key(k) <==> right.contains_key(k) by {
        lemma_entries_map_keys(after, k);
        lemma_entries_map_keys(entries, k);
        if has_key(after, k) {
            let j = choose|j: int| 0 <= j < after.len() && (#[trigger] after[j]).0@ == k;
            assert(entries[j].0@ == k);
        }
        if has_key(entries, k) {
            let j = choose|j: int| 0 <= j < entries.len() && (#[trigger] entries[j]).0@ == k;
            assert(after[j].0@ == k);
        }
        if k == key@ {
            assert(after[i].0@ == k);
        }
    }
    assert forall|k: K::V| left.contains_key(k) implies left[k] == right[k] by {
        lemma_entries_map_keys(after, k);
        let j = choose|j: int| 0 <= j < after.len() && (#[trigger] after[j]).0@ == k;
        lemma_entries_map_values(after, j);
        lemma_entries_map_values(entries, j);
    }
    assert(left =~= right);
}

/// Where no key occurs twice, the map has as many keys as the list has entries.
pub proof fn lemma_entries_map_len<K: View, V>(entries: Seq<(K, V)>)
    requires
        keys_distinct(entries),
    ensures
        entries_map(entries).dom().finite(),
        entries_map(entries).len() == entries.len(),
    decreases entries.len(),
{
    if entries.len() > 0 {
        let front = entries.drop_last();
        assert(keys_distinct(front));
        lemma_entries_map_len(front);
        lemma_entries_map_keys(front, entries.last().0@);
        if has_key(front, entries.last().0@) {
            let i = choose|i: int|
                0 <= i < front.len() && (#[trigger] front[i]).0@ == entries.last().0@;
            assert(entries[i].0@ == entries[entries.len() - 1].0@);
        }
    }
}

/// A map from keys to values.
pub struct AssocMap<K: MapKey, V> {
    entries: Vec<(K, V)>,
}

impl<K: MapKey, V> View for AssocMap<K, V> {
    type V = Map<K::V, V>;

    open spec fn view(&self) -> Map<K::V, V> {
        entries_map(self.list())
    }
}

impl<K: MapKey, V> AssocMap<K, V> {
    #[verifier::type_invariant]
    spec fn wf(self) -> bool {
        keys_distinct(self.entries@)
    }

    /// The entries, in the order in which their keys first came in.
    pub closed spec fn list(&self) -> Seq<(K, V)> {
        self.entries@
    }

    /// A map without entries.
    pub fn new() -> (map: Self)
        ensures
            map.list() == Seq::<(K, V)>::empty(),
            map@ == Map::<K::V, V>::empty(),
    {
        AssocMap { entries: Vec::new() }
    }

    /// The number of entries.
    pub fn len(&self) -> (res: usize)
        ensures
            res == self.list().len(),
            res == self@.len(),
    {
        proof {
            use_type_invariant(self);
            lemma_entries_map_len(self.list());
        }
        self.entries.len()
    }

    /// The place of `key` in the list of entries, if it is there.
    fn position(&self, key: &K) -> (res: Option<usize>)
        ensures
            match res {
                Some(i) => i < self.list().len() && self.list()[i as int].0@ == key@,
                None => !has_key(self.list(), key@),
            },
    {
        let mut i: usize = 0;
        while i < self.entries.len()
            invariant
                i <= self.entries@.len(),
                forall|j: int| 0 <= j < i ==> (#[trigger] self.entries@[j]).0@ != key@,
            decreases self.entries@.len() - i,
        {
            if self.entries[i].0.same(key) {
                return Some(i);
            }
            i = i + 1;
        }
        None
    }

    /// What the map holds under `key`.
    pub fn get(&self, key: &K) -> (res: Option<&V>)
        ensures
            match res {
                Some(value) => self@.contains_key(key@) && *value == self@[key@],
                None => !self@.contains_key(key@),
            },
    {
        proof {
            use_type_invariant(self);
            lemma_entries_map_keys(self.list(), key@);
        }
        match self.position(key) {
            Some(i) => {
                proof {
                    lemma_entries_map_values(self.list(), i as int);
                }
                Some(&self.entries[i].1)
            },
            None => None,
        }
    }

    /// Sets what the map holds under `key`. A key that was there keeps its place in the
    /// list of entries; a new one goes to its end.
    pub fn insert(&mut self, key: K, value: V)
        ensures
            final(self)@ == old(self)@.insert(key@, value),
            has_key(old(self).list(), key@) ==> final(self).list().len() == old(self).list().len(),
            !has_key(old(self).list(), key@) ==> final(self).list() == old(self).list().push(
                (key, value),
            ),
            forall|i: int|
                0 <= i < old(self).list().len() && (#[trigger] old(self).list()[i]).0@ != key@
                    ==> final(self).list()[i] == old(self).list()[i],
    {
        proof {
            use_type_invariant(&*self);
        }
        let found: Option<usize> = self.position(&key);
        let mut entries: Vec<(K, V)> = Vec::new();
        std::mem::swap(&mut entries, &mut self.entries);
        match found {
            Some(i) => {
                proof {
                    lemma_entries_map_update(entries@, i as int, key, value);
                    assert(has_key(entries@, key@));
                }
                entries.set(i, (key, value));
            },
            None => {
                let ghost before = entries@;
                entries.push((key, value));
                proof {
                    assert(entries@.drop_last() =~= before);
                    assert forall|i: int, j: int| 0 <= i < j < entries@.len() implies (
                    #[trigger] entries@[i]).0@ != (#[trigger] entries@[j]).0@ by {
                        assert(before[i] == entries@[i]);
                        if j < before.len() {
                            assert(before[j] == entries@[j]);
                        }
                    }
                }
            },
        }
        self.entries = entries;
    }

    /// All entries, in the order in which their keys first came in.
    pub fn entries(&self) -> (res: &Vec<(K, V)>)
        ensures
            res@ == self.list(),
            keys_distinct(res@),
    {
        proof {
            use_type_invariant(self);
        }
        &self.entries
    }
}

/// Keys are distinct exactly if no two entries have one key.
pub proof fn law_when_keys_are_distinct<K: View, V>(entries: Seq<(K, V)>)
    ensures
        keys_distinct(entries) <==> forall|i: int, j: int|
            0 <= i < entries.len() && 0 <= j < entries.len() && (#[trigger] entries[i]).0@ == (
            #[trigger] entries[j]).0@ ==> i == j,
{
    if keys_distinct(entries) {
        assert forall|i: int, j: int|
            0 <= i < entries.len() && 0 <= j < entries.len() && (#[trigger] entries[i]).0@ == (
            #[trigger] entries[j]).0@ implies i == j by {
            if i < j {
                assert(entries[i].0@ != entries[j].0@);
            } else if j < i {
                assert(entries[j].0@ != entries[i].0@);
            }
        }
    }
}

} // verus!
