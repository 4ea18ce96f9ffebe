//! A map for a handful of keys.

use vstd::prelude::*;

verus! {

/// A key of a map, compared by its view.
pub trait MapKey: View + Sized {
    /// Whether two keys have the same view.
    fn same_key(&self, other: &Self) -> (same: bool)
        ensures
            same == (self@ == other@),
    ;

    /// A key with the same view.
    fn copy_key(&self) -> (copy: Self)
        ensures
            copy@ == self@,
    ;
}

impl MapKey for String {
    fn same_key(&self, other: &String) -> (same: bool) {
        *self == *other
    }

    fn copy_key(&self) -> (copy: String) {
        self.clone()
    }
}

/// Whether two optional numbers are the same.
pub(crate) fn same_u32(first: Option<u32>, second: Option<u32>) -> (same: bool)
    ensures
        same == (first == second),
{
    match (first, second) {
        (Some(a), Some(b)) => a == b,
        (None, None) => true,
        _ => false,
    }
}

/// Whether two optional numbers are the same.
pub(crate) fn same_u64(first: Option<u64>, second: Option<u64>) -> (same: bool)
    ensures
        same == (first == second),
{
    match (first, second) {
        (Some(a), Some(b)) => a == b,
        (None, None) => true,
        _ => false,
    }
}

/// Values by key. No two entries have the same key.
pub struct KeyMap<K: MapKey, V> {
    entries: Vec<(K, V)>,
}

/// Values by coin name.
pub type CoinMap<V> = KeyMap<String, V>;

/// Whether no two entries have the same key.
spec fn distinct<K: MapKey, V>(entries: Seq<(K, V)>) -> bool {
    forall|i: int, j: int|
        0 <= i < j < entries.len() ==> (#[trigger] entries[i]).0@ != (#[trigger] entries[j]).0@
}

/// Whether some entry has the key.
spec fn has_key<K: MapKey, V>(entries: Seq<(K, V)>, key: K::V) -> bool {
    exists|i: int| 0 <= i < entries.len() && (#[trigger] entries[i]).0@ == key
}

/// The value of an entry that has the key.
spec fn value_of<K: MapKey, V>(entries: Seq<(K, V)>, key: K::V) -> V {
    entries[choose|i: int| 0 <= i < entries.len() && (#[trigger] entries[i]).0@ == key].1
}

/// The map that a row of entries stands for.
spec fn as_map<K: MapKey, V>(entries: Seq<(K, V)>) -> Map<K::V, V> {
    Map::new(|key: K::V| has_key(entries, key), |key: K::V| value_of(entries, key))
}

/// In a row of distinct keys, an entry's key leads to that entry's value.
proof fn lemma_entry<K: MapKey, V>(entries: Seq<(K, V)>, i: int)
    requires
        distinct(entries),
        0 <= i < entries.len(),
    ensures
        as_map(entries).contains_key(entries[i].0@),
        as_map(entries)[entries[i].0@] == entries[i].1,
{
    let key = entries[i].0@;
    assert(has_key(entries, key));
    let j = choose|j: int| 0 <= j < entries.len() && (#[trigger] entries[j]).0@ == key;
    if j < i {
        assert(entries[j].0@ != entries[i].0@);
    } else if i < j {
        assert(entries[i].0@ != entries[j].0@);
    }
}

impl<K: MapKey, V> View for KeyMap<K, V> {
    type V = Map<K::V, V>;

    closed spec fn view(&self) -> Map<K::V, V> {
        as_map(self.entries@)
    }
}

impl<K: MapKey, V> KeyMap<K, V> {
    #[verifier::type_invariant]
    spec fn no_key_twice(self) -> bool {
        distinct(self.entries@)
    }

    /// The empty map.
    pub fn new() -> (map: KeyMap<K, V>)
        ensures
            map@ == Map::<K::V, V>::empty(),
    {
        let map = KeyMap { entries: Vec::new() };
        assert(map@ =~= Map::<K::V, V>::empty());
        map
    }

    /// The place of the entry with the key, or the number of entries where there is none.
    fn place(&self, key: &K) -> (at: usize)
        ensures
            at <= self.entries@.len(),
            at < self.entries@.len() ==> self.entries@[at as int].0@ == key@,
            at == self.entries@.len() ==> !has_key(self.entries@, key@),
    {
        let mut i: usize = 0;
        while i < self.entries.len()
            invariant
                i <= self.entries@.len(),
                forall|j: int| 0 <= j < i ==> (#[trigger] self.entries@[j]).0@ != key@,
            decreases self.entries@.len() - i,
        {
            if self.entries[i].0.same_key(key) {
                return i;
            }
            i = i + 1;
        }
        i
    }

    /// The value at `key`.
    pub fn get(&self, key: &K) -> (found: Option<&V>)
        ensures
            found is Some <==> self@.contains_key(key@),
            found matches Some(value) ==> *value == self@[key@],
    {
        proof {
            use_type_invariant(self);
        }
        let at: usize = self.place(key);
        if at < self.entries.len() {
            proof {
                lemma_entry(self.entries@, at as int);
            }
            Some(&self.entries[at].1)
        } else {
            None
        }
    }

    /// Puts `value` at `key`, and hands back the value that stood there.
    pub fn insert(&mut self, key: K, value: V) -> (before: Option<V>)
        ensures
            final(self)@ == old(self)@.insert(key@, value),
            before is Some <==> old(self)@.contains_key(key@),
            before matches Some(earlier) ==> earlier == old(self)@[key@],
    {
        let before = self.remove(&key);
        proof {
            use_type_invariant(&*self);
        }
        let ghost kept = self.entries@;
        let ghost text = key@;
        let mut entries = Vec::new();
        std::mem::swap(&mut entries, &mut self.entries);
        entries.push((key, value));
        proof {
            let now = entries@;
            assert(!has_key(kept, text)) by {
                assert(!as_map(kept).contains_key(text));
            }
            assert(forall|i: int| 0 <= i < kept.len() ==> now[i] == kept[i]);
            assert(distinct(now));
            assert forall|k: K::V| as_map(now).contains_key(k) <==> (k == text || as_map(kept).contains_key(k)) by {
                if has_key(kept, k) {
                    let i = choose|i: int| 0 <= i < kept.len() && (#[trigger] kept[i]).0@ == k;
                    assert(now[i] == kept[i]);
                }
                if has_key(now, k) && k != text {
                    let j = choose|j: int| 0 <= j < now.len() && (#[trigger] now[j]).0@ == k;
                    assert(now[j] == kept[j]);
                }
                assert(now[kept.len() as int].0@ == text);
            }
            assert forall|k: K::V| as_map(now).contains_key(k) implies as_map(now)[k] == #[trigger] as_map(
                kept,
            ).insert(text, value)[k] by {
                let j = choose|j: int| 0 <= j < now.len() && (#[trigger] now[j]).0@ == k;
                lemma_entry(now, j);
                lemma_entry(now, kept.len() as int);
                if k != text {
                    assert(now[j] == kept[j]);
                    lemma_entry(kept, j);
                }
            }
            assert(as_map(now) =~= as_map(kept).insert(text, value));
        }
        self.entries = entries;
        assert(self@ =~= old(self)@.insert(text, value));
        before
    }

    /// Takes the value at `key` out of the map.
    pub fn remove(&mut self, key: &K) -> (taken: Option<V>)
        ensures
            final(self)@ == old(self)@.remove(key@),
            taken is Some <==> old(self)@.contains_key(key@),
            taken matches Some(value) ==> value == old(self)@[key@],
    {
        proof {
            use_type_invariant(&*self);
        }
        let at: usize = self.place(key);
        if at < self.entries.len() {
            let ghost whole = self.entries@;
            let mut entries = Vec::new();
            std::mem::swap(&mut entries, &mut self.entries);
            let (_, value) = entries.remove(at);
            proof {
                let now = entries@;
                lemma_entry(whole, at as int);
                assert(forall|i: int| 0 <= i < at ==> now[i] == whole[i]);
                assert(forall|i: int| at <= i < now.len() ==> now[i] == whole[i + 1]);
                assert(distinct(now));
                assert forall|k: K::V| as_map(now).contains_key(k) <==> (k != key@ && as_map(whole).contains_key(k)) by {
                    if has_key(whole, k) && k != key@ {
                        let i = choose|i: int| 0 <= i < whole.len() && (#[trigger] whole[i]).0@ == k;
                        let j = if i < at { i } else { i - 1 };
                        assert(now[j] == whole[i]);
                    }
                    if has_key(now, k) {
                        let j = choose|j: int| 0 <= j < now.len() && (#[trigger] now[j]).0@ == k;
                        let i = if j < at { j } else { j + 1 };
                        assert(now[j] == whole[i]);
                        if i < at {
                            assert(whole[i].0@ != whole[at as int].0@);
                        } else {
                            assert(whole[at as int].0@ != whole[i].0@);
                        }
                    }
                }
                assert forall|k: K::V| as_map(now).contains_key(k) implies as_map(now)[k] == #[trigger] as_map(
                    whole,
                ).remove(key@)[k] by {
                    let j = choose|j: int| 0 <= j < now.len() && (#[trigger] now[j]).0@ == k;
                    let i = if j < at { j } else { j + 1 };
                    assert(now[j] == whole[i]);
                    lemma_entry(now, j);
                    lemma_entry(whole, i);
                }
                assert(as_map(now) =~= as_map(whole).remove(key@));
            }
            self.entries = entries;
            Some(value)
        } else {
            assert(self@ =~= old(self)@.remove(key@));
            None
        }
    }

    /// The keys that have a value, each once.
    pub fn keys(&self) -> (keys: Vec<K>)
        ensures
            forall|i: int, j: int| 0 <= i < j < keys@.len() ==> (#[trigger] keys@[i])@ != (#[trigger] keys@[j])@,
            forall|key: K::V|
                (exists|i: int| 0 <= i < keys@.len() && (#[trigger] keys@[i])@ == key)
                    <==> #[trigger] self@.contains_key(key),
    {
        proof {
            use_type_invariant(self);
        }
        let mut keys: Vec<K> = Vec::new();
        let mut i: usize = 0;
        while i < self.entries.len()
            invariant
                i <= self.entries@.len(),
                keys@.len() == i,
                forall|j: int| 0 <= j < i ==> (#[trigger] keys@[j])@ == self.entries@[j].0@,
            decreases self.entries@.len() - i,
        {
            keys.push(self.entries[i].0.copy_key());
            i = i + 1;
        }
        proof {
            assert forall|key: K::V|
                (exists|i: int| 0 <= i < keys@.len() && (#[trigger] keys@[i])@ == key)
                    <==> #[trigger] self@.contains_key(key) by {
                if has_key(self.entries@, key) {
                    let j = choose|j: int| 0 <= j < self.entries@.len() && (#[trigger] self.entries@[j]).0@ == key;
                    assert(keys@[j]@ == key);
                }
                if exists|i: int| 0 <= i < keys@.len() && (#[trigger] keys@[i])@ == key {
                    let j = choose|j: int| 0 <= j < keys@.len() && (#[trigger] keys@[j])@ == key;
                    assert(self.entries@[j].0@ == key);
                }
            }
        }
        keys
    }
}

} // verus!
