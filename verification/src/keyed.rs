//! Lists of keyed entries seen as maps.
//!
//! Several tables of the executive keep their entries in a vector with at
//! most one entry per key. These lemmas relate such a list to the map from
//! keys to values that it stands for.

use vstd::prelude::*;

verus! {

/// The map a list of entries stands for; a later entry wins over an
/// earlier one with the same key.
pub open spec fn keyed_map<T, K, V>(s: Seq<T>, key: spec_fn(T) -> K, val: spec_fn(T) -> V) -> Map<
    K,
    V,
>
    decreases s.len(),
{
    if s.len() == 0 {
        Map::empty()
    } else {
        keyed_map(s.drop_last(), key, val).insert(key(s.last()), val(s.last()))
    }
}

/// No key appears twice.
pub open spec fn unique_keys<T, K>(s: Seq<T>, key: spec_fn(T) -> K) -> bool {
    forall|i: int, j: int|
        0 <= i < s.len() && 0 <= j < s.len() && #[trigger] key(s[i]) == #[trigger] key(s[j])
            ==> i == j
}

/// Whether some entry has key `k`.
pub open spec fn has_key<T, K>(s: Seq<T>, key: spec_fn(T) -> K, k: K) -> bool {
    exists|j: int| 0 <= j < s.len() && #[trigger] key(s[j]) == k
}

pub proof fn lemma_unique_drop_last<T, K>(s: Seq<T>, key: spec_fn(T) -> K)
    requires
        unique_keys(s, key),
        s.len() > 0,
    ensures
        unique_keys(s.drop_last(), key),
{
    let rest = s.drop_last();
    assert forall|a: int, b: int|
        0 <= a < rest.len() && 0 <= b < rest.len() && #[trigger] key(rest[a]) == #[trigger] key(
            rest[b],
        ) implies a == b by {
        assert(rest[a] == s[a]);
        assert(rest[b] == s[b]);
    }
}

/// The keys of the map are those of the list.
pub proof fn lemma_keyed_domain<T, K, V>(s: Seq<T>, key: spec_fn(T) -> K, val: spec_fn(T) -> V)
    ensures
        forall|k: K| #[trigger] keyed_map(s, key, val).contains_key(k) <==> has_key(s, key, k),
    decreases s.len(),
{
    if s.len() > 0 {
        let rest = s.drop_last();
        lemma_keyed_domain(rest, key, val);
        assert(keyed_map(s, key, val) == keyed_map(rest, key, val).insert(
            key(s.last()),
            val(s.last()),
        ));
        assert forall|k: K| #[trigger]
            keyed_map(s, key, val).contains_key(k) <==> has_key(s, key, k) by {
            if keyed_map(s, key, val).contains_key(k) {
                if k == key(s.last()) {
                    assert(key(s[s.len() - 1]) == k);
                } else {
                    assert(keyed_map(rest, key, val).contains_key(k));
                    assert(has_key(rest, key, k));
                    let j = choose|j: int| 0 <= j < rest.len() && #[trigger] key(rest[j]) == k;
                    assert(s[j] == rest[j]);
                    assert(key(s[j]) == k);
                }
            }
            if has_key(s, key, k) {
                let j = choose|j: int| 0 <= j < s.len() && #[trigger] key(s[j]) == k;
                if j == s.len() - 1 {
                    assert(s.last() == s[j]);
                } else {
                    assert(rest[j] == s[j]);
                    assert(has_key(rest, key, k));
                }
            }
        }
    }
}

/// With unique keys, the map holds the value of every entry.
pub proof fn lemma_keyed_lookup<T, K, V>(
    s: Seq<T>,
    key: spec_fn(T) -> K,
    val: spec_fn(T) -> V,
    i: int,
)
    requires
        unique_keys(s, key),
        0 <= i < s.len(),
    ensures
        keyed_map(s, key, val).contains_key(key(s[i])),
        keyed_map(s, key, val)[key(s[i])] == val(s[i]),
    decreases s.len(),
{
    let rest = s.drop_last();
    if i < s.len() - 1 {
        assert(rest[i] == s[i]);
        lemma_unique_drop_last(s, key);
        lemma_keyed_lookup(rest, key, val, i);
        assert(key(s[i]) != key(s[s.len() - 1]));
    }
}

/// Replacing an entry by one with the same key replaces its value.
pub proof fn lemma_keyed_update<T, K, V>(
    s: Seq<T>,
    key: spec_fn(T) -> K,
    val: spec_fn(T) -> V,
    i: int,
    x: T,
)
    requires
        unique_keys(s, key),
        0 <= i < s.len(),
        key(x) == key(s[i]),
    ensures
        keyed_map(s.update(i, x), key, val) == keyed_map(s, key, val).insert(key(x), val(x)),
        unique_keys(s.update(i, x), key),
    decreases s.len(),
{
    let updated = s.update(i, x);
    let rest = s.drop_last();
    assert(unique_keys(updated, key)) by {
        assert forall|a: int, b: int|
            0 <= a < updated.len() && 0 <= b < updated.len() && #[trigger] key(updated[a])
                == #[trigger] key(updated[b]) implies a == b by {
            assert(key(updated[a]) == key(s[a]));
            assert(key(updated[b]) == key(s[b]));
        }
    }
    lemma_unique_drop_last(s, key);
    if i == s.len() - 1 {
        assert(updated.drop_last() =~= rest);
        lemma_keyed_domain(rest, key, val);
        assert(!has_key(rest, key, key(x))) by {
            if has_key(rest, key, key(x)) {
                let j = choose|j: int| 0 <= j < rest.len() && #[trigger] key(rest[j]) == key(x);
                assert(s[j] == rest[j]);
            }
        }
        assert(keyed_map(updated, key, val) =~= keyed_map(s, key, val).insert(key(x), val(x)));
    } else {
        assert(updated.drop_last() =~= rest.update(i, x));
        assert(rest[i] == s[i]);
        lemma_keyed_update(rest, key, val, i, x);
        assert(key(s[i]) != key(s[s.len() - 1]));
        assert(updated.last() == s.last());
        assert(keyed_map(updated, key, val) =~= keyed_map(s, key, val).insert(key(x), val(x)));
    }
}

/// Removing an entry removes its key.
pub proof fn lemma_keyed_remove<T, K, V>(
    s: Seq<T>,
    key: spec_fn(T) -> K,
    val: spec_fn(T) -> V,
    i: int,
)
    requires
        unique_keys(s, key),
        0 <= i < s.len(),
    ensures
        keyed_map(s.remove(i), key, val) == keyed_map(s, key, val).remove(key(s[i])),
        unique_keys(s.remove(i), key),
    decreases s.len(),
{
    let rest = s.drop_last();
    let removed = s.remove(i);
    assert(unique_keys(removed, key)) by {
        assert forall|a: int, b: int|
            0 <= a < removed.len() && 0 <= b < removed.len() && #[trigger] key(removed[a])
                == #[trigger] key(removed[b]) implies a == b by {
            let a2 = if a < i {
                a
            } else {
                a + 1
            };
            let b2 = if b < i {
                b
            } else {
                b + 1
            };
            assert(removed[a] == s[a2]);
            assert(removed[b] == s[b2]);
        }
    }
    lemma_unique_drop_last(s, key);
    lemma_keyed_domain(rest, key, val);
    if i == s.len() - 1 {
        assert(removed =~= rest);
        assert(!has_key(rest, key, key(s[i]))) by {
            if has_key(rest, key, key(s[i])) {
                let j = choose|j: int| 0 <= j < rest.len() && #[trigger] key(rest[j]) == key(s[i]);
                assert(s[j] == rest[j]);
            }
        }
        assert(keyed_map(rest, key, val) =~= keyed_map(s, key, val).remove(key(s[i])));
    } else {
        assert(removed.drop_last() =~= rest.remove(i));
        assert(removed.last() == s.last());
        assert(rest[i] == s[i]);
        lemma_keyed_remove(rest, key, val, i);
        assert(key(s[i]) != key(s[s.len() - 1]));
        assert(keyed_map(removed, key, val) =~= keyed_map(s, key, val).remove(key(s[i])));
    }
}

/// Appending an entry with a new key inserts it.
pub proof fn lemma_keyed_push<T, K, V>(s: Seq<T>, key: spec_fn(T) -> K, val: spec_fn(T) -> V, x: T)
    requires
        unique_keys(s, key),
        !has_key(s, key, key(x)),
    ensures
        keyed_map(s.push(x), key, val) == keyed_map(s, key, val).insert(key(x), val(x)),
        unique_keys(s.push(x), key),
{
    let p = s.push(x);
    assert(p.drop_last() =~= s);
    assert forall|a: int, b: int|
        0 <= a < p.len() && 0 <= b < p.len() && #[trigger] key(p[a]) == #[trigger] key(p[b])
            implies a == b by {
        if a < s.len() {
            assert(p[a] == s[a]);
        }
        if b < s.len() {
            assert(p[b] == s[b]);
        }
    }
}

/// A map without the key equals the one built from a list missing it.
pub proof fn lemma_keyed_absent<T, K, V>(s: Seq<T>, key: spec_fn(T) -> K, val: spec_fn(T) -> V, k: K)
    requires
        !has_key(s, key, k),
    ensures
        !keyed_map(s, key, val).contains_key(k),
{
    lemma_keyed_domain(s, key, val);
}

pub open spec fn pair_key<K, V>() -> spec_fn((K, V)) -> K {
    |e: (K, V)| e.0
}

pub open spec fn pair_val<K, V>() -> spec_fn((K, V)) -> V {
    |e: (K, V)| e.1
}

/// A small map keyed by 128-bit ids, kept as a list of distinct entries in
/// insertion order.
#[derive(Debug, Clone)]
pub struct IdMap<V> {
    entries: Vec<(u128, V)>,
}

impl<V> View for IdMap<V> {
    type V = Map<u128, V>;

    closed spec fn view(&self) -> Map<u128, V> {
        keyed_map(self.entries@, pair_key(), pair_val())
    }
}

impl<V> IdMap<V> {
    pub closed spec fn wf(&self) -> bool {
        unique_keys(self.entries@, pair_key::<u128, V>())
    }

    /// The keys, in insertion order.
    pub closed spec fn keys_in_order(&self) -> Seq<u128> {
        self.entries@.map_values(|e: (u128, V)| e.0)
    }

    pub fn new() -> (map: Self)
        ensures
            map.wf(),
            map@ == Map::<u128, V>::empty(),
    {
        IdMap { entries: Vec::new() }
    }

    fn find(&self, key: u128) -> (index: Option<usize>)
        requires
            self.wf(),
        ensures
            match index {
                Some(i) => i < self.entries@.len() && self.entries@[i as int].0 == key,
                None => !has_key(self.entries@, pair_key::<u128, V>(), key),
            },
    {
        let mut i: usize = 0;
        while i < self.entries.len()
            invariant
                0 <= i <= self.entries@.len(),
                forall|j: int| 0 <= j < i ==> (#[trigger] self.entries@[j]).0 != key,
            decreases self.entries@.len() - i,
        {
            if self.entries[i].0 == key {
                return Some(i);
            }
            i = i + 1;
        }
        proof {
            if has_key(self.entries@, pair_key::<u128, V>(), key) {
                let j = choose|j: int|
                    0 <= j < self.entries@.len() && #[trigger] pair_key::<u128, V>()(
                        self.entries@[j],
                    ) == key;
                assert(self.entries@[j].0 != key);
            }
        }
        None
    }

    /// The value under `key`, if any.
    pub fn get(&self, key: u128) -> (value: Option<&V>)
        requires
            self.wf(),
        ensures
            match value {
                Some(v) => self@.contains_key(key) && self@[key] == *v,
                None => !self@.contains_key(key),
            },
    {
        match self.find(key) {
            Some(i) => {
                proof {
                    lemma_keyed_lookup(self.entries@, pair_key(), pair_val(), i as int);
                }
                Some(&self.entries[i].1)
            },
            None => {
                proof {
                    lemma_keyed_absent(self.entries@, pair_key(), pair_val(), key);
                }
                None
            },
        }
    }

    /// Whether `key` has a value.
    pub fn contains_key(&self, key: u128) -> (present: bool)
        requires
            self.wf(),
        ensures
            present == self@.contains_key(key),
    {
        match self.get(key) {
            Some(_) => true,
            None => false,
        }
    }

    /// Sets the value of `key`; an existing entry keeps its place.
    pub fn insert(&mut self, key: u128, value: V)
        requires
            old(self).wf(),
        ensures
            final(self).wf(),
            final(self)@ == old(self)@.insert(key, value),
    {
        let ghost before = self.entries@;
        match self.find(key) {
            Some(i) => {
                proof {
                    lemma_keyed_update(before, pair_key(), pair_val(), i as int, (key, value));
                }
                self.entries.set(i, (key, value));
            },
            None => {
                proof {
                    lemma_keyed_push(before, pair_key(), pair_val(), (key, value));
                }
                self.entries.push((key, value));
            },
        }
    }

    /// Removes `key` and returns its value, if any.
    pub fn remove(&mut self, key: u128) -> (value: Option<V>)
        requires
            old(self).wf(),
        ensures
            final(self).wf(),
            final(self)@ == old(self)@.remove(key),
            match value {
                Some(v) => old(self)@.contains_key(key) && old(self)@[key] == v,
                None => !old(self)@.contains_key(key),
            },
    {
        let ghost before = self.entries@;
        match self.find(key) {
            Some(i) => {
                proof {
                    lemma_keyed_lookup(before, pair_key(), pair_val(), i as int);
                    lemma_keyed_remove(before, pair_key(), pair_val(), i as int);
                }
                let (_, v) = self.entries.remove(i);
                Some(v)
            },
            None => {
                proof {
                    lemma_keyed_absent(before, pair_key(), pair_val(), key);
                    assert(old(self)@.remove(key) =~= old(self)@);
                }
                None
            },
        }
    }

    /// Number of entries.
    pub fn len(&self) -> (n: usize)
        requires
            self.wf(),
        ensures
            n == self@.len(),
    {
        proof {
            lemma_keyed_len(self.entries@, pair_key::<u128, V>(), pair_val::<u128, V>());
        }
        self.entries.len()
    }
}

/// With unique keys, the map has one key per entry.
pub proof fn lemma_keyed_len<T, K, V>(s: Seq<T>, key: spec_fn(T) -> K, val: spec_fn(T) -> V)
    requires
        unique_keys(s, key),
    ensures
        keyed_map(s, key, val).dom().finite(),
        keyed_map(s, key, val).len() == s.len(),
    decreases s.len(),
{
    if s.len() > 0 {
        let rest = s.drop_last();
        lemma_unique_drop_last(s, key);
        lemma_keyed_len(rest, key, val);
        lemma_keyed_domain(rest, key, val);
        assert(!has_key(rest, key, key(s.last()))) by {
            if has_key(rest, key, key(s.last())) {
                let j = choose|j: int| 0 <= j < rest.len() && #[trigger] key(rest[j]) == key(s.last());
                assert(rest[j] == s[j]);
                assert(key(s[j]) == key(s[s.len() - 1]));
            }
        }
    }
}

pub open spec fn text_key<V>() -> spec_fn((String, V)) -> Seq<char> {
    |e: (String, V)| e.0@
}

/// A small map keyed by text, kept as a list of distinct entries in
/// insertion order.
#[derive(Debug, Clone)]
pub struct TextMap<V> {
    entries: Vec<(String, V)>,
}

impl<V> View for TextMap<V> {
    type V = Map<Seq<char>, V>;

    closed spec fn view(&self) -> Map<Seq<char>, V> {
        keyed_map(self.entries@, text_key(), pair_val())
    }
}

impl<V> TextMap<V> {
    pub closed spec fn wf(&self) -> bool {
        unique_keys(self.entries@, text_key::<V>())
    }

    /// The values, in insertion order.
    pub closed spec fn values_in_order(&self) -> Seq<V> {
        self.entries@.map_values(|e: (String, V)| e.1)
    }

    /// The keys, in insertion order.
    pub closed spec fn keys_in_order(&self) -> Seq<Seq<char>> {
        self.entries@.map_values(|e: (String, V)| e.0@)
    }

    /// Position of `key` in insertion order.
    pub open spec fn position(&self, key: Seq<char>) -> int {
        choose|i: int| 0 <= i < self.keys_in_order().len() && self.keys_in_order()[i] == key
    }

    /// The ordered keys and values are the map's entries, once each.
    pub proof fn lemma_in_order(&self)
        requires
            self.wf(),
        ensures
            self.keys_in_order().len() == self.values_in_order().len(),
            self.keys_in_order().len() == self@.len(),
            self@.dom().finite(),
            forall|i: int|
                0 <= i < self.keys_in_order().len() ==> self@.contains_key(
                    #[trigger] self.keys_in_order()[i],
                ) && self@[self.keys_in_order()[i]] == self.values_in_order()[i],
            forall|k: Seq<char>| #[trigger]
                self@.contains_key(k) ==> exists|i: int|
                    0 <= i < self.keys_in_order().len() && self.keys_in_order()[i] == k,
            forall|i: int, j: int|
                0 <= i < self.keys_in_order().len() && 0 <= j < self.keys_in_order().len()
                    && #[trigger] self.keys_in_order()[i] == #[trigger] self.keys_in_order()[j]
                    ==> i == j,
    {
        lemma_keyed_len(self.entries@, text_key::<V>(), pair_val::<String, V>());
        lemma_keyed_domain(self.entries@, text_key::<V>(), pair_val::<String, V>());
        assert forall|i: int|
            0 <= i < self.keys_in_order().len() implies self@.contains_key(
            #[trigger] self.keys_in_order()[i],
        ) && self@[self.keys_in_order()[i]] == self.values_in_order()[i] by {
            lemma_keyed_lookup(self.entries@, text_key::<V>(), pair_val::<String, V>(), i);
        }
        assert forall|k: Seq<char>| #[trigger] self@.contains_key(k) implies exists|i: int|
            0 <= i < self.keys_in_order().len() && self.keys_in_order()[i] == k by {
            let j = choose|j: int|
                0 <= j < self.entries@.len() && #[trigger] text_key::<V>()(self.entries@[j]) == k;
            assert(self.keys_in_order()[j] == k);
        }
        assert forall|i: int, j: int|
            0 <= i < self.keys_in_order().len() && 0 <= j < self.keys_in_order().len()
                && #[trigger] self.keys_in_order()[i] == #[trigger] self.keys_in_order()[j]
                implies i == j by {
            assert(text_key::<V>()(self.entries@[i]) == text_key::<V>()(self.entries@[j]));
        }
    }

    /// Position of `key` in insertion order, if present.
    pub fn index_of(&self, key: &str) -> (index: Option<usize>)
        requires
            self.wf(),
        ensures
            match index {
                Some(i) => self@.contains_key(key@) && i == self.position(key@) && i
                    < self.keys_in_order().len() && self.keys_in_order()[i as int] == key@,
                None => !self@.contains_key(key@),
            },
    {
        proof {
            self.lemma_in_order();
        }
        let owned = key.to_owned();
        match self.find(&owned) {
            Some(i) => {
                proof {
                    assert(self.keys_in_order()[i as int] == key@);
                    assert(self@.contains_key(key@));
                    let p = self.position(key@);
                    assert(self.keys_in_order()[p] == key@);
                }
                Some(i)
            },
            None => {
                proof {
                    lemma_keyed_absent(self.entries@, text_key(), pair_val(), key@);
                }
                None
            },
        }
    }

    /// The value at position `i` of insertion order.
    pub fn value_at(&self, i: usize) -> (value: &V)
        requires
            i < self.values_in_order().len(),
        ensures
            *value == self.values_in_order()[i as int],
    {
        &self.entries[i].1
    }

    /// Number of entries, in insertion order.
    pub fn count(&self) -> (n: usize)
        ensures
            n == self.values_in_order().len(),
            n == self.keys_in_order().len(),
    {
        self.entries.len()
    }

    /// Replaces the value at position `i`, keeping its key and place.
    pub fn set_value_at(&mut self, i: usize, value: V)
        requires
            old(self).wf(),
            i < old(self).values_in_order().len(),
        ensures
            final(self).wf(),
            final(self)@ == old(self)@.insert(old(self).keys_in_order()[i as int], value),
            final(self).keys_in_order() == old(self).keys_in_order(),
            final(self).values_in_order() == old(self).values_in_order().update(i as int, value),
    {
        let ghost before = self.entries@;
        let key = self.entries[i].0.clone();
        proof {
            lemma_keyed_update(before, text_key(), pair_val(), i as int, (key, value));
        }
        self.entries.set(i, (key, value));
        proof {
            assert(self.keys_in_order() =~= old(self).keys_in_order());
            assert(self.values_in_order() =~= old(self).values_in_order().update(i as int, value));
        }
    }

    pub fn new() -> (map: Self)
        ensures
            map.wf(),
            map@ == Map::<Seq<char>, V>::empty(),
            map.values_in_order() == Seq::<V>::empty(),
            map.keys_in_order() == Seq::<Seq<char>>::empty(),
    {
        let map = TextMap { entries: Vec::new() };
        proof {
            assert(map.values_in_order() =~= Seq::<V>::empty());
            assert(map.keys_in_order() =~= Seq::<Seq<char>>::empty());
        }
        map
    }

    fn find(&self, key: &String) -> (index: Option<usize>)
        requires
            self.wf(),
        ensures
            match index {
                Some(i) => i < self.entries@.len() && self.entries@[i as int].0@ == key@,
                None => !has_key(self.entries@, text_key::<V>(), key@),
            },
    {
        let mut i: usize = 0;
        while i < self.entries.len()
            invariant
                0 <= i <= self.entries@.len(),
                forall|j: int| 0 <= j < i ==> (#[trigger] self.entries@[j]).0@ != key@,
            decreases self.entries@.len() - i,
        {
            if self.entries[i].0 == *key {
                return Some(i);
            }
            i = i + 1;
        }
        proof {
            if has_key(self.entries@, text_key::<V>(), key@) {
                let j = choose|j: int|
                    0 <= j < self.entries@.len() && #[trigger] text_key::<V>()(self.entries@[j])
                        == key@;
                assert(self.entries@[j].0@ != key@);
            }
        }
        None
    }

    /// The value under `key`, if any.
    pub fn get(&self, key: &str) -> (value: Option<&V>)
        requires
            self.wf(),
        ensures
            match value {
                Some(v) => self@.contains_key(key@) && self@[key@] == *v,
                None => !self@.contains_key(key@),
            },
    {
        let owned = key.to_owned();
        match self.find(&owned) {
            Some(i) => {
                proof {
                    lemma_keyed_lookup(self.entries@, text_key(), pair_val(), i as int);
                }
                Some(&self.entries[i].1)
            },
            None => {
                proof {
                    lemma_keyed_absent(self.entries@, text_key(), pair_val(), key@);
                }
                None
            },
        }
    }

    /// Sets the value of `key`; an existing entry keeps its place, a new
    /// one comes last.
    pub fn insert(&mut self, key: String, value: V)
        requires
            old(self).wf(),
        ensures
            final(self).wf(),
            final(self)@ == old(self)@.insert(key@, value),
            old(self)@.contains_key(key@) ==> final(self).keys_in_order() == old(
                self,
            ).keys_in_order() && final(self).values_in_order() == old(
                self,
            ).values_in_order().update(old(self).position(key@), value),
            !old(self)@.contains_key(key@) ==> final(self).keys_in_order() == old(
                self,
            ).keys_in_order().push(key@) && final(self).values_in_order() == old(
                self,
            ).values_in_order().push(value),
    {
        let ghost before = self.entries@;
        proof {
            self.lemma_in_order();
        }
        match self.find(&key) {
            Some(i) => {
                proof {
                    lemma_keyed_update(before, text_key(), pair_val(), i as int, (key, value));
                    assert(old(self).keys_in_order()[i as int] == key@);
                    let p = old(self).position(key@);
                    assert(old(self).keys_in_order()[p] == key@);
                }
                let ghost k = key@;
                self.entries.set(i, (key, value));
                proof {
                    assert(self.keys_in_order() =~= old(self).keys_in_order());
                    assert(self.values_in_order() =~= old(self).values_in_order().update(
                        i as int,
                        value,
                    ));
                    assert(old(self)@.contains_key(k));
                }
            },
            None => {
                proof {
                    lemma_keyed_push(before, text_key(), pair_val(), (key, value));
                    lemma_keyed_absent(before, text_key(), pair_val(), key@);
                }
                let ghost k = key@;
                self.entries.push((key, value));
                proof {
                    assert(self.keys_in_order() =~= old(self).keys_in_order().push(k));
                    assert(self.values_in_order() =~= old(self).values_in_order().push(value));
                }
            },
        }
    }

    /// Removes `key` and returns its value, if any.
    pub fn remove(&mut self, key: &str) -> (value: Option<V>)
        requires
            old(self).wf(),
        ensures
            final(self).wf(),
            final(self)@ == old(self)@.remove(key@),
            match value {
                Some(v) => old(self)@.contains_key(key@) && old(self)@[key@] == v,
                None => !old(self)@.contains_key(key@),
            },
    {
        let ghost before = self.entries@;
        let owned = key.to_owned();
        match self.find(&owned) {
            Some(i) => {
                proof {
                    lemma_keyed_lookup(before, text_key(), pair_val(), i as int);
                    lemma_keyed_remove(before, text_key(), pair_val(), i as int);
                }
                let (_, v) = self.entries.remove(i);
                Some(v)
            },
            None => {
                proof {
                    lemma_keyed_absent(before, text_key(), pair_val(), key@);
                    assert(old(self)@.remove(key@) =~= old(self)@);
                }
                None
            },
        }
    }

    /// Number of entries.
    pub fn len(&self) -> (n: usize)
        requires
            self.wf(),
        ensures
            n == self@.len(),
    {
        proof {
            lemma_keyed_len(self.entries@, text_key::<V>(), pair_val::<String, V>());
        }
        self.entries.len()
    }
}

} // verus!
