//! A table of key/value pairs in which no key occurs twice.
use vstd::prelude::*;

verus! {

/// A key whose executable comparison is equality.
pub trait Key: Copy {
    /// Compares two keys.
    fn same(&self, other: &Self) -> (b: bool)
        ensures
            b == (*self == *other),
    ;
}

/// A table of key/value pairs in which no key occurs twice.
///
/// Its view is the map from the keys to their values. The pairs are kept in some order, which is
/// the order in which they are walked.
#[verifier::reject_recursive_types(K)]
pub struct Table<K: Key, V> {
    entries: Vec<(K, V)>,
}

/// `items` lists the elements of `set`, each of them once.
pub open spec fn lists<K>(items: Seq<K>, set: Set<K>) -> bool {
    &&& items.no_duplicates()
    &&& items.to_set() == set
}

/// The keys of a sequence of pairs, in their order.
spec fn keys_of<K, V>(entries: Seq<(K, V)>) -> Seq<K> {
    Seq::new(entries.len(), |i: int| entries[i].0)
}

/// The map that a sequence of pairs with distinct keys stands for.
spec fn map_of<K, V>(entries: Seq<(K, V)>) -> Map<K, V> {
    Map::new(
        |k: K| keys_of(entries).contains(k),
        |k: K| entries[keys_of(entries).index_of(k)].1,
    )
}

proof fn lemma_map_of_entry<K, V>(entries: Seq<(K, V)>, i: int)
    requires
        keys_of(entries).no_duplicates(),
        0 <= i < entries.len(),
    ensures
        map_of(entries).contains_key(entries[i].0),
        map_of(entries)[entries[i].0] == entries[i].1,
{
    let keys = keys_of(entries);
    assert(keys[i] == entries[i].0);
    assert(keys.contains(entries[i].0));
    let j = keys.index_of(entries[i].0);
    assert(0 <= j < keys.len() && keys[j] == keys[i]);
}

proof fn lemma_map_of_update<K, V>(entries: Seq<(K, V)>, i: int, value: V)
    requires
        keys_of(entries).no_duplicates(),
        0 <= i < entries.len(),
    ensures
        keys_of(entries.update(i, (entries[i].0, value))) == keys_of(entries),
        map_of(entries.update(i, (entries[i].0, value))) == map_of(entries).insert(
            entries[i].0,
            value,
        ),
{
    let after = entries.update(i, (entries[i].0, value));
    let key = entries[i].0;
    assert(keys_of(after) =~= keys_of(entries));
    lemma_map_of_entry(entries, i);
    lemma_map_of_entry(after, i);
    assert forall|k: K| keys_of(entries).contains(k) && k != key implies map_of(after)[k]
        == map_of(entries)[k] by {
        let j = keys_of(entries).index_of(k);
        assert(keys_of(entries)[j] == k);
        assert(after[j] == entries[j]);
    }
    assert(map_of(after) =~= map_of(entries).insert(key, value));
}

proof fn lemma_map_of_push<K, V>(entries: Seq<(K, V)>, key: K, value: V)
    requires
        keys_of(entries).no_duplicates(),
        !keys_of(entries).contains(key),
    ensures
        keys_of(entries.push((key, value))) == keys_of(entries).push(key),
        keys_of(entries.push((key, value))).no_duplicates(),
        map_of(entries.push((key, value))) == map_of(entries).insert(key, value),
{
    let after = entries.push((key, value));
    let n = entries.len() as int;
    assert(keys_of(after) =~= keys_of(entries).push(key));
    assert(keys_of(after).no_duplicates());
    lemma_map_of_entry(after, n);
    assert forall|k: K| #[trigger] keys_of(after).contains(k) <==> (k == key || keys_of(
        entries,
    ).contains(k)) by {
        if keys_of(entries).contains(k) {
            let j = keys_of(entries).index_of(k);
            assert(keys_of(after)[j] == k);
        }
        if k == key {
            assert(keys_of(after)[n] == k);
        }
        if keys_of(after).contains(k) && k != key {
            let j = keys_of(after).index_of(k);
            assert(keys_of(entries)[j] == k);
        }
    }
    assert forall|k: K| keys_of(entries).contains(k) implies #[trigger] map_of(after)[k]
        == map_of(entries)[k] by {
        let j = keys_of(entries).index_of(k);
        assert(keys_of(entries)[j] == k);
        assert(after[j] == entries[j]);
        lemma_map_of_entry(after, j);
    }
    assert(map_of(after) =~= map_of(entries).insert(key, value));
}

proof fn lemma_map_of_remove<K, V>(entries: Seq<(K, V)>, i: int)
    requires
        keys_of(entries).no_duplicates(),
        0 <= i < entries.len(),
    ensures
        keys_of(entries.remove(i)).no_duplicates(),
        map_of(entries.remove(i)) == map_of(entries).remove(entries[i].0),
{
    let after = entries.remove(i);
    let key = entries[i].0;
    assert(forall|j: int|
        #![trigger after[j]]
        0 <= j < after.len() ==> after[j] == entries[if j < i { j } else { j + 1 }]);
    assert(keys_of(after).no_duplicates()) by {
        assert forall|a: int, b: int| 0 <= a < after.len() && 0 <= b < after.len() && a != b implies
            keys_of(after)[a] != keys_of(after)[b] by {
            let a1 = if a < i { a } else { a + 1 };
            let b1 = if b < i { b } else { b + 1 };
            assert(after[a] == entries[a1] && after[b] == entries[b1]);
            assert(keys_of(entries)[a1] != keys_of(entries)[b1]);
        }
    }
    assert forall|k: K| #[trigger] keys_of(after).contains(k) <==> (k != key && keys_of(
        entries,
    ).contains(k)) by {
        if keys_of(after).contains(k) {
            let j = keys_of(after).index_of(k);
            let j1 = if j < i { j } else { j + 1 };
            assert(after[j] == entries[j1]);
            assert(keys_of(entries)[j1] == k);
            assert(keys_of(entries)[i] == key);
        }
        if k != key && keys_of(entries).contains(k) {
            let j = keys_of(entries).index_of(k);
            assert(keys_of(entries)[j] == k);
            let j1 = if j < i { j } else { j - 1 };
            assert(keys_of(after)[j1] == k);
        }
    }
    assert forall|k: K| k != key && keys_of(entries).contains(k) implies #[trigger] map_of(
        after,
    )[k] == map_of(entries)[k] by {
        let j = keys_of(entries).index_of(k);
        assert(keys_of(entries)[j] == k);
        let j1 = if j < i { j } else { j - 1 };
        assert(after[j1] == entries[j]);
        lemma_map_of_entry(after, j1);
    }
    assert(map_of(after) =~= map_of(entries).remove(key));
}

impl<K: Key, V> View for Table<K, V> {
    type V = Map<K, V>;

    closed spec fn view(&self) -> Map<K, V> {
        map_of(self.entries@)
    }
}

impl<K: Key, V> Table<K, V> {
    /// No key occurs twice.
    #[verifier::type_invariant]
    spec fn distinct(&self) -> bool {
        keys_of(self.entries@).no_duplicates()
    }

    /// The keys in the order in which the table is walked.
    pub closed spec fn order(&self) -> Seq<K> {
        keys_of(self.entries@)
    }

    /// Makes an empty table.
    pub fn new() -> (table: Self)
        ensures
            table@ == Map::<K, V>::empty(),
    {
        let table = Table { entries: Vec::new() };
        assert(table@ =~= Map::<K, V>::empty());
        table
    }

    /// The number of keys.
    pub fn len(&self) -> (n: usize)
        ensures
            n == self.order().len(),
            n == self@.dom().len(),
            self@.dom().finite(),
            lists(self.order(), self@.dom()),
    {
        proof {
            use_type_invariant(self);
            self.lemma_order();
        }
        self.entries.len()
    }

    proof fn lemma_order(&self)
        requires
            self.distinct(),
        ensures
            lists(self.order(), self@.dom()),
            self@.dom().finite(),
            self@.dom().len() == self.order().len(),
    {
        assert(self.order().to_set() =~= self@.dom());
        self.order().unique_seq_to_set();
    }

    /// The key at position `i` of the walk.
    pub fn key_at(&self, i: usize) -> (key: K)
        requires
            i < self.order().len(),
        ensures
            key == self.order()[i as int],
            self@.contains_key(key),
    {
        proof {
            use_type_invariant(self);
            lemma_map_of_entry(self.entries@, i as int);
        }
        self.entries[i].0
    }

    /// The value of the key at position `i` of the walk.
    pub fn value_at(&self, i: usize) -> (value: &V)
        requires
            i < self.order().len(),
        ensures
            self@.contains_key(self.order()[i as int]),
            *value == self@[self.order()[i as int]],
    {
        proof {
            use_type_invariant(self);
            lemma_map_of_entry(self.entries@, i as int);
        }
        &self.entries[i].1
    }

    /// The position of `key`, or the number of keys where it does not occur.
    fn position(&self, key: &K) -> (i: usize)
        ensures
            i <= self.entries@.len(),
            i < self.entries@.len() ==> self.entries@[i as int].0 == *key && self@.contains_key(
                *key,
            ) && self@[*key] == self.entries@[i as int].1,
            i == self.entries@.len() ==> !self@.contains_key(*key),
    {
        proof {
            use_type_invariant(self);
        }
        let mut i: usize = 0;
        while i < self.entries.len()
            invariant
                i <= self.entries@.len(),
                keys_of(self.entries@).no_duplicates(),
                forall|j: int| 0 <= j < i ==> (#[trigger] self.entries@[j]).0 != *key,
            decreases self.entries@.len() - i,
        {
            if self.entries[i].0.same(key) {
                proof {
                    lemma_map_of_entry(self.entries@, i as int);
                }
                return i;
            }
            i += 1;
        }
        i
    }

    /// Whether `key` occurs in the table.
    pub fn contains_key(&self, key: &K) -> (b: bool)
        ensures
            b == self@.contains_key(*key),
    {
        self.position(key) < self.entries.len()
    }

    /// The value of `key`, if it occurs in the table.
    pub fn get(&self, key: &K) -> (value: Option<&V>)
        ensures
            value == (if self@.contains_key(*key) {
                Some(&self@[*key])
            } else {
                None
            }),
    {
        let i = self.position(key);
        if i < self.entries.len() {
            Some(&self.entries[i].1)
        } else {
            None
        }
    }

    /// Gives `key` the value `value`, in place of the one that it had, if any.
    pub fn insert(&mut self, key: K, value: V)
        ensures
            final(self)@ == old(self)@.insert(key, value),
    {
        proof {
            use_type_invariant(&*self);
        }
        let i = self.position(&key);
        let mut entries: Vec<(K, V)> = Vec::new();
        std::mem::swap(&mut entries, &mut self.entries);
        proof {
            if i < entries@.len() {
                lemma_map_of_update(entries@, i as int, value);
            } else {
                lemma_map_of_push(entries@, key, value);
            }
        }
        if i < entries.len() {
            entries.set(i, (key, value));
        } else {
            entries.push((key, value));
        }
        self.entries = entries;
    }

    /// Takes `key` out of the table and returns the value that it had, if any.
    pub fn remove(&mut self, key: &K) -> (value: Option<V>)
        ensures
            final(self)@ == old(self)@.remove(*key),
            value == (if old(self)@.contains_key(*key) {
                Some(old(self)@[*key])
            } else {
                None
            }),
    {
        proof {
            use_type_invariant(&*self);
        }
        let i = self.position(key);
        if i < self.entries.len() {
            let mut entries: Vec<(K, V)> = Vec::new();
            std::mem::swap(&mut entries, &mut self.entries);
            proof {
                lemma_map_of_remove(entries@, i as int);
            }
            let (_, value) = entries.remove(i);
            self.entries = entries;
            Some(value)
        } else {
            assert(old(self)@.remove(*key) =~= old(self)@);
            None
        }
    }
}

} // verus!
