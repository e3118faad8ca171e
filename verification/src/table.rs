//! A small map: a list of entries with distinct keys.

use vstd::prelude::*;

verus! {

/// A key that can be told apart from others.
pub trait Key: Copy {
    fn same(&self, other: &Self) -> (r: bool)
        ensures
            r == (*self == *other),
    ;
}

/// Whether some entry has the key `k`.
pub open spec fn has_key<K, V>(entries: Seq<(K, V)>, k: K) -> bool {
    exists|i: int| 0 <= i < entries.len() && (#[trigger] entries[i]).0 == k
}

/// The value of an entry with the key `k`.
pub open spec fn value_of<K, V>(entries: Seq<(K, V)>, k: K) -> V {
    let i = choose|i: int| 0 <= i < entries.len() && (#[trigger] entries[i]).0 == k;
    entries[i].1
}

/// The map that a list of entries spells out.
pub open spec fn map_of<K, V>(entries: Seq<(K, V)>) -> Map<K, V> {
    Map::new(|k: K| has_key(entries, k), |k: K| value_of(entries, k))
}

/// No two entries share a key.
pub open spec fn distinct_keys<K, V>(entries: Seq<(K, V)>) -> bool {
    forall|i: int, j: int|
        0 <= i < j < entries.len() ==> (#[trigger] entries[i]).0 != (#[trigger] entries[j]).0
}

/// A map from `K` to `V`.
#[derive(Debug)]
pub struct Table<K: Key, V: Copy> {
    entries: Vec<(K, V)>,
}

impl<K: Key, V: Copy> Table<K, V> {
    #[verifier::type_invariant]
    pub closed spec fn keys_differ(self) -> bool {
        distinct_keys(self.entries@)
    }

    pub closed spec fn view(&self) -> Map<K, V> {
        map_of(self.entries@)
    }

    /// The entries in the order in which their keys first came in.
    pub closed spec fn listed(&self) -> Seq<(K, V)> {
        self.entries@
    }

    pub fn new() -> (r: Self)
        ensures
            r@ == Map::<K, V>::empty(),
            r.listed() == Seq::<(K, V)>::empty(),
    {
        let r = Table { entries: Vec::new() };
        assert(r@ =~= Map::<K, V>::empty());
        r
    }

    fn position(&self, k: &K) -> (r: Option<usize>)
        ensures
            match r {
                Some(i) => i < self.entries@.len() && self.entries@[i as int].0 == *k,
                None => !has_key(self.entries@, *k),
            },
    {
        let mut i: usize = 0;
        while i < self.entries.len()
            invariant
                i <= self.entries@.len(),
                forall|j: int| 0 <= j < i ==> (#[trigger] self.entries@[j]).0 != *k,
            decreases self.entries@.len() - i,
        {
            if self.entries[i].0.same(k) {
                return Some(i);
            }
            i += 1;
        }
        None
    }

    pub fn get(&self, k: &K) -> (r: Option<V>)
        ensures
            r == if self@.dom().contains(*k) {
                Some(self@[*k])
            } else {
                None
            },
    {
        proof {
            use_type_invariant(self);
        }
        match self.position(k) {
            Some(i) => {
                proof {
                    lemma_value_at(self.entries@, i as int);
                }
                Some(self.entries[i].1)
            },
            None => None,
        }
    }

    /// Sets the value of `k`.
    pub fn insert(&mut self, k: K, v: V)
        ensures
            final(self)@ == old(self)@.insert(k, v),
            final(self).listed().len() <= old(self).listed().len() + 1,
    {
        proof {
            use_type_invariant(&*self);
        }
        let found = self.position(&k);
        let mut entries: Vec<(K, V)> = Vec::new();
        std::mem::swap(&mut entries, &mut self.entries);
        let ghost before = entries@;
        match found {
            Some(i) => {
                entries.set(i, (k, v));
                proof {
                    lemma_insert_known(before, i as int, v);
                }
            },
            None => {
                entries.push((k, v));
                proof {
                    lemma_insert_new(before, k, v);
                }
            },
        }
        self.entries = entries;
    }

    pub fn len(&self) -> (r: usize)
        ensures
            r == self.listed().len(),
    {
        self.entries.len()
    }

    /// The `i`-th entry.
    pub fn nth(&self, i: usize) -> (r: (K, V))
        requires
            i < self.listed().len(),
        ensures
            r == self.listed()[i as int],
    {
        self.entries[i]
    }

    /// The map and the list of entries say the same.
    pub proof fn lemma_listed(&self)
        requires
            self.keys_differ(),
        ensures
            self@ == map_of(self.listed()),
            distinct_keys(self.listed()),
    {
    }
}

pub proof fn lemma_value_at<K, V>(entries: Seq<(K, V)>, i: int)
    requires
        distinct_keys(entries),
        0 <= i < entries.len(),
    ensures
        has_key(entries, entries[i].0),
        value_of(entries, entries[i].0) == entries[i].1,
{
    let k = entries[i].0;
    let j = choose|j: int| 0 <= j < entries.len() && (#[trigger] entries[j]).0 == k;
    assert(entries[j].0 == k);
    assert(i == j);
}

pub proof fn lemma_insert_new<K, V>(entries: Seq<(K, V)>, k: K, v: V)
    requires
        distinct_keys(entries),
        !has_key(entries, k),
    ensures
        distinct_keys(entries.push((k, v))),
        map_of(entries.push((k, v))) == map_of(entries).insert(k, v),
{
    let after = entries.push((k, v));
    assert(distinct_keys(after));
    lemma_value_at(after, entries.len() as int);
    assert forall|x: K| #[trigger] has_key(after, x) == (has_key(entries, x) || x == k) by {
        if has_key(entries, x) {
            let i = choose|i: int| 0 <= i < entries.len() && (#[trigger] entries[i]).0 == x;
            assert(after[i].0 == x);
        }
        if has_key(after, x) {
            let i = choose|i: int| 0 <= i < after.len() && (#[trigger] after[i]).0 == x;
            if i < entries.len() {
                assert(entries[i].0 == x);
            }
        }
        assert(after[entries.len() as int].0 == k);
    }
    assert forall|x: K| has_key(entries, x) implies value_of(after, x) == value_of(entries, x) by {
        let i = choose|i: int| 0 <= i < entries.len() && (#[trigger] entries[i]).0 == x;
        lemma_value_at(entries, i);
        lemma_value_at(after, i);
    }
    assert(map_of(after) =~= map_of(entries).insert(k, v));
}

pub proof fn lemma_insert_known<K, V>(entries: Seq<(K, V)>, at: int, v: V)
    requires
        distinct_keys(entries),
        0 <= at < entries.len(),
    ensures
        distinct_keys(entries.update(at, (entries[at].0, v))),
        map_of(entries.update(at, (entries[at].0, v))) == map_of(entries).insert(entries[at].0, v),
{
    let k = entries[at].0;
    let after = entries.update(at, (k, v));
    assert(forall|i: int| 0 <= i < entries.len() ==> (#[trigger] after[i]).0 == entries[i].0);
    lemma_value_at(after, at);
    assert forall|x: K| #[trigger] has_key(after, x) == has_key(entries, x) by {
        if has_key(entries, x) {
            let i = choose|i: int| 0 <= i < entries.len() && (#[trigger] entries[i]).0 == x;
            assert(after[i].0 == x);
        }
        if has_key(after, x) {
            let i = choose|i: int| 0 <= i < after.len() && (#[trigger] after[i]).0 == x;
            assert(entries[i].0 == x);
        }
    }
    assert forall|x: K| has_key(entries, x) && x != k implies value_of(after, x) == value_of(
        entries,
        x,
    ) by {
        let i = choose|i: int| 0 <= i < entries.len() && (#[trigger] entries[i]).0 == x;
        lemma_value_at(entries, i);
        lemma_value_at(after, i);
    }
    assert(has_key(entries, k)) by {
        assert(entries[at].0 == k);
    }
    assert(map_of(after) =~= map_of(entries).insert(k, v));
}

} // verus!
