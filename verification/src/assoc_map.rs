//! A finite map kept as a list of entries with distinct keys.
//!
//! The contract's storage is a key-value store; every table in it is one of
//! these maps, viewed as a mathematical `Map`.
use vstd::prelude::*;

verus! {

/// Keys that can be compared for equality in executable code.
pub trait MapKey: Copy {
    fn same_key(&self, other: &Self) -> (r: bool)
        ensures
            r == (*self == *other),
    ;
}

impl MapKey for u64 {
    fn same_key(&self, other: &Self) -> (r: bool) {
        *self == *other
    }
}

/// One key-value pair of an `AssocMap`.
#[derive(Debug)]
pub struct Entry<K, V> {
    pub key: K,
    pub value: V,
}

/// No key occurs twice.
pub open spec fn keys_unique<K, V>(s: Seq<Entry<K, V>>) -> bool {
    forall|i: int, j: int|
        0 <= i < s.len() && 0 <= j < s.len() && i != j ==> #[trigger] s[i].key != #[trigger] s[j].key
}

pub open spec fn has_key<K, V>(s: Seq<Entry<K, V>>, k: K) -> bool {
    exists|i: int| 0 <= i < s.len() && #[trigger] s[i].key == k
}

pub open spec fn key_index<K, V>(s: Seq<Entry<K, V>>, k: K) -> int {
    choose|i: int| 0 <= i < s.len() && #[trigger] s[i].key == k
}

/// The map that a list of entries stands for.
pub open spec fn map_of_entries<K, V>(s: Seq<Entry<K, V>>) -> Map<K, V> {
    Map::new(|k: K| has_key(s, k), |k: K| s[key_index(s, k)].value)
}

/// In a list with distinct keys, the entry at `i` gives the map's value at its key.
pub proof fn lemma_entry_in_map<K, V>(s: Seq<Entry<K, V>>, i: int)
    requires
        keys_unique(s),
        0 <= i < s.len(),
    ensures
        map_of_entries(s).dom().contains(s[i].key),
        map_of_entries(s)[s[i].key] == s[i].value,
{
    let k = s[i].key;
    assert(has_key(s, k));
    let j = key_index(s, k);
    assert(s[j].key == k);
    assert(j == i);
}

/// A finite map from `K` to `V`.
#[derive(Debug)]
pub struct AssocMap<K, V> {
    entries: Vec<Entry<K, V>>,
}

impl<K, V> View for AssocMap<K, V> {
    type V = Map<K, V>;

    closed spec fn view(&self) -> Map<K, V> {
        map_of_entries(self.entries@)
    }
}

impl<K, V> AssocMap<K, V> {
    #[verifier::type_invariant]
    spec fn inv(self) -> bool {
        keys_unique(self.entries@)
    }
}

impl<K: MapKey, V> AssocMap<K, V> {
    /// The empty map.
    pub fn new() -> (m: Self)
        ensures
            m@ == Map::<K, V>::empty(),
    {
        let m = AssocMap { entries: Vec::new() };
        assert(m@ =~= Map::<K, V>::empty());
        m
    }

    fn find(&self, k: &K) -> (r: Option<usize>)
        ensures
            match r {
                Some(i) => i < self.entries@.len() && self.entries@[i as int].key == *k,
                None => !has_key(self.entries@, *k),
            },
    {
        let n = self.entries.len();
        let mut i: usize = 0;
        while i < n
            invariant
                n == self.entries@.len(),
                0 <= i <= n,
                forall|j: int| 0 <= j < i ==> self.entries@[j].key != *k,
            decreases n - i,
        {
            if self.entries[i].key.same_key(k) {
                return Some(i);
            }
            i = i + 1;
        }
        None
    }

    /// Whether `k` has a value.
    pub fn contains_key(&self, k: &K) -> (r: bool)
        ensures
            r == self@.dom().contains(*k),
    {
        proof {
            use_type_invariant(self);
        }
        match self.find(k) {
            Some(i) => {
                proof {
                    lemma_entry_in_map(self.entries@, i as int);
                }
                true
            },
            None => false,
        }
    }

    /// The value at `k`, if any.
    pub fn get(&self, k: &K) -> (r: Option<&V>)
        ensures
            r.is_some() == self@.dom().contains(*k),
            r.is_some() ==> *r.unwrap() == self@[*k],
    {
        proof {
            use_type_invariant(self);
        }
        match self.find(k) {
            Some(i) => {
                proof {
                    lemma_entry_in_map(self.entries@, i as int);
                }
                Some(&self.entries[i].value)
            },
            None => None,
        }
    }

    /// Sets the value at `k`, replacing any earlier one.
    pub fn insert(&mut self, k: K, v: V)
        ensures
            final(self)@ == old(self)@.insert(k, v),
    {
        proof {
            use_type_invariant(&*self);
        }
        let found = self.find(&k);
        let mut entries: Vec<Entry<K, V>> = Vec::new();
        std::mem::swap(&mut entries, &mut self.entries);
        let ghost s0 = entries@;
        match found {
            Some(i) => {
                entries.set(i, Entry { key: k, value: v });
            },
            None => {
                entries.push(Entry { key: k, value: v });
            },
        }
        let ghost s1 = entries@;
        proof {
            assert(keys_unique(s1)) by {
                assert forall|a: int, b: int|
                    0 <= a < s1.len() && 0 <= b < s1.len() && a != b implies #[trigger] s1[a].key
                    != #[trigger] s1[b].key by {
                    if found is None {
                        if a == s0.len() {
                            assert(s0[b].key == s1[b].key);
                        } else if b == s0.len() {
                            assert(s0[a].key == s1[a].key);
                        } else {
                            assert(s0[a].key == s1[a].key && s0[b].key == s1[b].key);
                        }
                    } else {
                        let fi = found->0 as int;
                        assert(s0[fi].key == k);
                        assert(s0[a].key == s1[a].key && s0[b].key == s1[b].key);
                    }
                }
            }
            let m0 = map_of_entries(s0);
            let m1 = map_of_entries(s1);
            let target = m0.insert(k, v);
            assert forall|key: K| #[trigger] m1.dom().contains(key) == target.dom().contains(key) by {
                if key == k {
                    let idx = if found is Some {
                        found->0 as int
                    } else {
                        s0.len() as int
                    };
                    lemma_entry_in_map(s1, idx);
                } else {
                    if has_key(s1, key) {
                        let j = key_index(s1, key);
                        assert(s1[j].key == key);
                        assert(s0[j].key == key);
                        lemma_entry_in_map(s0, j);
                    } else if has_key(s0, key) {
                        let j = key_index(s0, key);
                        assert(s0[j].key == key);
                        assert(s1[j].key == key);
                    }
                }
            }
            assert forall|key: K| #[trigger] m1.dom().contains(key) implies m1[key] == target[key] by {
                if key == k {
                    let idx = if found is Some {
                        found->0 as int
                    } else {
                        s0.len() as int
                    };
                    lemma_entry_in_map(s1, idx);
                } else {
                    let j = key_index(s1, key);
                    assert(s1[j].key == key);
                    assert(s0[j] == s1[j]);
                    lemma_entry_in_map(s0, j);
                    lemma_entry_in_map(s1, j);
                }
            }
            assert(m1 =~= target);
        }
        self.entries = entries;
    }
}

impl<K: MapKey, V: Copy> AssocMap<K, V> {
    /// A copy of this map.
    pub fn copy(&self) -> (r: Self)
        ensures
            r@ == self@,
    {
        proof {
            use_type_invariant(self);
        }
        let n = self.entries.len();
        let mut out: Vec<Entry<K, V>> = Vec::new();
        let mut i: usize = 0;
        while i < n
            invariant
                n == self.entries@.len(),
                0 <= i <= n,
                out@ == self.entries@.subrange(0, i as int),
            decreases n - i,
        {
            let e = Entry { key: self.entries[i].key, value: self.entries[i].value };
            out.push(e);
            i = i + 1;
            proof {
                assert(out@ =~= self.entries@.subrange(0, i as int));
            }
        }
        proof {
            assert(out@ =~= self.entries@);
        }
        AssocMap { entries: out }
    }
}

} // verus!
