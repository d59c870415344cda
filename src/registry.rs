//! A registry that hands out dense integer ids for keys, in first-seen order.
use std::collections::hash_map::DefaultHasher;
use std::collections::HashMap;
use std::hash::Hasher;
use vstd::prelude::*;
use vstd::std_specs::hash::DefaultHasherAdditionalSpecFns;
use vstd::std_specs::iter::IteratorSpec;
use vstd::utf8::encode_utf8;

verus! {

broadcast use vstd::std_specs::hash::group_hash_axioms;

/// What `entry` did with a key: found its id, or gave it a new one.
#[derive(Debug, PartialEq, Eq, Structural)]
pub enum Index {
    Fetched(usize),
    Inserted(usize),
}

impl Index {
    /// The id carried by either variant.
    pub open spec fn id(self) -> usize {
        match self {
            Index::Fetched(index) => index,
            Index::Inserted(index) => index,
        }
    }

    pub fn get_value(&self) -> (r: &usize)
        ensures
            *r == self.id(),
    {
        match self {
            Index::Fetched(index) => index,
            Index::Inserted(index) => index,
        }
    }
}

/// A key that the registry can hold: hashed and compared through its view.
pub trait RegistryKey: View + Sized {
    /// The hash of a key, a function of its view alone.
    spec fn spec_hash(k: Self::V) -> u64;

    fn key_hash(&self) -> (r: u64)
        ensures
            r == Self::spec_hash(self@),
    ;

    fn same_key(&self, other: &Self) -> (r: bool)
        ensures
            r == (self@ == other@),
    ;

    fn copy_key(&self) -> (r: Self)
        ensures
            r@ == self@,
    ;
}

fn hash_text(s: &String) -> (r: u64)
    ensures
        r == DefaultHasher::spec_finish(seq![encode_utf8(s@)]),
{
    let mut hasher = DefaultHasher::new();
    hasher.write(s.as_str().as_bytes());
    proof {
        assert(hasher@ =~= seq![encode_utf8(s@)]);
    }
    hasher.finish()
}

impl RegistryKey for String {
    open spec fn spec_hash(k: Seq<char>) -> u64 {
        DefaultHasher::spec_finish(seq![encode_utf8(k)])
    }

    fn key_hash(&self) -> (r: u64) {
        hash_text(self)
    }

    fn same_key(&self, other: &Self) -> (r: bool) {
        <String as PartialEq>::eq(self, other)
    }

    fn copy_key(&self) -> (r: Self) {
        self.clone()
    }
}


/// A pair of texts (a venue and a currency) as a key.
impl RegistryKey for (String, String) {
    open spec fn spec_hash(k: (Seq<char>, Seq<char>)) -> u64 {
        DefaultHasher::spec_finish(seq![encode_utf8(k.0), encode_utf8(k.1)])
    }

    fn key_hash(&self) -> (r: u64) {
        let mut hasher = DefaultHasher::new();
        hasher.write(self.0.as_str().as_bytes());
        hasher.write(self.1.as_str().as_bytes());
        proof {
            assert(hasher@ =~= seq![encode_utf8(self.0@), encode_utf8(self.1@)]);
        }
        hasher.finish()
    }

    fn same_key(&self, other: &Self) -> (r: bool) {
        <String as PartialEq>::eq(&self.0, &other.0) && <String as PartialEq>::eq(&self.1, &other.1)
    }

    fn copy_key(&self) -> (r: Self) {
        (self.0.clone(), self.1.clone())
    }
}

/// A triple of texts (a venue and two currencies) as a key.
impl RegistryKey for (String, String, String) {
    open spec fn spec_hash(k: (Seq<char>, Seq<char>, Seq<char>)) -> u64 {
        DefaultHasher::spec_finish(seq![encode_utf8(k.0), encode_utf8(k.1), encode_utf8(k.2)])
    }

    fn key_hash(&self) -> (r: u64) {
        let mut hasher = DefaultHasher::new();
        hasher.write(self.0.as_str().as_bytes());
        hasher.write(self.1.as_str().as_bytes());
        hasher.write(self.2.as_str().as_bytes());
        proof {
            assert(hasher@ =~= seq![encode_utf8(self.0@), encode_utf8(self.1@), encode_utf8(self.2@)]);
        }
        hasher.finish()
    }

    fn same_key(&self, other: &Self) -> (r: bool) {
        <String as PartialEq>::eq(&self.0, &other.0) && <String as PartialEq>::eq(&self.1, &other.1)
            && <String as PartialEq>::eq(&self.2, &other.2)
    }

    fn copy_key(&self) -> (r: Self) {
        (self.0.clone(), self.1.clone(), self.2.clone())
    }
}

/// The result of `entry(key)` on a registry whose keys, by id, are `keys`.
pub open spec fn entry_index<V>(keys: Seq<V>, key: V) -> Index {
    if keys.contains(key) {
        Index::Fetched(keys.index_of(key) as usize)
    } else {
        Index::Inserted(keys.len() as usize)
    }
}

/// The keys, by id, after `entry(key)` on a registry whose keys are `keys`.
pub open spec fn entered<V>(keys: Seq<V>, key: V) -> Seq<V> {
    if keys.contains(key) {
        keys
    } else {
        keys.push(key)
    }
}

/// In a sequence without duplicates, an element sits at one index only.
pub proof fn lemma_index_of_unique<V>(keys: Seq<V>, key: V, i: int)
    requires
        keys.no_duplicates(),
        0 <= i < keys.len(),
        keys[i] == key,
    ensures
        keys.index_of(key) == i,
{
    assert(keys.contains(key));
    let j = keys.index_of(key);
    assert(keys[j] == key);
}

/// Entering a key keeps the keys free of duplicates and the new key's id
/// names it.
pub proof fn lemma_entered<V>(keys: Seq<V>, key: V)
    requires
        keys.no_duplicates(),
        keys.len() < usize::MAX,
    ensures
        entered(keys, key).no_duplicates(),
        entered(keys, key).len() <= keys.len() + 1,
        entry_index(keys, key).id() < entered(keys, key).len(),
        entered(keys, key)[entry_index(keys, key).id() as int] == key,
        forall|i: int| 0 <= i < keys.len() ==> entered(keys, key)[i] == keys[i],
{
    if keys.contains(key) {
        let j = keys.index_of(key);
        assert(keys[j] == key);
    } else {
        let s1 = keys.push(key);
        assert forall|a: int, b: int| 0 <= a < b < s1.len() implies s1[a] != s1[b] by {
            if b == keys.len() {
                assert(keys[a] == s1[a]);
            } else {
                assert(keys[a] == s1[a] && keys[b] == s1[b]);
            }
        }
    }
}

/// Two different keys, entered one after the other into a registry that
/// holds no key twice, receive two different ids.
pub proof fn lemma_distinct_keys_distinct_ids<V>(keys: Seq<V>, k1: V, k2: V)
    requires
        keys.no_duplicates(),
        keys.len() + 1 < usize::MAX,
        k1 != k2,
    ensures
        entry_index(keys, k1).id() != entry_index(entered(keys, k1), k2).id(),
{
    lemma_entered(keys, k1);
    lemma_entered(entered(keys, k1), k2);
    let s1 = entered(keys, k1);
    let i1 = entry_index(keys, k1).id() as int;
    assert(s1[i1] == k1);
    assert(entered(s1, k2)[i1] == k1);
}

/// Entering the same key twice gives the same id both times, tagged as
/// found the second time, and the second call changes nothing.
pub proof fn lemma_entry_twice<V>(keys: Seq<V>, key: V)
    requires
        keys.no_duplicates(),
        keys.len() < usize::MAX,
    ensures
        entry_index(entered(keys, key), key) == Index::Fetched(entry_index(keys, key).id()),
        entered(entered(keys, key), key) == entered(keys, key),
{
    lemma_entered(keys, key);
    let s1 = entered(keys, key);
    let i1 = entry_index(keys, key).id() as int;
    assert(s1.contains(key));
    lemma_index_of_unique(s1, key, i1);
}

/// Dense ids for keys: a list of keys in id order, and a table from each
/// key's hash to the ids of the keys with that hash.
#[derive(Debug)]
pub struct IndexHashMap<K> {
    hash_map: HashMap<u64, Vec<usize>>,
    indices: Vec<K>,
}

impl<K: RegistryKey> View for IndexHashMap<K> {
    type V = Seq<K::V>;

    /// The keys, by id.
    closed spec fn view(&self) -> Seq<K::V> {
        self.indices@.map_values(|k: K| k@)
    }
}

impl<K: RegistryKey> IndexHashMap<K> {
    /// The hash table finds every id from its key's hash, and holds no other.
    pub closed spec fn lookup_inv(&self) -> bool {
        &&& self.indices@.len() <= usize::MAX
        &&& forall|i: int|
            0 <= i < self.indices@.len() ==> {
                let h = K::spec_hash(#[trigger] self.indices@[i]@);
                self.hash_map@.contains_key(h) && self.hash_map@[h]@.contains(i as usize)
            }
        &&& forall|h: u64, j: int|
            #![trigger self.hash_map@[h]@[j]]
            self.hash_map@.contains_key(h) && 0 <= j < self.hash_map@[h]@.len() ==> {
                let id = self.hash_map@[h]@[j];
                &&& id < self.indices@.len()
                &&& K::spec_hash(self.indices@[id as int]@) == h
            }
    }

    /// Well-formed: lookups are exact and no key has two ids.
    pub open spec fn wf(&self) -> bool {
        &&& self.lookup_inv()
        &&& self@.no_duplicates()
    }

    pub fn new() -> (r: Self)
        ensures
            r.wf(),
            r@ == Seq::<K::V>::empty(),
    {
        let r = IndexHashMap { hash_map: HashMap::new(), indices: Vec::new() };
        assert(r@ =~= Seq::<K::V>::empty());
        r
    }

    pub fn get(&self, key: &K) -> (r: Option<&usize>)
        requires
            self.wf(),
        ensures
            match r {
                Some(i) => *i < self@.len() && self@[*i as int] == key@,
                None => !self@.contains(key@),
            },
    {
        let h = key.key_hash();
        match self.hash_map.get(&h) {
            None => {
                proof {
                    if self@.contains(key@) {
                        let i = choose|i: int| 0 <= i < self@.len() && self@[i] == key@;
                        assert(self.indices@[i]@ == key@);
                    }
                }
                None
            },
            Some(bucket) => {
                let mut j: usize = 0;
                while j < bucket.len()
                    invariant
                        self.wf(),
                        self.hash_map@.contains_key(h),
                        *bucket == self.hash_map@[h],
                        h == K::spec_hash(key@),
                        j <= bucket@.len(),
                        forall|t: int| 0 <= t < j ==> self@[bucket@[t] as int] != key@,
                    decreases bucket@.len() - j,
                {
                    let id = bucket[j];
                    assert(self.hash_map@[h]@[j as int] == id);
                    assert(id < self.indices@.len());
                    assert(self@[id as int] == self.indices@[id as int]@);
                    if self.indices[id].same_key(key) {
                        let found = &bucket[j];
                        assert(*found == id);
                        assert(self@[*found as int] == key@);
                        assert(*found < self@.len());
                        return Some(found);
                    }
                    j += 1;
                }
                proof {
                    if self@.contains(key@) {
                        let i = choose|i: int| 0 <= i < self@.len() && self@[i] == key@;
                        assert(self.indices@[i]@ == key@);
                        assert(bucket@.contains(i as usize));
                        let t = choose|t: int| 0 <= t < bucket@.len() && bucket@[t] == i as usize;
                        assert(self@[bucket@[t] as int] != key@);
                    }
                }
                None
            },
        }
    }

    pub fn contains(&self, key: &K) -> (r: bool)
        requires
            self.wf(),
        ensures
            r == self@.contains(key@),
    {
        match self.get(key) {
            Some(_) => true,
            None => false,
        }
    }

    pub fn get_index(&self, index: &usize) -> (r: Option<&K>)
        requires
            self.wf(),
        ensures
            match r {
                Some(k) => *index < self@.len() && k@ == self@[*index as int],
                None => *index >= self@.len(),
            },
    {
        if *index < self.indices.len() {
            Some(&self.indices[*index])
        } else {
            None
        }
    }

    pub fn contains_index(&self, index: &usize) -> (r: bool)
        requires
            self.wf(),
        ensures
            r == (*index < self@.len()),
    {
        *index < self.indices.len()
    }

    /// The keys in id order.
    pub fn iter(&self) -> (r: std::slice::Iter<'_, K>)
        ensures
            r.remaining().map_values(|k: &K| k@) == self@,
    {
        let r = self.indices.as_slice().iter();
        assert(r.remaining().map_values(|k: &K| k@) =~= self@);
        r
    }

    pub fn len(&self) -> (r: usize)
        ensures
            r == self@.len(),
    {
        self.indices.len()
    }

    pub fn entry(&mut self, key: K) -> (r: Index)
        requires
            old(self).wf(),
            old(self)@.len() < usize::MAX,
        ensures
            final(self).wf(),
            r == entry_index(old(self)@, key@),
            final(self)@ == entered(old(self)@, key@),
    {
        let found: Option<usize> = match self.get(&key) {
            Some(index) => Some(*index),
            None => None,
        };
        match found {
            Some(index) => {
                proof {
                    lemma_index_of_unique(self@, key@, index as int);
                }
                Index::Fetched(index)
            },
            None => {
                let ghost old_map = self.hash_map@;
                let ghost old_keys = self.indices@;
                let h = key.key_hash();
                let index = self.indices.len();
                self.indices.push(key);
                let mut bucket = match self.hash_map.remove(&h) {
                    Some(b) => b,
                    None => Vec::new(),
                };
                bucket.push(index);
                self.hash_map.insert(h, bucket);
                proof {
                    assert(self@ =~= old(self)@.push(key@));
                    assert forall|i: int| 0 <= i < self.indices@.len() implies {
                        let hi = K::spec_hash(#[trigger] self.indices@[i]@);
                        self.hash_map@.contains_key(hi) && self.hash_map@[hi]@.contains(i as usize)
                    } by {
                        let hi = K::spec_hash(self.indices@[i]@);
                        if i < index {
                            assert(old_keys[i] == self.indices@[i]);
                            if hi == h {
                                let t = choose|t: int| 0 <= t < old_map[h]@.len() && old_map[h]@[t] == i as usize;
                                assert(self.hash_map@[h]@[t] == i as usize);
                            }
                        } else {
                            assert(self.hash_map@[h]@[self.hash_map@[h]@.len() - 1] == index);
                        }
                    }
                    assert forall|hh: u64, j: int|
                        self.hash_map@.contains_key(hh) && 0 <= j < self.hash_map@[hh]@.len() implies {
                            let id = #[trigger] self.hash_map@[hh]@[j];
                            &&& id < self.indices@.len()
                            &&& K::spec_hash(self.indices@[id as int]@) == hh
                        } by {
                        if hh != h {
                            assert(old_map[hh]@[j] == self.hash_map@[hh]@[j]);
                        } else if j < self.hash_map@[hh]@.len() - 1 {
                            assert(old_map[hh]@[j] == self.hash_map@[hh]@[j]);
                        }
                    }
                    assert(self@.no_duplicates()) by {
                        assert forall|a: int, b: int| 0 <= a < b < self@.len() implies self@[a] != self@[b] by {
                            if b == index {
                                assert(old(self)@[a] == self@[a]);
                            } else {
                                assert(old(self)@[a] == self@[a]);
                                assert(old(self)@[b] == self@[b]);
                            }
                        }
                    }
                }
                Index::Inserted(index)
            },
        }
    }
}

} // verus!
