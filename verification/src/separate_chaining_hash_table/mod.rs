//! A hash table that keeps the entries of each bucket in a chain.

pub mod chains;
pub mod entry;
pub mod iterator;

use crate::exceptions::Exceptions;
use chains::{
    bucket_of, byte_sum, chains_map, chains_wf, distinct_keys, distributed, lemma_chain_hit,
    lemma_chain_miss, lemma_chains_push, lemma_chains_remove, lemma_chains_set,
    lemma_chain_position, lemma_distributed_push, lemma_flatten_map, lemma_pairs_map_len, lemma_pairs_map_push,
    pairs_map, spec_hash, with_value, without_key,
};
use entry::Entry;
use iterator::SeparateChainingHashTableIterator;
use vstd::prelude::*;

verus! {

/// A table of a fixed number of buckets. An entry sits in the bucket that the
/// hash of its key selects, behind the entries that were put there before it.
/// The number of buckets changes only through `rehashing`.
///
/// The view of a table is the map from its keys to their values.
pub struct SeparateChainingHashTable<T: Clone> {
    buckets: Vec<Vec<Entry<T>>>,
    entries_len: usize,
}

/// What looking `key` up in `entries` answers: its value, or
/// `KeyNotInitialized` where it has none.
pub open spec fn value_of<T>(entries: Map<Seq<char>, T>, key: Seq<char>) -> Result<T, Exceptions> {
    if entries.contains_key(key) {
        Ok(entries[key])
    } else {
        Err(Exceptions::KeyNotInitialized)
    }
}

/// What storing a new pair under `key` in `entries` answers: done, or
/// `DuplicateKey` where the key has a value already.
pub open spec fn insert_outcome<T>(entries: Map<Seq<char>, T>, key: Seq<char>) -> Result<
    (),
    Exceptions,
> {
    if entries.contains_key(key) {
        Err(Exceptions::DuplicateKey)
    } else {
        Ok(())
    }
}

impl<T: Clone> View for SeparateChainingHashTable<T> {
    type V = Map<Seq<char>, T>;

    closed spec fn view(&self) -> Map<Seq<char>, T> {
        chains_map(self.chains())
    }
}


impl<T: Clone> SeparateChainingHashTable<T> {
    /// The key-value pairs of each bucket, in the order of its chain.
    pub closed spec fn chains(&self) -> Seq<Seq<(Seq<char>, T)>> {
        Seq::new(
            self.buckets.len() as nat,
            |b: int| Seq::new(self.buckets[b].len() as nat, |i: int| self.buckets[b][i]@),
        )
    }

    /// Every key-value pair, bucket after bucket and each bucket in the order
    /// of its chain.
    pub open spec fn entries(&self) -> Seq<(Seq<char>, T)> {
        self.chains().flatten()
    }

    /// The number of key-value pairs.
    pub closed spec fn spec_entries_len(&self) -> usize {
        self.entries_len
    }

    /// The representation invariant: the chains are well-formed and the
    /// counter agrees with them.
    pub closed spec fn wf(&self) -> bool {
        &&& chains_wf(self.chains())
        &&& self.entries_len == self.chains().flatten().len()
    }

    /// The chains of a well-formed table are well-formed and stand for its
    /// view. Its pairs have distinct keys, the table maps each of these keys
    /// to the value it is paired with, and it has no other key: the counter is
    /// the number of keys.
    pub proof fn lemma_entries(&self)
        requires
            self.wf(),
        ensures
            chains_wf(self.chains()),
            self@ == chains_map(self.chains()),
            self.entries_len() == self.entries().len(),
            distinct_keys(self.entries()),
            self@ == pairs_map(self.entries()),
            self@.dom().finite(),
            self@.dom().len() == self.entries_len(),
    {
        lemma_flatten_map(self.chains());
        lemma_pairs_map_len(self.entries());
    }

    /// Creates a table of `capacity` empty buckets.
    pub fn new(capacity: usize) -> (table: Self)
        requires
            capacity > 0,
        ensures
            table.wf(),
            table@ == Map::<Seq<char>, T>::empty(),
            table.entries_len() == 0,
            table.chains() == Seq::new(capacity as nat, |b: int| Seq::<(Seq<char>, T)>::empty()),
    {
        let buckets = Self::empty_buckets(capacity);
        let table = Self { buckets, entries_len: 0 };
        proof {
            let empty = Seq::new(capacity as nat, |b: int| Seq::<(Seq<char>, T)>::empty());
            assert(table.chains() =~~= empty);
            lemma_flatten_of_empty_chains::<(Seq<char>, T)>(table.chains());
        }
        table
    }

    /// `capacity` buckets without entries.
    fn empty_buckets(capacity: usize) -> (buckets: Vec<Vec<Entry<T>>>)
        ensures
            buckets.len() == capacity,
            forall|b: int| 0 <= b < capacity ==> (#[trigger] buckets[b]).len() == 0,
    {
        let mut buckets: Vec<Vec<Entry<T>>> = Vec::with_capacity(capacity);
        let mut made: usize = 0;
        while made < capacity
            invariant
                made <= capacity,
                buckets.len() == made,
                forall|b: int| 0 <= b < made ==> (#[trigger] buckets[b]).len() == 0,
            decreases capacity - made,
        {
            buckets.push(Vec::new());
            made += 1;
        }
        buckets
    }

    /// The hash of `value`: the sum of the bytes of its UTF-8 encoding,
    /// wrapped to the width of `usize`.
    pub fn hash(value: &String) -> (h: usize)
        ensures
            h == spec_hash(value@),
    {
        let bytes = value.as_str().as_bytes();
        let mut h: usize = 0;
        let mut i: usize = 0;
        while i < bytes.len()
            invariant
                i <= bytes.len(),
                bytes@ == vstd::utf8::encode_utf8(value@),
                h == byte_sum(bytes@.take(i as int)) % (usize::MAX as nat + 1),
            decreases bytes.len() - i,
        {
            proof {
                assert(bytes@.take(i + 1).drop_last() =~= bytes@.take(i as int));
                lemma_wrapping_step(byte_sum(bytes@.take(i as int)), h, bytes[i as int]);
            }
            h = h.wrapping_add(bytes[i] as usize);
            i += 1;
        }
        assert(bytes@.take(i as int) =~= bytes@);
        h
    }

    /// Where in the chain of bucket `index` the entry of `key` sits, if the
    /// chain has one.
    fn position(&self, index: usize, key: &String) -> (found: Option<usize>)
        requires
            index < self.buckets.len(),
        ensures
            match found {
                Some(i) => i < self.buckets[index as int].len() && self.buckets[index as int][i as int]@.0
                    == key@,
                None => forall|i: int|
                    0 <= i < self.buckets[index as int].len() ==> (
                    #[trigger] self.buckets[index as int][i])@.0 != key@,
            },
    {
        let bucket = &self.buckets[index];
        let mut i: usize = 0;
        while i < bucket.len()
            invariant
                i <= bucket.len(),
                *bucket == self.buckets[index as int],
                forall|j: int| 0 <= j < i ==> (#[trigger] bucket[j])@.0 != key@,
            decreases bucket.len() - i,
        {
            if bucket[i].compare_key(key) {
                return Some(i);
            }
            i += 1;
        }
        None
    }

    /// The value stored under `key`, or `KeyNotInitialized` where there is
    /// none.
    pub fn get(&self, key: &str) -> (found: Result<&T, Exceptions>)
        requires
            self.wf(),
        ensures
            match found {
                Ok(value) => value_of(self@, key@) == Ok::<T, Exceptions>(*value),
                Err(error) => value_of(self@, key@) == Err::<T, Exceptions>(error),
            },
    {
        let key: String = key.to_owned();
        let index = Self::hash(&key) % self.buckets.len();
        match self.position(index, &key) {
            Some(i) => {
                proof {
                    lemma_chain_hit(self.chains(), key@, i as int);
                }
                Ok(self.buckets[index][i].get())
            },
            None => {
                proof {
                    lemma_chain_miss(self.chains(), key@);
                }
                Err(Exceptions::KeyNotInitialized)
            },
        }
    }

    /// The value stored under `key`, for writing through, or
    /// `KeyNotInitialized` where there is none. What the caller stores through
    /// the reference is the only change to the table.
    pub fn get_mut(&mut self, key: &str) -> (found: Result<&mut T, Exceptions>)
        requires
            old(self).wf(),
        ensures
            final(self).wf(),
            final(self).entries_len() == old(self).entries_len(),
            final(self).chains().len() == old(self).chains().len(),
            match found {
                Ok(value) => {
                    &&& value_of(old(self)@, key@) == Ok::<T, Exceptions>(*value)
                    &&& final(self)@ == old(self)@.insert(key@, *final(value))
                    &&& final(self).chains() == with_value(old(self).chains(), key@, *final(value))
                },
                Err(error) => {
                    &&& value_of(old(self)@, key@) == Err::<T, Exceptions>(error)
                    &&& final(self)@ == old(self)@
                    &&& final(self).chains() == old(self).chains()
                },
            },
    {
        let key: String = key.to_owned();
        let index = Self::hash(&key) % self.buckets.len();
        match self.position(index, &key) {
            Some(i) => {
                let ghost before = self.chains();
                proof {
                    lemma_chain_hit(before, key@, i as int);
                }
                let value = self.buckets[index][i].get_mut();
                proof {
                    lemma_chains_set(before, key@, i as int, *final(value));
                    lemma_chain_position(before, key@, i as int);
                    assert(after_borrow(*self).chains() =~~= before.update(
                        index as int,
                        before[index as int].update(i as int, (key@, *final(value))),
                    ));
                }
                Ok(value)
            },
            None => {
                proof {
                    lemma_chain_miss(self.chains(), key@);
                }
                Err(Exceptions::KeyNotInitialized)
            },
        }
    }

    /// Replaces the value stored under `key`; `KeyNotInitialized` where there
    /// is none, and then nothing changes: `set` never adds a key.
    pub fn set(&mut self, key: &str, value: T) -> (done: Result<(), Exceptions>)
        requires
            old(self).wf(),
        ensures
            final(self).wf(),
            final(self).entries_len() == old(self).entries_len(),
            final(self).chains().len() == old(self).chains().len(),
            match done {
                Ok(_) => {
                    &&& old(self)@.contains_key(key@)
                    &&& final(self)@ == old(self)@.insert(key@, value)
                    &&& final(self).chains() == with_value(old(self).chains(), key@, value)
                },
                Err(error) => {
                    &&& value_of(old(self)@, key@) == Err::<T, Exceptions>(error)
                    &&& final(self)@ == old(self)@
                    &&& final(self).chains() == old(self).chains()
                },
            },
    {
        let key: String = key.to_owned();
        let index = Self::hash(&key) % self.buckets.len();
        match self.position(index, &key) {
            Some(i) => {
                let ghost before = self.chains();
                proof {
                    lemma_chain_hit(before, key@, i as int);
                    lemma_chains_set(before, key@, i as int, value);
                    lemma_chain_position(before, key@, i as int);
                }
                self.buckets[index][i].set(value);
                assert(self.chains() =~~= before.update(
                    index as int,
                    before[index as int].update(i as int, (key@, value)),
                ));
                Ok(())
            },
            None => {
                proof {
                    lemma_chain_miss(self.chains(), key@);
                }
                Err(Exceptions::KeyNotInitialized)
            },
        }
    }

    /// Stores `value` under `key`, at the end of the chain of the key's
    /// bucket; `DuplicateKey` where the key has a value already, and then
    /// nothing changes.
    pub fn insert(&mut self, key: &str, value: T) -> (done: Result<(), Exceptions>)
        requires
            old(self).wf(),
            !old(self)@.contains_key(key@) ==> old(self).entries_len() < usize::MAX,
        ensures
            final(self).wf(),
            done == insert_outcome(old(self)@, key@),
            match done {
                Ok(_) => {
                    &&& final(self)@ == old(self)@.insert(key@, value)
                    &&& final(self).entries_len() == old(self).entries_len() + 1
                    &&& final(self).chains() == old(self).chains().update(
                        bucket_of(key@, old(self).chains().len()),
                        old(self).chains()[bucket_of(key@, old(self).chains().len())].push(
                            (key@, value),
                        ),
                    )
                },
                Err(_) => {
                    &&& final(self)@ == old(self)@
                    &&& final(self).chains() == old(self).chains()
                    &&& final(self).entries_len() == old(self).entries_len()
                },
            },
    {
        let key: String = key.to_owned();
        let index = Self::hash(&key) % self.buckets.len();
        match self.position(index, &key) {
            Some(i) => {
                proof {
                    lemma_chain_hit(self.chains(), key@, i as int);
                }
                Err(Exceptions::DuplicateKey)
            },
            None => {
                let ghost before = self.chains();
                proof {
                    lemma_chain_miss(before, key@);
                    lemma_chains_push(before, key@, value);
                }
                let entry = Entry::new(key, value);
                self.buckets[index].push(entry);
                self.entries_len += 1;
                assert(self.chains() =~~= before.update(
                    index as int,
                    before[index as int].push((key@, value)),
                ));
                Ok(())
            },
        }
    }

    /// Takes the entry of `key` out of its chain and hands its value back;
    /// `KeyNotInitialized` where there is none, and then nothing changes.
    pub fn remove(&mut self, key: &str) -> (removed: Result<T, Exceptions>)
        requires
            old(self).wf(),
        ensures
            final(self).wf(),
            final(self).chains().len() == old(self).chains().len(),
            match removed {
                Ok(value) => {
                    &&& value_of(old(self)@, key@) == Ok::<T, Exceptions>(value)
                    &&& final(self)@ == old(self)@.remove(key@)
                    &&& final(self).entries_len() == old(self).entries_len() - 1
                    &&& final(self).chains() == without_key(old(self).chains(), key@)
                },
                Err(error) => {
                    &&& value_of(old(self)@, key@) == Err::<T, Exceptions>(error)
                    &&& final(self)@ == old(self)@
                    &&& final(self).chains() == old(self).chains()
                    &&& final(self).entries_len() == old(self).entries_len()
                },
            },
    {
        let key: String = key.to_owned();
        let index = Self::hash(&key) % self.buckets.len();
        match self.position(index, &key) {
            Some(i) => {
                let ghost before = self.chains();
                proof {
                    lemma_chain_hit(before, key@, i as int);
                    lemma_chains_remove(before, key@, i as int);
                    lemma_chain_position(before, key@, i as int);
                }
                let entry: Entry<T> = self.buckets[index].remove(i);
                self.entries_len -= 1;
                assert(self.chains() =~~= before.update(
                    index as int,
                    before[index as int].remove(i as int),
                ));
                Ok(entry.into_parts().1)
            },
            None => {
                proof {
                    lemma_chain_miss(self.chains(), key@);
                }
                Err(Exceptions::KeyNotInitialized)
            },
        }
    }

    /// The values, bucket after bucket and each bucket in the order of its
    /// chain.
    pub fn get_values(&self) -> (values: Vec<&T>)
        ensures
            values@.len() == self.entries().len(),
            forall|k: int| 0 <= k < values@.len() ==> *(#[trigger] values@[k]) == self.entries()[k].1,
    {
        let pairs = self.get_entries();
        let mut values: Vec<&T> = Vec::with_capacity(pairs.len());
        let mut taken: usize = 0;
        while taken < pairs.len()
            invariant
                taken <= pairs@.len(),
                pairs@.len() == self.entries().len(),
                forall|k: int|
                    0 <= k < pairs@.len() ==> ((#[trigger] pairs@[k]).0@, *pairs@[k].1)
                        == self.entries()[k],
                values@.len() == taken,
                forall|k: int| 0 <= k < taken ==> *(#[trigger] values@[k]) == self.entries()[k].1,
            decreases pairs@.len() - taken,
        {
            let pair = pairs[taken];
            values.push(pair.1);
            taken += 1;
        }
        values
    }

    /// The keys, bucket after bucket and each bucket in the order of its
    /// chain.
    pub fn get_keys(&self) -> (keys: Vec<&String>)
        ensures
            keys@.len() == self.entries().len(),
            forall|k: int| 0 <= k < keys@.len() ==> (#[trigger] keys@[k])@ == self.entries()[k].0,
    {
        let pairs = self.get_entries();
        let mut keys: Vec<&String> = Vec::with_capacity(pairs.len());
        let mut taken: usize = 0;
        while taken < pairs.len()
            invariant
                taken <= pairs@.len(),
                pairs@.len() == self.entries().len(),
                forall|k: int|
                    0 <= k < pairs@.len() ==> ((#[trigger] pairs@[k]).0@, *pairs@[k].1)
                        == self.entries()[k],
                keys@.len() == taken,
                forall|k: int| 0 <= k < taken ==> (#[trigger] keys@[k])@ == self.entries()[k].0,
            decreases pairs@.len() - taken,
        {
            let pair = pairs[taken];
            keys.push(pair.0);
            taken += 1;
        }
        keys
    }

    /// The keys with their values, bucket after bucket and each bucket in the
    /// order of its chain.
    pub fn get_entries(&self) -> (pairs: Vec<(&String, &T)>)
        ensures
            pairs@.len() == self.entries().len(),
            forall|k: int|
                0 <= k < pairs@.len() ==> ((#[trigger] pairs@[k]).0@, *pairs@[k].1)
                    == self.entries()[k],
    {
        let mut pairs: Vec<(&String, &T)> = Vec::with_capacity(self.entries_len);
        let mut b: usize = 0;
        while b < self.buckets.len()
            invariant
                b <= self.buckets.len(),
                pairs@.len() == self.chains().take(b as int).flatten().len(),
                forall|k: int|
                    0 <= k < pairs@.len() ==> ((#[trigger] pairs@[k]).0@, *pairs@[k].1)
                        == self.chains().take(b as int).flatten()[k],
            decreases self.buckets.len() - b,
        {
            let entries = &self.buckets[b];
            let ghost front = self.chains().take(b as int).flatten();
            let mut i: usize = 0;
            while i < entries.len()
                invariant
                    b < self.buckets.len(),
                    *entries == self.buckets[b as int],
                    i <= entries.len(),
                    front == self.chains().take(b as int).flatten(),
                    pairs@.len() == front.len() + i,
                    forall|k: int|
                        0 <= k < pairs@.len() ==> ((#[trigger] pairs@[k]).0@, *pairs@[k].1) == (front
                            + self.chains()[b as int])[k],
                decreases entries.len() - i,
            {
                pairs.push(entries[i].get_entry());
                i += 1;
            }
            proof {
                lemma_flatten_take_next(self.chains(), b as int);
            }
            b += 1;
        }
        assert(self.chains().take(b as int) =~= self.chains());
        pairs
    }

    /// The number of buckets that hold at least one entry.
    pub fn buckets_len(&self) -> (used: usize)
        ensures
            used == self.chains().filter(|chain: Seq<(Seq<char>, T)>| chain.len() > 0).len(),
    {
        let ghost occupied = |chain: Seq<(Seq<char>, T)>| chain.len() > 0;
        let mut used: usize = 0;
        let mut b: usize = 0;
        while b < self.buckets.len()
            invariant
                b <= self.buckets.len(),
                used <= b,
                occupied == |chain: Seq<(Seq<char>, T)>| chain.len() > 0,
                used == self.chains().take(b as int).filter(occupied).len(),
            decreases self.buckets.len() - b,
        {
            proof {
                assert(self.chains().take(b + 1) =~= self.chains().take(b as int).push(
                    self.chains()[b as int],
                ));
                self.chains().take(b as int).lemma_filter_push(self.chains()[b as int], occupied);
            }
            if !self.buckets[b].is_empty() {
                used += 1;
            }
            b += 1;
        }
        assert(self.chains().take(b as int) =~= self.chains());
        used
    }

    /// Rebuilds the table with `capacity` buckets: every pair is taken in
    /// again, in the order of `entries`, under the new number of buckets.
    pub fn rehashing(&mut self, capacity: usize)
        requires
            old(self).wf(),
            capacity > 0,
        ensures
            final(self).wf(),
            final(self)@ == old(self)@,
            final(self).entries_len() == old(self).entries_len(),
            final(self).chains() == distributed(old(self).entries(), capacity as nat),
    {
        let ghost before = self.chains();
        let ghost all = before.flatten();
        let mut buckets = Self::empty_buckets(capacity);
        std::mem::swap(&mut self.buckets, &mut buckets);
        self.entries_len = 0;
        proof {
            lemma_flatten_map(before);
            assert(all.take(0) =~= Seq::empty());
            assert(self.chains() =~~= distributed(all.take(0), capacity as nat));
            lemma_flatten_of_empty_chains::<(Seq<char>, T)>(self.chains());
        }
        let mut b: usize = 0;
        while b < buckets.len()
            invariant
                capacity > 0,
                b <= buckets.len(),
                buckets.len() == before.len(),
                all == before.flatten(),
                all.len() <= usize::MAX,
                distinct_keys(all),
                forall|c: int|
                    b <= c < buckets.len() ==> (#[trigger] buckets[c])@.len() == before[c].len(),
                forall|c: int, i: int|
                    b <= c < buckets.len() && 0 <= i < before[c].len() ==> (
                    #[trigger] buckets[c][i])@ == before[c][i],
                self.wf(),
                self.entries_len == before.take(b as int).flatten().len(),
                self.chains() == distributed(before.take(b as int).flatten(), capacity as nat),
                self@ == pairs_map(before.take(b as int).flatten()),
            decreases buckets.len() - b,
        {
            let mut entries: Vec<Entry<T>> = Vec::new();
            std::mem::swap(&mut entries, &mut buckets[b]);
            let ghost front = before.take(b as int).flatten();
            proof {
                lemma_flatten_take_next(before, b as int);
                lemma_flatten_prefix(before, b + 1);
            }
            let ghost chain = before[b as int];
            for entry in it: entries
                invariant
                    capacity > 0,
                    it.seq().len() == chain.len(),
                    forall|i: int| 0 <= i < chain.len() ==> (#[trigger] it.seq()[i])@ == chain[i],
                    front.len() + chain.len() <= all.len(),
                    all.len() <= usize::MAX,
                    distinct_keys(all),
                    all.take((front.len() + chain.len()) as int) == front + chain,
                    self.wf(),
                    self.entries_len == front.len() + it.index(),
                    self.chains() == distributed(front + chain.take(it.index() as int), capacity as nat),
                    self@ == pairs_map(front + chain.take(it.index() as int)),
            {
                let ghost done = front + chain.take(it.index() as int);
                let ghost pair = chain[it.index() as int];
                proof {
                    assert(done.push(pair) =~= front + chain.take(it.index() + 1));
                    assert(done.push(pair) =~= all.take(front.len() as int + it.index() + 1));
                    lemma_pairs_map_push(done, pair);
                    lemma_distributed_push(done, pair, capacity as nat);
                }
                let (key, value) = entry.into_parts();
                let _ = self.insert(key.as_str(), value);
            }
            proof {
                assert(chain.take(chain.len() as int) =~= chain);
            }
            b += 1;
        }
        proof {
            assert(before.take(b as int) =~= before);
        }
    }

    /// A walk over the pairs of the table, in the order of `entries`.
    pub fn iter(&self) -> (walk: SeparateChainingHashTableIterator<'_, T>)
        ensures
            walk.position() == 0,
            walk.pairs() == self.entries(),
    {
        let walk = SeparateChainingHashTableIterator::new(self.get_entries());
        walk
    }

    /// The number of key-value pairs, which in a well-formed table is the
    /// number of keys.
    #[verifier::when_used_as_spec(spec_entries_len)]
    pub fn entries_len(&self) -> (len: usize)
        ensures
            len == self.spec_entries_len(),
            self.wf() ==> len == self.entries().len() && len == self@.dom().len(),
    {
        proof {
            if self.wf() {
                self.lemma_entries();
            }
        }
        self.entries_len
    }

    /// Whether the table holds no pair.
    pub fn is_empty(&self) -> (empty: bool)
        ensures
            empty == (self.entries_len() == 0),
            self.wf() ==> empty == (self@.dom().len() == 0),
    {
        proof {
            if self.wf() {
                self.lemma_entries();
            }
        }
        self.entries_len == 0
    }
}

/// The pairs of the first `b + 1` chains are those of the first `b` chains
/// followed by those of chain `b`.
proof fn lemma_flatten_take_next<A>(chains: Seq<Seq<A>>, b: int)
    requires
        0 <= b < chains.len(),
    ensures
        chains.take(b + 1).flatten() == chains.take(b).flatten() + chains[b],
{
    assert(chains.take(b + 1) =~= chains.take(b).push(chains[b]));
    chains.take(b).lemma_flatten_push(chains[b]);
}

/// The pairs of the first `b` chains are the first pairs of all the chains.
proof fn lemma_flatten_prefix<A>(chains: Seq<Seq<A>>, b: int)
    requires
        0 <= b <= chains.len(),
    ensures
        chains.take(b).flatten().len() <= chains.flatten().len(),
        chains.flatten().take(chains.take(b).flatten().len() as int) == chains.take(b).flatten(),
{
    assert(chains =~= chains.take(b) + chains.skip(b));
    vstd::seq_lib::lemma_flatten_concat(chains.take(b), chains.skip(b));
    assert((chains.take(b).flatten() + chains.skip(b).flatten()).take(
        chains.take(b).flatten().len() as int,
    ) =~= chains.take(b).flatten());
}

/// Once `insert` has stored `value` under a new key, looking the key up
/// answers `value`, every other key answers what it did before, and a second
/// `insert` under that key is refused.
pub proof fn law_insert_then_get<T: Clone>(
    table: SeparateChainingHashTable<T>,
    key: Seq<char>,
    value: T,
)
    requires
        table.wf(),
        insert_outcome(table@, key) is Ok,
    ensures
        value_of(table@.insert(key, value), key) == Ok::<T, Exceptions>(value),
        forall|other: Seq<char>|
            other != key ==> value_of(table@.insert(key, value), other) == value_of(table@, other),
        insert_outcome(table@.insert(key, value), key) == Err::<(), Exceptions>(
            Exceptions::DuplicateKey,
        ),
{
}

/// Once `remove` has taken a key out, looking the key up answers
/// `KeyNotInitialized`, and every other key answers what it did before.
pub proof fn law_remove_then_get<T: Clone>(table: SeparateChainingHashTable<T>, key: Seq<char>)
    requires
        table.wf(),
    ensures
        value_of(table@.remove(key), key) == Err::<T, Exceptions>(Exceptions::KeyNotInitialized),
        forall|other: Seq<char>|
            other != key ==> value_of(table@.remove(key), other) == value_of(table@, other),
{
}

/// Sorting the pairs of a table into any number of buckets gives
/// well-formed chains that stand for the same map and hold as many pairs:
/// `rehashing` keeps every key with its value.
pub proof fn law_rehashing_keeps_pairs<T: Clone>(table: SeparateChainingHashTable<T>, buckets: nat)
    requires
        table.wf(),
        buckets > 0,
    ensures
        chains_wf(distributed(table.entries(), buckets)),
        chains_map(distributed(table.entries(), buckets)) == table@,
        distributed(table.entries(), buckets).flatten().len() == table.entries().len(),
{
    table.lemma_entries();
    lemma_distributed(table.entries(), buckets);
}

/// Sorting pairs with distinct keys into buckets gives well-formed chains
/// that stand for the map of the pairs and hold as many pairs.
proof fn lemma_distributed<T>(pairs: Seq<(Seq<char>, T)>, buckets: nat)
    requires
        distinct_keys(pairs),
        buckets > 0,
    ensures
        chains_wf(distributed(pairs, buckets)),
        chains_map(distributed(pairs, buckets)) == pairs_map(pairs),
        distributed(pairs, buckets).flatten().len() == pairs.len(),
    decreases pairs.len(),
{
    if pairs.len() == 0 {
        reveal(Seq::filter);
        let chains = distributed(pairs, buckets);
        lemma_flatten_of_empty_chains::<(Seq<char>, T)>(chains);
        assert(chains_map(chains) =~= pairs_map(pairs));
    } else {
        let front = pairs.drop_last();
        let pair = pairs.last();
        assert(pairs =~= front.push(pair));
        assert(distinct_keys(front)) by {
            assert forall|i: int, j: int|
                0 <= i < front.len() && 0 <= j < front.len() && i != j implies (
            #[trigger] front[i]).0 != (#[trigger] front[j]).0 by {
                assert(pairs[i].0 != pairs[j].0);
            }
        }
        lemma_distributed(front, buckets);
        lemma_pairs_map_push(front, pair);
        lemma_distributed_push(front, pair, buckets);
        lemma_chains_push(distributed(front, buckets), pair.0, pair.1);
    }
}

/// Chains that are all empty hold no pair.
proof fn lemma_flatten_of_empty_chains<A>(chains: Seq<Seq<A>>)
    requires
        forall|b: int| 0 <= b < chains.len() ==> (#[trigger] chains[b]).len() == 0,
    ensures
        chains.flatten().len() == 0,
    decreases chains.len(),
{
    if chains.len() > 0 {
        lemma_flatten_of_empty_chains(chains.drop_first());
    }
}

/// One step of the wrapping sum: adding a byte to the wrapped sum and
/// wrapping again is wrapping the longer sum.
proof fn lemma_wrapping_step(sum: nat, h: usize, byte: u8)
    requires
        h == sum % (usize::MAX as nat + 1),
    ensures
        h.wrapping_add(byte as usize) == (sum + byte as nat) % (usize::MAX as nat + 1),
{
    let m = usize::MAX as int + 1;
    vstd::arithmetic::div_mod::lemma_add_mod_noop(sum as int, byte as int, m);
    vstd::arithmetic::div_mod::lemma_small_mod(byte as nat, m as nat);
    if h + byte > usize::MAX {
        vstd::arithmetic::div_mod::lemma_mod_sub_multiples_vanish(h + byte, m);
        vstd::arithmetic::div_mod::lemma_small_mod((h + byte - m) as nat, m as nat);
    } else {
        vstd::arithmetic::div_mod::lemma_small_mod((h + byte) as nat, m as nat);
    }
}

} // verus!
