//! One key with its value, as a bucket's chain holds it.

use vstd::prelude::*;

verus! {

/// A key and the value stored under it. Entries are told apart by their key
/// alone.
///
/// The view of an entry is the pair of its key's characters and its value.
#[derive(Debug)]
pub struct Entry<T: Clone> {
    key: String,
    value: T,
}

impl<T: Clone> View for Entry<T> {
    type V = (Seq<char>, T);

    closed spec fn view(&self) -> (Seq<char>, T) {
        (self.key@, self.value)
    }
}

impl<T: Clone> Entry<T> {
    /// An entry that stores `value` under `key`.
    pub fn new(key: String, value: T) -> (entry: Self)
        ensures
            entry@ == (key@, value),
    {
        Self { key, value }
    }

    /// The value.
    pub fn get(&self) -> (value: &T)
        ensures
            *value == self@.1,
    {
        &self.value
    }

    /// The value, for writing through. The key stays.
    pub fn get_mut(&mut self) -> (value: &mut T)
        ensures
            *value == old(self)@.1,
            final(self)@ == (old(self)@.0, *final(value)),
    {
        &mut self.value
    }

    /// The key.
    pub fn get_key(&self) -> (key: &String)
        ensures
            key@ == self@.0,
    {
        &self.key
    }

    /// Whether this entry's key is `key`.
    pub fn compare_key(&self, key: &String) -> (same: bool)
        ensures
            same == (self@.0 == key@),
    {
        self.key == *key
    }

    /// The key and the value.
    pub fn get_entry(&self) -> (pair: (&String, &T))
        ensures
            pair.0@ == self@.0,
            *pair.1 == self@.1,
    {
        (&self.key, &self.value)
    }

    /// Replaces the value. The key stays.
    pub fn set(&mut self, value: T)
        ensures
            final(self)@ == (old(self)@.0, value),
    {
        self.value = value;
    }

    /// Takes the entry apart into its key and its value.
    pub fn into_parts(self) -> (parts: (String, T))
        ensures
            parts.0@ == self@.0,
            parts.1 == self@.1,
    {
        (self.key, self.value)
    }
}

impl<T: Clone> Clone for Entry<T> {
    /// A second entry with the same key and a copy of the value.
    fn clone(&self) -> (copy: Self)
        ensures
            copy@.0 == self@.0,
            cloned(self@.1, copy@.1),
    {
        Self { key: self.key.clone(), value: self.value.clone() }
    }
}

} // verus!
