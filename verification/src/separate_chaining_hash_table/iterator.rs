//! A walk over the pairs of a table, in the order in which the table
//! enumerates them.

use vstd::prelude::*;

verus! {

/// The pairs of a table as they stood when the walk began, and how far the
/// walk has come.
pub struct SeparateChainingHashTableIterator<'a, T: Clone> {
    entries: Vec<(&'a String, &'a T)>,
    current: usize,
}

impl<'a, T: Clone> SeparateChainingHashTableIterator<'a, T> {
    /// The pairs of the walk, as characters and values.
    pub closed spec fn pairs(&self) -> Seq<(Seq<char>, T)> {
        Seq::new(self.entries@.len(), |i: int| (self.entries@[i].0@, *self.entries@[i].1))
    }

    /// How many pairs the walk has handed out.
    pub closed spec fn position(&self) -> usize {
        self.current
    }

    /// A walk over `entries` that starts at the first of them.
    pub fn new(entries: Vec<(&'a String, &'a T)>) -> (walk: Self)
        ensures
            walk.position() == 0,
            walk.pairs().len() == entries@.len(),
            forall|i: int|
                0 <= i < entries@.len() ==> (#[trigger] walk.pairs()[i]) == (
                    entries@[i].0@,
                    *entries@[i].1,
                ),
    {
        Self { entries, current: 0 }
    }

    /// Hands out the next pair, and `None` once all have been handed out.
    pub fn next(&mut self) -> (item: Option<(&'a String, &'a T)>)
        ensures
            final(self).pairs() == old(self).pairs(),
            match item {
                Some(pair) => {
                    &&& old(self).position() < old(self).pairs().len()
                    &&& (pair.0@, *pair.1) == old(self).pairs()[old(self).position() as int]
                    &&& final(self).position() == old(self).position() + 1
                },
                None => {
                    &&& old(self).position() >= old(self).pairs().len()
                    &&& final(self).position() == old(self).position()
                },
            },
    {
        if self.current < self.entries.len() {
            let entry = self.entries[self.current];
            self.current += 1;
            Some(entry)
        } else {
            None
        }
    }
}

} // verus!
