//! An array of a fixed number of slots: live elements packed at the front,
//! and once every slot is in use an insertion pushes the last element out.

use crate::exceptions::{element_at, Exceptions};
use vstd::prelude::*;

verus! {

/// Contiguous storage of `capacity` slots whose first `len` slots hold the live
/// elements, in order. The capacity never changes.
///
/// The view of an array is the sequence of its live elements.
pub struct StaticArray<T: Clone> {
    array: Vec<Option<T>>,
    len: usize,
    capacity: usize,
    current: usize,
}

/// The first `capacity` of `items`, or all of them where they are fewer.
pub open spec fn capped<T>(items: Seq<T>, capacity: nat) -> Seq<T> {
    if items.len() <= capacity {
        items
    } else {
        items.take(capacity as int)
    }
}

impl<T: Clone> View for StaticArray<T> {
    type V = Seq<T>;

    closed spec fn view(&self) -> Seq<T> {
        Seq::new(self.len as nat, |i: int| self.array[i]->0)
    }
}

impl<T: Clone> StaticArray<T> {
    /// The representation invariant: one slot per unit of capacity, the live
    /// elements packed at the front, every slot behind them empty.
    pub closed spec fn wf(&self) -> bool {
        &&& self.array.len() == self.capacity
        &&& self.len <= self.capacity
        &&& forall|i: int| 0 <= i < self.len ==> (#[trigger] self.array[i]) is Some
        &&& forall|i: int| self.len <= i < self.capacity ==> (#[trigger] self.array[i]) is None
    }

    /// The number of live elements.
    pub open spec fn spec_len(&self) -> usize {
        self@.len() as usize
    }

    /// The number of slots.
    pub closed spec fn spec_capacity(&self) -> usize {
        self.capacity
    }

    /// How many elements `next` has handed out so far.
    pub closed spec fn cursor(&self) -> usize {
        self.current
    }

    /// The live elements never outnumber the slots.
    pub proof fn lemma_len_within_capacity(&self)
        requires
            self.wf(),
        ensures
            self@.len() <= self.capacity(),
    {
    }

    /// Creates an array of `capacity` empty slots.
    pub fn new(capacity: usize) -> (created: Self)
        ensures
            created.wf(),
            created@ == Seq::<T>::empty(),
            created.capacity() == capacity,
            created.cursor() == 0,
    {
        let mut vec: Vec<Option<T>> = Vec::with_capacity(capacity);
        let mut filled: usize = 0;
        while filled < capacity
            invariant
                filled <= capacity,
                vec.len() == filled,
                forall|i: int| 0 <= i < filled ==> (#[trigger] vec[i]) is None,
            decreases capacity - filled,
        {
            vec.push(None);
            filled += 1;
        }
        Self { array: vec, len: 0, capacity, current: 0 }
    }

    /// Creates an array of `capacity` slots and fills it from the front of
    /// `values`; what does not fit is left out.
    pub fn with_values(capacity: usize, values: &[T]) -> (created: Self)
        ensures
            created.wf(),
            created.capacity() == capacity,
            created.cursor() == 0,
            created@.len() == if values@.len() < capacity { values@.len() } else { capacity as nat },
            forall|i: int| 0 <= i < created@.len() ==> cloned(values@[i], #[trigger] created@[i]),
    {
        let size: usize = if values.len() < capacity {
            values.len()
        } else {
            capacity
        };
        let mut vec: Vec<Option<T>> = Vec::with_capacity(capacity);
        let mut index: usize = 0;
        while index < capacity
            invariant
                index <= capacity,
                vec.len() == index,
                size <= capacity,
                size <= values@.len(),
                size == values@.len() || size == capacity,
                forall|i: int| 0 <= i < index && i < size ==> (#[trigger] vec[i]) is Some && cloned(values@[i], vec[i]->0),
                forall|i: int| size <= i < index ==> (#[trigger] vec[i]) is None,
            decreases capacity - index,
        {
            if index < values.len() {
                vec.push(Some(values[index].clone()));
            } else {
                vec.push(None);
            }
            index += 1;
        }
        Self { array: vec, len: size, capacity, current: 0 }
    }

    /// The element at `index`, or `IndexOutOfBounds` at and beyond the end.
    pub fn get(&self, index: usize) -> (found: Result<&T, Exceptions>)
        requires
            self.wf(),
        ensures
            match found {
                Ok(value) => element_at(self@, index) == Ok::<T, Exceptions>(*value),
                Err(error) => element_at(self@, index) == Err::<T, Exceptions>(error),
            },
    {
        if index >= self.len {
            return Err(Exceptions::IndexOutOfBounds);
        }
        match &self.array[index] {
            Some(value) => Ok(value),
            None => Err(Exceptions::IndexOutOfBounds),
        }
    }

    /// The element at `index`, for writing through, or `IndexOutOfBounds` at
    /// and beyond the end. What the caller stores through the reference is the
    /// only change to the array.
    pub fn get_mut(&mut self, index: usize) -> (found: Result<&mut T, Exceptions>)
        requires
            old(self).wf(),
        ensures
            final(self).wf(),
            final(self).capacity() == old(self).capacity(),
            final(self).cursor() == old(self).cursor(),
            match found {
                Ok(value) => {
                    &&& element_at(old(self)@, index) == Ok::<T, Exceptions>(*value)
                    &&& final(self)@ == old(self)@.update(index as int, *final(value))
                },
                Err(error) => {
                    &&& element_at(old(self)@, index) == Err::<T, Exceptions>(error)
                    &&& final(self)@ == old(self)@
                },
            },
    {
        if index >= self.len {
            return Err(Exceptions::IndexOutOfBounds);
        }
        match &mut self.array[index] {
            Some(value) => Ok(value),
            None => Err(Exceptions::IndexOutOfBounds),
        }
    }

    /// Overwrites the element at `index`; `IndexOutOfBounds` at and beyond the
    /// end, where nothing changes.
    pub fn set(&mut self, index: usize, value: T) -> (done: Result<(), Exceptions>)
        requires
            old(self).wf(),
        ensures
            final(self).wf(),
            final(self).capacity() == old(self).capacity(),
            final(self).cursor() == old(self).cursor(),
            match done {
                Ok(_) => index < old(self)@.len() && final(self)@ == old(self)@.update(index as int, value),
                Err(error) => {
                    &&& element_at(old(self)@, index) == Err::<T, Exceptions>(error)
                    &&& final(self)@ == old(self)@
                },
            },
    {
        if index >= self.len {
            return Err(Exceptions::IndexOutOfBounds);
        }
        self.array[index] = Some(value);
        Ok(())
    }

    /// The number of live elements.
    #[verifier::when_used_as_spec(spec_len)]
    pub fn len(&self) -> (len: usize)
        ensures
            len == self@.len(),
    {
        self.len
    }

    /// The number of slots.
    #[verifier::when_used_as_spec(spec_capacity)]
    pub fn capacity(&self) -> (capacity: usize)
        ensures
            capacity == self.spec_capacity(),
    {
        self.capacity
    }

    /// Whether no element is live.
    pub fn is_empty(&self) -> (empty: bool)
        ensures
            empty == (self@.len() == 0),
    {
        self.len == 0
    }

    /// Moves the elements of the slots from `index` up to the one before the
    /// last of the first `size` slots one slot towards the end. What the last
    /// of these slots held is dropped.
    fn shift_right(&mut self, index: usize, size: usize)
        requires
            old(self).array.len() == old(self).capacity,
            index < size <= old(self).capacity,
        ensures
            final(self).len == old(self).len,
            final(self).capacity == old(self).capacity,
            final(self).current == old(self).current,
            final(self).array.len() == old(self).array.len(),
            forall|i: int| 0 <= i < index ==> final(self).array[i] == old(self).array[i],
            forall|i: int| index < i < size ==> final(self).array[i] == old(self).array[i - 1],
            forall|i: int| size <= i < old(self).capacity ==> final(self).array[i] == old(self).array[i],
    {
        let mut hole: usize = size - 1;
        while hole > index
            invariant
                index <= hole < size <= self.capacity,
                self.len == old(self).len,
                self.capacity == old(self).capacity,
                self.current == old(self).current,
                self.array.len() == old(self).array.len(),
                self.array.len() == self.capacity,
                forall|i: int| 0 <= i < hole ==> self.array[i] == old(self).array[i],
                forall|i: int| hole < i < size ==> self.array[i] == old(self).array[i - 1],
                forall|i: int| size <= i < self.capacity ==> self.array[i] == old(self).array[i],
            decreases hole,
        {
            let moved = self.array[hole - 1].take();
            self.array[hole] = moved;
            hole -= 1;
        }
    }

    /// Moves the elements behind the empty slot at `index` one slot towards
    /// the front, which leaves the last of the formerly live slots empty.
    fn shift_left(&mut self, index: usize)
        requires
            old(self).array.len() == old(self).capacity,
            index < old(self).len <= old(self).capacity,
            old(self).array[index as int] is None,
        ensures
            final(self).len == old(self).len,
            final(self).capacity == old(self).capacity,
            final(self).current == old(self).current,
            final(self).array.len() == old(self).array.len(),
            forall|i: int| 0 <= i < index ==> final(self).array[i] == old(self).array[i],
            forall|i: int| index <= i < old(self).len - 1 ==> final(self).array[i] == old(self).array[i + 1],
            final(self).array[old(self).len - 1] is None,
            forall|i: int| old(self).len <= i < old(self).capacity ==> final(self).array[i] == old(self).array[i],
    {
        let mut hole: usize = index;
        while hole + 1 < self.len
            invariant
                index <= hole < self.len,
                self.len == old(self).len,
                self.len <= self.capacity,
                self.capacity == old(self).capacity,
                self.current == old(self).current,
                self.array.len() == old(self).array.len(),
                self.array.len() == self.capacity,
                forall|i: int| 0 <= i < index ==> self.array[i] == old(self).array[i],
                forall|i: int| index <= i < hole ==> self.array[i] == old(self).array[i + 1],
                self.array[hole as int] is None,
                forall|i: int| hole < i < self.capacity ==> self.array[i] == old(self).array[i],
            decreases self.len - hole,
        {
            let moved = self.array[hole + 1].take();
            self.array[hole] = moved;
            hole += 1;
        }
    }

    /// Appends `value`; `IndexOutOfBounds` where every slot is in use, and
    /// then nothing changes.
    pub fn push(&mut self, value: T) -> (done: Result<(), Exceptions>)
        requires
            old(self).wf(),
        ensures
            final(self).wf(),
            final(self).capacity() == old(self).capacity(),
            final(self).cursor() == old(self).cursor(),
            match done {
                Ok(_) => {
                    &&& old(self)@.len() < old(self).capacity()
                    &&& final(self)@ == old(self)@.push(value)
                },
                Err(error) => {
                    &&& old(self)@.len() == old(self).capacity()
                    &&& error == Exceptions::IndexOutOfBounds
                    &&& final(self)@ == old(self)@
                },
            },
    {
        if self.len == self.capacity {
            return Err(Exceptions::IndexOutOfBounds);
        }
        self.array[self.len] = Some(value);
        self.len += 1;
        Ok(())
    }

    /// Puts `value` in front of every element. Where every slot was in use,
    /// the last element is dropped.
    pub fn unshift(&mut self, value: T)
        requires
            old(self).wf(),
            old(self).capacity() > 0,
        ensures
            final(self).wf(),
            final(self).capacity() == old(self).capacity(),
            final(self).cursor() == old(self).cursor(),
            final(self)@ == capped(seq![value] + old(self)@, old(self).capacity() as nat),
    {
        let size: usize = if self.len < self.capacity {
            self.len + 1
        } else {
            self.capacity
        };
        self.shift_right(0, size);
        self.array[0] = Some(value);
        if self.len < self.capacity {
            self.len += 1;
        }
    }

    /// Puts `value` at `index`, in front of the element that was there;
    /// `IndexOutOfBounds` at and beyond the end, where nothing changes. Where
    /// every slot was in use, the last element is dropped.
    pub fn insert(&mut self, index: usize, value: T) -> (done: Result<(), Exceptions>)
        requires
            old(self).wf(),
        ensures
            final(self).wf(),
            final(self).capacity() == old(self).capacity(),
            final(self).cursor() == old(self).cursor(),
            match done {
                Ok(_) => {
                    &&& index < old(self)@.len()
                    &&& final(self)@ == capped(
                        old(self)@.insert(index as int, value),
                        old(self).capacity() as nat,
                    )
                },
                Err(error) => {
                    &&& element_at(old(self)@, index) == Err::<T, Exceptions>(error)
                    &&& final(self)@ == old(self)@
                },
            },
    {
        if index >= self.len {
            return Err(Exceptions::IndexOutOfBounds);
        }
        let size: usize = if self.len < self.capacity {
            self.len + 1
        } else {
            self.capacity
        };
        self.shift_right(index, size);
        self.array[index] = Some(value);
        if self.len < self.capacity {
            self.len += 1;
        }
        Ok(())
    }

    /// Takes the element at `index` out and closes the gap; `IndexOutOfBounds`
    /// at and beyond the end, where nothing changes.
    pub fn remove(&mut self, index: usize) -> (removed: Result<T, Exceptions>)
        requires
            old(self).wf(),
        ensures
            final(self).wf(),
            final(self).capacity() == old(self).capacity(),
            final(self).cursor() == old(self).cursor(),
            match removed {
                Ok(value) => {
                    &&& element_at(old(self)@, index) == Ok::<T, Exceptions>(value)
                    &&& final(self)@ == old(self)@.remove(index as int)
                },
                Err(error) => {
                    &&& element_at(old(self)@, index) == Err::<T, Exceptions>(error)
                    &&& final(self)@ == old(self)@
                },
            },
    {
        if index >= self.len {
            return Err(Exceptions::IndexOutOfBounds);
        }
        let value = match self.array[index].take() {
            Some(value) => value,
            None => return Err(Exceptions::IndexOutOfBounds),
        };
        self.shift_left(index);
        self.len -= 1;
        Ok(value)
    }

    /// Hands out a copy of the next element that has not been handed out yet,
    /// front to back, and `None` once the cursor has reached the end.
    pub fn next(&mut self) -> (item: Option<T>)
        requires
            old(self).wf(),
        ensures
            final(self).wf(),
            final(self)@ == old(self)@,
            final(self).capacity() == old(self).capacity(),
            match item {
                Some(value) => {
                    &&& old(self).cursor() < old(self)@.len()
                    &&& cloned(old(self)@[old(self).cursor() as int], value)
                    &&& final(self).cursor() == old(self).cursor() + 1
                },
                None => {
                    &&& old(self).cursor() >= old(self)@.len()
                    &&& final(self).cursor() == old(self).cursor()
                },
            },
    {
        if self.current < self.len {
            self.current += 1;
            self.array[self.current - 1].clone()
        } else {
            None
        }
    }
}

impl<T: Clone> Clone for StaticArray<T> {
    /// A second array with as many slots, the same cursor, and a copy of each
    /// live element in the same place.
    fn clone(&self) -> (copy: Self)
        ensures
            self.wf() ==> copy.wf(),
            copy.capacity() == self.capacity(),
            copy.cursor() == self.cursor(),
            copy@.len() == self@.len(),
            self.wf() ==> forall|i: int|
                0 <= i < self@.len() ==> cloned(self@[i], #[trigger] copy@[i]),
    {
        Self {
            array: self.array.clone(),
            len: self.len,
            capacity: self.capacity,
            current: self.current,
        }
    }
}

/// An insertion into an array that still has a free slot followed by `remove`
/// at the same index hands the inserted value back and leaves the elements
/// as they were; with every slot in use, the last element is gone for good.
pub proof fn law_insert_then_remove<T: Clone>(array: StaticArray<T>, index: usize, value: T)
    requires
        array.wf(),
        index < array@.len(),
    ensures
        element_at(capped(array@.insert(index as int, value), array.capacity() as nat), index)
            == Ok::<T, Exceptions>(value),
        array@.len() < array.capacity() ==> capped(
            array@.insert(index as int, value),
            array.capacity() as nat,
        ).remove(index as int) == array@,
        array@.len() == array.capacity() ==> capped(
            array@.insert(index as int, value),
            array.capacity() as nat,
        ).remove(index as int) == array@.drop_last(),
{
}

} // verus!
