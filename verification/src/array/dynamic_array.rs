//! A resizable array: contiguous slots, live elements packed at the front,
//! doubling when full and halving when less than half of the slots are in use.

use crate::exceptions::{element_at, Exceptions};
use vstd::arithmetic::power2::is_pow2;
use vstd::prelude::*;

verus! {

/// Contiguous storage of `capacity` slots whose first `len` slots hold the live
/// elements, in order.
///
/// The view of an array is the sequence of its live elements.
pub struct DynamicArray<T: Clone> {
    array: Vec<Option<T>>,
    len: usize,
    capacity: usize,
    current: usize,
}

/// The slot count that `push` and `unshift` work with: an array without slots
/// gets four, a full one twice what it has, any other keeps its slots.
pub open spec fn grown_capacity(capacity: nat, len: nat) -> nat {
    if capacity == 0 {
        4
    } else if len == capacity {
        2 * capacity
    } else {
        capacity
    }
}

/// The slot count that `insert` works with: a full array gets twice what it
/// has, any other keeps its slots.
pub open spec fn doubled_if_full(capacity: nat, len: nat) -> nat {
    if len == capacity {
        2 * capacity
    } else {
        capacity
    }
}

/// The slot count that `remove` leaves behind, given the number of elements
/// that are still live: half of the slots go once fewer than half are in use,
/// unless a single slot is all there is.
pub open spec fn shrunk_capacity(capacity: nat, len: nat) -> nat {
    if len < capacity / 2 && capacity > 1 {
        capacity / 2
    } else {
        capacity
    }
}

impl<T: Clone> View for DynamicArray<T> {
    type V = Seq<T>;

    closed spec fn view(&self) -> Seq<T> {
        Seq::new(self.len as nat, |i: int| self.array[i]->0)
    }
}

impl<T: Clone> DynamicArray<T> {
    /// The representation invariant: one slot per unit of capacity, the live
    /// elements packed at the front, every slot behind them empty.
    pub closed spec fn wf(&self) -> bool {
        &&& self.array.len() == self.capacity
        &&& self.len <= self.capacity
        &&& forall|i: int| 0 <= i < self.len ==> (#[trigger] self.array[i]) is Some
        &&& forall|i: int| self.len <= i < self.capacity ==> (#[trigger] self.array[i]) is None
    }

    /// The number of live elements.
    pub open spec fn spec_len(&self) -> usize {
        self@.len() as usize
    }

    /// The number of slots.
    pub closed spec fn spec_capacity(&self) -> usize {
        self.capacity
    }

    /// How many elements `next` has handed out so far.
    pub closed spec fn cursor(&self) -> usize {
        self.current
    }

    /// The live elements never outnumber the slots.
    pub proof fn lemma_len_within_capacity(&self)
        requires
            self.wf(),
        ensures
            self@.len() <= self.capacity(),
    {
    }

    /// Creates an array of `capacity` empty slots.
    pub fn new(capacity: usize) -> (created: Self)
        ensures
            created.wf(),
            created@ == Seq::<T>::empty(),
            created.capacity() == capacity,
            created.cursor() == 0,
    {
        let mut vec: Vec<Option<T>> = Vec::with_capacity(capacity);
        let mut filled: usize = 0;
        while filled < capacity
            invariant
                filled <= capacity,
                vec.len() == filled,
                forall|i: int| 0 <= i < filled ==> (#[trigger] vec[i]) is None,
            decreases capacity - filled,
        {
            vec.push(None);
            filled += 1;
        }
        Self { array: vec, len: 0, capacity, current: 0 }
    }

    /// Creates an array of `capacity` slots and fills it from the front of
    /// `values`; what does not fit is left out.
    pub fn with_values(capacity: usize, values: &[T]) -> (created: Self)
        ensures
            created.wf(),
            created.capacity() == capacity,
            created.cursor() == 0,
            created@.len() == if values@.len() < capacity { values@.len() } else { capacity as nat },
            forall|i: int| 0 <= i < created@.len() ==> cloned(values@[i], #[trigger] created@[i]),
    {
        let size: usize = if values.len() < capacity {
            values.len()
        } else {
            capacity
        };
        let mut vec: Vec<Option<T>> = Vec::with_capacity(capacity);
        let mut index: usize = 0;
        while index < capacity
            invariant
                index <= capacity,
                vec.len() == index,
                size <= capacity,
                size <= values@.len(),
                size == values@.len() || size == capacity,
                forall|i: int| 0 <= i < index && i < size ==> (#[trigger] vec[i]) is Some && cloned(values@[i], vec[i]->0),
                forall|i: int| size <= i < index ==> (#[trigger] vec[i]) is None,
            decreases capacity - index,
        {
            if index < values.len() {
                vec.push(Some(values[index].clone()));
            } else {
                vec.push(None);
            }
            index += 1;
        }
        Self { array: vec, len: size, capacity, current: 0 }
    }

    /// The element at `index`, or `IndexOutOfBounds` at and beyond the end.
    pub fn get(&self, index: usize) -> (found: Result<&T, Exceptions>)
        requires
            self.wf(),
        ensures
            match found {
                Ok(value) => element_at(self@, index) == Ok::<T, Exceptions>(*value),
                Err(error) => element_at(self@, index) == Err::<T, Exceptions>(error),
            },
    {
        if index >= self.len {
            return Err(Exceptions::IndexOutOfBounds);
        }
        match &self.array[index] {
            Some(value) => Ok(value),
            None => Err(Exceptions::IndexOutOfBounds),
        }
    }

    /// The element at `index`, for writing through, or `IndexOutOfBounds` at
    /// and beyond the end. What the caller stores through the reference is the
    /// only change to the array.
    pub fn get_mut(&mut self, index: usize) -> (found: Result<&mut T, Exceptions>)
        requires
            old(self).wf(),
        ensures
            final(self).wf(),
            final(self).capacity() == old(self).capacity(),
            final(self).cursor() == old(self).cursor(),
            match found {
                Ok(value) => {
                    &&& element_at(old(self)@, index) == Ok::<T, Exceptions>(*value)
                    &&& final(self)@ == old(self)@.update(index as int, *final(value))
                },
                Err(error) => {
                    &&& element_at(old(self)@, index) == Err::<T, Exceptions>(error)
                    &&& final(self)@ == old(self)@
                },
            },
    {
        if index >= self.len {
            return Err(Exceptions::IndexOutOfBounds);
        }
        match &mut self.array[index] {
            Some(value) => Ok(value),
            None => Err(Exceptions::IndexOutOfBounds),
        }
    }

    /// Overwrites the element at `index`; `IndexOutOfBounds` at and beyond the
    /// end, where nothing changes.
    pub fn set(&mut self, index: usize, value: T) -> (done: Result<(), Exceptions>)
        requires
            old(self).wf(),
        ensures
            final(self).wf(),
            final(self).capacity() == old(self).capacity(),
            final(self).cursor() == old(self).cursor(),
            match done {
                Ok(_) => index < old(self)@.len() && final(self)@ == old(self)@.update(index as int, value),
                Err(error) => {
                    &&& element_at(old(self)@, index) == Err::<T, Exceptions>(error)
                    &&& final(self)@ == old(self)@
                },
            },
    {
        if index >= self.len {
            return Err(Exceptions::IndexOutOfBounds);
        }
        self.array[index] = Some(value);
        Ok(())
    }

    /// The number of live elements.
    #[verifier::when_used_as_spec(spec_len)]
    pub fn len(&self) -> (len: usize)
        ensures
            len == self@.len(),
    {
        self.len
    }

    /// The number of slots.
    #[verifier::when_used_as_spec(spec_capacity)]
    pub fn capacity(&self) -> (capacity: usize)
        ensures
            capacity == self.spec_capacity(),
    {
        self.capacity
    }

    /// Whether no element is live.
    pub fn is_empty(&self) -> (empty: bool)
        ensures
            empty == (self@.len() == 0),
    {
        self.len == 0
    }

    /// Moves the elements from `index` on one slot towards the end, which
    /// leaves the slot at `index` empty.
    fn shift_right(&mut self, index: usize)
        requires
            old(self).wf(),
            index <= old(self).len,
            old(self).len < old(self).capacity,
        ensures
            final(self).len == old(self).len,
            final(self).capacity == old(self).capacity,
            final(self).current == old(self).current,
            final(self).array.len() == old(self).array.len(),
            forall|i: int| 0 <= i < index ==> final(self).array[i] == old(self).array[i],
            final(self).array[index as int] is None,
            forall|i: int| index < i <= old(self).len ==> final(self).array[i] == old(self).array[i - 1],
            forall|i: int| old(self).len < i < old(self).capacity ==> final(self).array[i] is None,
    {
        let mut hole: usize = self.len;
        while hole > index
            invariant
                index <= hole <= self.len,
                self.len == old(self).len,
                self.len < self.capacity,
                self.capacity == old(self).capacity,
                self.current == old(self).current,
                self.array.len() == old(self).array.len(),
                self.array.len() == self.capacity,
                forall|i: int| 0 <= i < hole ==> self.array[i] == old(self).array[i],
                self.array[hole as int] is None,
                forall|i: int| hole < i <= self.len ==> self.array[i] == old(self).array[i - 1],
                forall|i: int| self.len < i < self.capacity ==> self.array[i] is None,
            decreases hole,
        {
            let moved = self.array[hole - 1].take();
            self.array[hole] = moved;
            hole -= 1;
        }
    }

    /// Moves the elements behind the empty slot at `index` one slot towards
    /// the front, which leaves the last of the formerly live slots empty.
    fn shift_left(&mut self, index: usize)
        requires
            old(self).array.len() == old(self).capacity,
            index < old(self).len <= old(self).capacity,
            old(self).array[index as int] is None,
        ensures
            final(self).len == old(self).len,
            final(self).capacity == old(self).capacity,
            final(self).current == old(self).current,
            final(self).array.len() == old(self).array.len(),
            forall|i: int| 0 <= i < index ==> final(self).array[i] == old(self).array[i],
            forall|i: int| index <= i < old(self).len - 1 ==> final(self).array[i] == old(self).array[i + 1],
            final(self).array[old(self).len - 1] is None,
            forall|i: int| old(self).len <= i < old(self).capacity ==> final(self).array[i] == old(self).array[i],
    {
        let mut hole: usize = index;
        while hole + 1 < self.len
            invariant
                index <= hole < self.len,
                self.len == old(self).len,
                self.len <= self.capacity,
                self.capacity == old(self).capacity,
                self.current == old(self).current,
                self.array.len() == old(self).array.len(),
                self.array.len() == self.capacity,
                forall|i: int| 0 <= i < index ==> self.array[i] == old(self).array[i],
                forall|i: int| index <= i < hole ==> self.array[i] == old(self).array[i + 1],
                self.array[hole as int] is None,
                forall|i: int| hole < i < self.capacity ==> self.array[i] == old(self).array[i],
            decreases self.len - hole,
        {
            let moved = self.array[hole + 1].take();
            self.array[hole] = moved;
            hole += 1;
        }
    }

    /// Gives the array `new_capacity` slots. The live elements that fit stay,
    /// from the front; the others are dropped.
    pub fn resize(&mut self, new_capacity: usize)
        requires
            old(self).wf(),
        ensures
            final(self).wf(),
            final(self).capacity() == new_capacity,
            final(self).cursor() == old(self).cursor(),
            final(self)@ == if old(self)@.len() <= new_capacity {
                old(self)@
            } else {
                old(self)@.take(new_capacity as int)
            },
    {
        self.array.truncate(new_capacity);
        while self.array.len() < new_capacity
            invariant
                self.len == old(self).len,
                self.current == old(self).current,
                self.array.len() <= new_capacity,
                self.array.len() < new_capacity ==> self.array.len() >= old(self).array.len(),
                forall|i: int| 0 <= i < self.array.len() && i < old(self).array.len()
                    ==> #[trigger] self.array[i] == old(self).array[i],
                forall|i: int| old(self).array.len() <= i < self.array.len()
                    ==> (#[trigger] self.array[i]) is None,
            decreases new_capacity - self.array.len(),
        {
            self.array.push(None);
        }
        self.capacity = new_capacity;
        if self.len > self.capacity {
            self.len = self.capacity;
        }
    }

    /// Appends `value`. An array without slots first gets four, a full one
    /// twice what it has.
    pub fn push(&mut self, value: T)
        requires
            old(self).wf(),
            grown_capacity(old(self).capacity() as nat, old(self)@.len()) <= usize::MAX,
        ensures
            final(self).wf(),
            final(self)@ == old(self)@.push(value),
            final(self).capacity() == grown_capacity(old(self).capacity() as nat, old(self)@.len()),
            final(self).cursor() == old(self).cursor(),
    {
        if self.capacity == 0 {
            self.resize(4);
        } else if self.len == self.capacity {
            self.resize(self.capacity * 2);
        }
        self.array[self.len] = Some(value);
        self.len += 1;
    }

    /// Puts `value` in front of every element. An array without slots first
    /// gets four, a full one twice what it has.
    pub fn unshift(&mut self, value: T)
        requires
            old(self).wf(),
            grown_capacity(old(self).capacity() as nat, old(self)@.len()) <= usize::MAX,
        ensures
            final(self).wf(),
            final(self)@ == seq![value] + old(self)@,
            final(self).capacity() == grown_capacity(old(self).capacity() as nat, old(self)@.len()),
            final(self).cursor() == old(self).cursor(),
    {
        if self.capacity == 0 {
            self.resize(4);
        } else if self.len == self.capacity {
            self.resize(self.capacity * 2);
        }
        self.shift_right(0);
        self.array[0] = Some(value);
        self.len += 1;
    }

    /// Puts `value` at `index`, in front of the element that was there;
    /// `IndexOutOfBounds` at and beyond the end, where nothing changes: `push`
    /// is the way to append. A full array first gets twice the slots it has.
    pub fn insert(&mut self, index: usize, value: T) -> (done: Result<(), Exceptions>)
        requires
            old(self).wf(),
            index < old(self)@.len() ==> doubled_if_full(
                old(self).capacity() as nat,
                old(self)@.len(),
            ) <= usize::MAX,
        ensures
            final(self).wf(),
            final(self).cursor() == old(self).cursor(),
            match done {
                Ok(_) => {
                    &&& index < old(self)@.len()
                    &&& final(self)@ == old(self)@.insert(index as int, value)
                    &&& final(self).capacity() == doubled_if_full(
                        old(self).capacity() as nat,
                        old(self)@.len(),
                    )
                },
                Err(error) => {
                    &&& element_at(old(self)@, index) == Err::<T, Exceptions>(error)
                    &&& final(self)@ == old(self)@
                    &&& final(self).capacity() == old(self).capacity()
                },
            },
    {
        if index >= self.len {
            return Err(Exceptions::IndexOutOfBounds);
        }
        if self.len == self.capacity {
            self.resize(self.capacity * 2);
        }
        self.shift_right(index);
        self.array[index] = Some(value);
        self.len += 1;
        Ok(())
    }

    /// Takes the element at `index` out and closes the gap; `IndexOutOfBounds`
    /// at and beyond the end, where nothing changes. Half of the slots go once
    /// fewer than half are in use, unless a single slot is all there is.
    pub fn remove(&mut self, index: usize) -> (removed: Result<T, Exceptions>)
        requires
            old(self).wf(),
        ensures
            final(self).wf(),
            final(self).cursor() == old(self).cursor(),
            match removed {
                Ok(value) => {
                    &&& element_at(old(self)@, index) == Ok::<T, Exceptions>(value)
                    &&& final(self)@ == old(self)@.remove(index as int)
                    &&& final(self).capacity() == shrunk_capacity(
                        old(self).capacity() as nat,
                        (old(self)@.len() - 1) as nat,
                    )
                },
                Err(error) => {
                    &&& element_at(old(self)@, index) == Err::<T, Exceptions>(error)
                    &&& final(self)@ == old(self)@
                    &&& final(self).capacity() == old(self).capacity()
                },
            },
    {
        if index >= self.len {
            return Err(Exceptions::IndexOutOfBounds);
        }
        let value = match self.array[index].take() {
            Some(value) => value,
            None => return Err(Exceptions::IndexOutOfBounds),
        };
        self.shift_left(index);
        self.len -= 1;
        if self.len < self.capacity / 2 && self.capacity > 1 {
            self.resize(self.capacity / 2);
        }
        Ok(value)
    }

    /// Hands out a copy of the next element that has not been handed out yet,
    /// front to back, and `None` once the cursor has reached the end.
    pub fn next(&mut self) -> (item: Option<T>)
        requires
            old(self).wf(),
        ensures
            final(self).wf(),
            final(self)@ == old(self)@,
            final(self).capacity() == old(self).capacity(),
            match item {
                Some(value) => {
                    &&& old(self).cursor() < old(self)@.len()
                    &&& cloned(old(self)@[old(self).cursor() as int], value)
                    &&& final(self).cursor() == old(self).cursor() + 1
                },
                None => {
                    &&& old(self).cursor() >= old(self)@.len()
                    &&& final(self).cursor() == old(self).cursor()
                },
            },
    {
        if self.current < self.len {
            self.current += 1;
            self.array[self.current - 1].clone()
        } else {
            None
        }
    }
}

impl<T: Clone> Clone for DynamicArray<T> {
    /// A second array with as many slots, the same cursor, and a copy of each
    /// live element in the same place.
    fn clone(&self) -> (copy: Self)
        ensures
            self.wf() ==> copy.wf(),
            copy.capacity() == self.capacity(),
            copy.cursor() == self.cursor(),
            copy@.len() == self@.len(),
            self.wf() ==> forall|i: int|
                0 <= i < self@.len() ==> cloned(self@[i], #[trigger] copy@[i]),
    {
        Self {
            array: self.array.clone(),
            len: self.len,
            capacity: self.capacity,
            current: self.current,
        }
    }
}

/// The slot count of an array that was created without slots and has since
/// seen `pushes` calls of `push` and nothing else.
pub open spec fn capacity_after_pushes(pushes: nat) -> nat
    decreases pushes,
{
    if pushes == 0 {
        0
    } else {
        grown_capacity(capacity_after_pushes((pushes - 1) as nat), (pushes - 1) as nat)
    }
}

/// Reading an index answers what `set` last put there, and `set` leaves what
/// every other index answers as it was.
pub proof fn law_get_after_set<T: Clone>(array: DynamicArray<T>, index: usize, value: T)
    requires
        array.wf(),
        index < array@.len(),
    ensures
        array@.update(index as int, value).len() == array@.len(),
        element_at(array@.update(index as int, value), index) == Ok::<T, Exceptions>(value),
        forall|other: usize|
            other != index ==> element_at(array@.update(index as int, value), other) == element_at(
                array@,
                other,
            ),
{
}

/// After `insert` there is exactly one element more. Reading the index
/// answers the value that was put there, every index in front of it answers
/// what it did before, and every index behind it what the index before it
/// did.
pub proof fn law_get_after_insert<T: Clone>(array: DynamicArray<T>, index: usize, value: T)
    requires
        array.wf(),
        index < array@.len(),
    ensures
        array@.insert(index as int, value).len() == array@.len() + 1,
        element_at(array@.insert(index as int, value), index) == Ok::<T, Exceptions>(value),
        forall|other: usize|
            other < index ==> element_at(array@.insert(index as int, value), other) == element_at(
                array@,
                other,
            ),
        forall|other: usize|
            index <= other < usize::MAX ==> element_at(
                array@.insert(index as int, value),
                (other + 1) as usize,
            ) == element_at(array@, other),
{
}

/// After `push` there is exactly one element more. Reading the last index
/// answers the value that was pushed, every index beyond it is out of
/// bounds, and every earlier index answers what it did before.
pub proof fn law_push_then_get_last<T: Clone>(array: DynamicArray<T>, value: T)
    requires
        array.wf(),
    ensures
        array@.push(value).len() == array@.len() + 1,
        element_at(array@.push(value), array@.len() as usize) == Ok::<T, Exceptions>(value),
        forall|other: usize|
            other > array@.len() ==> element_at(array@.push(value), other) == Err::<T, Exceptions>(
                Exceptions::IndexOutOfBounds,
            ),
        forall|other: usize|
            other < array@.len() ==> element_at(array@.push(value), other) == element_at(
                array@,
                other,
            ),
{
}

/// Of two powers of two, the larger is at least twice the smaller.
proof fn lemma_pow2_gap(smaller: int, larger: int)
    requires
        is_pow2(smaller),
        is_pow2(larger),
        smaller < larger,
    ensures
        2 * smaller <= larger,
    decreases larger,
{
    reveal(is_pow2);
    if smaller > 1 {
        lemma_pow2_gap(smaller / 2, larger / 2);
    }
}

/// Pushing onto an array that was created without slots keeps the slot count
/// the smallest power of two that is at least four and at least the number
/// of pushes.
pub proof fn law_capacity_after_pushes(pushes: nat)
    requires
        pushes >= 1,
    ensures
        is_pow2(capacity_after_pushes(pushes) as int),
        capacity_after_pushes(pushes) >= 4,
        capacity_after_pushes(pushes) >= pushes,
        capacity_after_pushes(pushes) == 4 || capacity_after_pushes(pushes) < 2 * pushes,
        forall|other: nat|
            is_pow2(other as int) && other >= 4 && other >= pushes ==> capacity_after_pushes(pushes)
                <= other,
    decreases pushes,
{
    reveal_with_fuel(is_pow2, 3);
    if pushes == 1 {
        assert(capacity_after_pushes(0) == 0);
    } else {
        law_capacity_after_pushes((pushes - 1) as nat);
    }
    let capacity = capacity_after_pushes(pushes);
    assert forall|other: nat| is_pow2(other as int) && other >= 4 && other >= pushes implies capacity
        <= other by {
        if other < capacity {
            lemma_pow2_gap(other as int, capacity as int);
        }
    }
}

/// An array whose slot count is what `capacity_after_pushes` says for its
/// length is one again after `push`: the array that `new(0)` creates is one,
/// so every array that has seen nothing but `push` since is one.
pub proof fn law_push_follows_capacity_after_pushes<T: Clone>(array: DynamicArray<T>)
    requires
        array.wf(),
        array.capacity() == capacity_after_pushes(array@.len()),
    ensures
        capacity_after_pushes(0) == 0,
        grown_capacity(array.capacity() as nat, array@.len()) == capacity_after_pushes(
            array@.len() + 1,
        ),
{
}

/// `insert` followed by `remove` at the same index hands the inserted value
/// back and leaves the elements, and so their number and what every index
/// answers, as they were before the two calls.
pub proof fn law_insert_then_remove<T: Clone>(array: DynamicArray<T>, index: usize, value: T)
    requires
        array.wf(),
        index < array@.len(),
    ensures
        element_at(array@.insert(index as int, value), index) == Ok::<T, Exceptions>(value),
        array@.insert(index as int, value).remove(index as int) == array@,
        forall|other: usize|
            element_at(array@.insert(index as int, value).remove(index as int), other)
                == element_at(array@, other),
{
    assert(array@.insert(index as int, value).remove(index as int) =~= array@);
}

/// `remove` never adds slots, never takes the last slot away, and leaves
/// room for every element that is still live.
pub proof fn law_remove_keeps_a_slot(capacity: nat, len: nat)
    requires
        len <= capacity,
    ensures
        shrunk_capacity(capacity, len) <= capacity,
        capacity >= 1 ==> shrunk_capacity(capacity, len) >= 1,
        len <= shrunk_capacity(capacity, len),
{
}

} // verus!
