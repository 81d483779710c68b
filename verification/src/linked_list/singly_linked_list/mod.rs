//! A list of nodes, each owning the one behind it.

pub mod node;
pub mod singly_linked_list_iterator;

use crate::exceptions::{element_at, Exceptions};
use node::{copy_of, elements, Node};
use singly_linked_list_iterator::SinglyLinkedListIterator;
use vstd::prelude::*;
use vstd::std_specs::cmp::PartialEqSpec;

verus! {

/// A chain of nodes from the head on, and the number of its elements.
///
/// The view of a list is the sequence of its elements, head first.
pub struct SinglyLinkedList<T: Clone> {
    head: Option<Box<Node<T>>>,
    len: usize,
}

/// Whether `error` says that a traversal found no element, with the message
/// `message`.
pub open spec fn no_such_element(error: Exceptions, message: &str) -> bool {
    error matches Exceptions::NoSuchElement(text) && text@ == message@
}

impl<T: Clone> View for SinglyLinkedList<T> {
    type V = Seq<T>;

    closed spec fn view(&self) -> Seq<T> {
        elements(self.head)
    }
}

impl<T: Clone> SinglyLinkedList<T> {
    /// The representation invariant: the counter is the number of elements.
    pub closed spec fn wf(&self) -> bool {
        self.len == self@.len()
    }

    /// A list without elements.
    pub fn new() -> (list: Self)
        ensures
            list.wf(),
            list@ == Seq::<T>::empty(),
    {
        Self { head: None, len: 0 }
    }

    /// A list of the one element `data`.
    pub fn with_data(data: T) -> (list: Self)
        ensures
            list.wf(),
            list@ == seq![data],
    {
        let node = Node::new(data);
        Self { head: Some(Box::new(node)), len: 1 }
    }

    /// The link in front of the element at `index`: the head for 0, and the
    /// link behind the last node for the length of the list.
    fn link_at(&self, index: usize) -> (link: &Option<Box<Node<T>>>)
        requires
            index <= self@.len(),
        ensures
            elements(*link) == self@.skip(index as int),
    {
        let mut link: &Option<Box<Node<T>>> = &self.head;
        let mut walked: usize = 0;
        while walked < index
            invariant
                walked <= index <= self@.len(),
                elements(*link) == self@.skip(walked as int),
            decreases index - walked,
        {
            match link {
                Some(node) => {
                    link = node.get_next();
                    walked += 1;
                },
                None => {
                    return link;
                },
            }
        }
        link
    }

    /// The link in front of the element at `index`, for writing through. What
    /// the caller makes of the list from this link on is the only change to
    /// the elements.
    fn link_at_mut(&mut self, index: usize) -> (link: &mut Option<Box<Node<T>>>)
        requires
            index <= old(self)@.len(),
        ensures
            elements(*link) == old(self)@.skip(index as int),
            final(self)@ == old(self)@.take(index as int) + elements(*final(link)),
            final(self).len == old(self).len,
    {
        let ghost before = self@;
        let mut link: &mut Option<Box<Node<T>>> = &mut self.head;
        let mut walked: usize = 0;
        while walked < index
            invariant
                walked <= index <= before.len(),
                elements(*link) == before.skip(walked as int),
                elements(after_borrow(self.head)) == before.take(walked as int) + elements(
                    *final(link),
                ),
            decreases index - walked,
        {
            match link {
                Some(node) => {
                    link = node.get_next_mut();
                    walked += 1;
                },
                None => {
                    return link;
                },
            }
        }
        link
    }

    /// The element at `index`, or `IndexOutOfBounds` at and beyond the end.
    pub fn get(&self, index: usize) -> (found: Result<&T, Exceptions>)
        requires
            self.wf(),
        ensures
            match found {
                Ok(value) => element_at(self@, index) == Ok::<T, Exceptions>(*value),
                Err(error) => element_at(self@, index) == Err::<T, Exceptions>(error),
            },
    {
        if index >= self.len {
            return Err(Exceptions::IndexOutOfBounds);
        }
        match self.link_at(index) {
            Some(node) => Ok(node.get()),
            None => {
                assert(self@.skip(index as int).len() > 0);
                Err(Exceptions::NoSuchElement("Element not found".to_owned()))
            },
        }
    }

    /// The element at `index`, for writing through, or `IndexOutOfBounds` at
    /// and beyond the end. What the caller stores through the reference is the
    /// only change to the list.
    pub fn get_mut(&mut self, index: usize) -> (found: Result<&mut T, Exceptions>)
        requires
            old(self).wf(),
        ensures
            final(self).wf(),
            match found {
                Ok(value) => {
                    &&& element_at(old(self)@, index) == Ok::<T, Exceptions>(*value)
                    &&& final(self)@ == old(self)@.update(index as int, *final(value))
                },
                Err(error) => {
                    &&& element_at(old(self)@, index) == Err::<T, Exceptions>(error)
                    &&& final(self)@ == old(self)@
                },
            },
    {
        if index >= self.len {
            return Err(Exceptions::IndexOutOfBounds);
        }
        match self.link_at_mut(index) {
            Some(node) => Ok(node.get_mut()),
            None => Err(Exceptions::NoSuchElement("Element not found".to_owned())),
        }
    }

    /// Overwrites the element at `index`; `IndexOutOfBounds` at and beyond the
    /// end, where nothing changes.
    pub fn set(&mut self, index: usize, value: T) -> (done: Result<(), Exceptions>)
        requires
            old(self).wf(),
        ensures
            final(self).wf(),
            match done {
                Ok(_) => index < old(self)@.len() && final(self)@ == old(self)@.update(index as int, value),
                Err(error) => {
                    &&& element_at(old(self)@, index) == Err::<T, Exceptions>(error)
                    &&& final(self)@ == old(self)@
                },
            },
    {
        if index >= self.len {
            return Err(Exceptions::IndexOutOfBounds);
        }
        match self.link_at_mut(index) {
            Some(node) => {
                node.set(value);
                Ok(())
            },
            None => Err(Exceptions::NoSuchElement("Element not found".to_owned())),
        }
    }

    /// Puts `value` in front of every element.
    pub fn unshift(&mut self, value: T)
        requires
            old(self).wf(),
            old(self)@.len() < usize::MAX,
        ensures
            final(self).wf(),
            final(self)@ == seq![value] + old(self)@,
    {
        let mut node: Node<T> = Node::new(value);
        node.set_next(self.head.take());
        self.head = Some(Box::new(node));
        self.len += 1;
    }

    /// Appends `value`.
    pub fn push(&mut self, value: T)
        requires
            old(self).wf(),
            old(self)@.len() < usize::MAX,
        ensures
            final(self).wf(),
            final(self)@ == old(self)@.push(value),
    {
        let end = self.len;
        let link = self.link_at_mut(end);
        *link = Some(Box::new(Node::new(value)));
        self.len += 1;
    }

    /// Puts `value` at `index`, in front of the element that was there;
    /// `IndexOutOfBounds` at and beyond the end, where nothing changes: `push`
    /// is the way to append.
    pub fn insert(&mut self, index: usize, value: T) -> (done: Result<(), Exceptions>)
        requires
            old(self).wf(),
            index < old(self)@.len() ==> old(self)@.len() < usize::MAX,
        ensures
            final(self).wf(),
            match done {
                Ok(_) => {
                    &&& index < old(self)@.len()
                    &&& final(self)@ == old(self)@.insert(index as int, value)
                },
                Err(error) => {
                    &&& element_at(old(self)@, index) == Err::<T, Exceptions>(error)
                    &&& final(self)@ == old(self)@
                },
            },
    {
        if index >= self.len {
            return Err(Exceptions::IndexOutOfBounds);
        }
        let link = self.link_at_mut(index);
        let mut node: Node<T> = Node::new(value);
        node.set_next(link.take());
        *link = Some(Box::new(node));
        self.len += 1;
        Ok(())
    }

    /// Takes the first element out; `NoSuchElement` where the list is empty.
    pub fn shift(&mut self) -> (removed: Result<T, Exceptions>)
        requires
            old(self).wf(),
        ensures
            final(self).wf(),
            match removed {
                Ok(value) => {
                    &&& old(self)@.len() > 0
                    &&& value == old(self)@[0]
                    &&& final(self)@ == old(self)@.drop_first()
                },
                Err(error) => {
                    &&& old(self)@.len() == 0
                    &&& no_such_element(error, "The list is empty")
                    &&& final(self)@ == old(self)@
                },
            },
    {
        match self.head.take() {
            Some(node) => {
                let (data, next) = (*node).into_parts();
                self.head = next;
                self.len -= 1;
                Ok(data)
            },
            None => Err(Exceptions::NoSuchElement("The list is empty".to_owned())),
        }
    }

    /// Takes the last element out; `NoSuchElement` where the list is empty.
    pub fn pop(&mut self) -> (removed: Result<T, Exceptions>)
        requires
            old(self).wf(),
        ensures
            final(self).wf(),
            match removed {
                Ok(value) => {
                    &&& old(self)@.len() > 0
                    &&& value == old(self)@.last()
                    &&& final(self)@ == old(self)@.drop_last()
                },
                Err(error) => {
                    &&& old(self)@.len() == 0
                    &&& no_such_element(error, "The list is empty")
                    &&& final(self)@ == old(self)@
                },
            },
    {
        if self.len == 0 {
            return Err(Exceptions::NoSuchElement("The list is empty".to_owned()));
        }
        let ghost before = self@;
        let last = self.len - 1;
        let link = self.link_at_mut(last);
        match link.take() {
            Some(node) => {
                let (data, next) = (*node).into_parts();
                proof {
                    assert((seq![data] + elements(next))[0] == before.skip(last as int)[0]);
                    assert((seq![data] + elements(next)).len() == before.skip(last as int).len());
                }
                self.len -= 1;
                Ok(data)
            },
            None => Err(Exceptions::NoSuchElement("Element not found".to_owned())),
        }
    }

    /// Takes the element at `index` out and closes the gap. `NoSuchElement`
    /// where the list is empty, `IndexOutOfBounds` where it is not and `index`
    /// is at or beyond the end; nothing changes then.
    pub fn remove(&mut self, index: usize) -> (removed: Result<T, Exceptions>)
        requires
            old(self).wf(),
        ensures
            final(self).wf(),
            match removed {
                Ok(value) => {
                    &&& element_at(old(self)@, index) == Ok::<T, Exceptions>(value)
                    &&& final(self)@ == old(self)@.remove(index as int)
                },
                Err(error) => {
                    &&& index >= old(self)@.len()
                    &&& if old(self)@.len() == 0 {
                        no_such_element(error, "The list is empty")
                    } else {
                        error == Exceptions::IndexOutOfBounds
                    }
                    &&& final(self)@ == old(self)@
                },
            },
    {
        if self.len == 0 {
            return Err(Exceptions::NoSuchElement("The list is empty".to_owned()));
        }
        if index >= self.len {
            return Err(Exceptions::IndexOutOfBounds);
        }
        let ghost before = self@;
        let link = self.link_at_mut(index);
        match link.take() {
            Some(node) => {
                let (data, next) = (*node).into_parts();
                proof {
                    assert((seq![data] + elements(next))[0] == before.skip(index as int)[0]);
                    assert(before.skip(index as int).skip(1) =~= before.skip(index + 1));
                }
                *link = next;
                self.len -= 1;
                Ok(data)
            },
            None => Err(Exceptions::NoSuchElement("Element not found".to_owned())),
        }
    }

    /// A walk over copies of the elements, head first.
    pub fn iter(&self) -> (walk: SinglyLinkedListIterator<T>)
        ensures
            walk.remaining().len() == self@.len(),
            forall|i: int|
                0 <= i < self@.len() ==> cloned(self@[i], #[trigger] walk.remaining()[i]),
    {
        SinglyLinkedListIterator::new(copy_of(&self.head))
    }

    /// The number of elements.
    pub fn len(&self) -> (len: usize)
        requires
            self.wf(),
        ensures
            len == self@.len(),
    {
        self.len
    }

    /// Whether the list has no element.
    pub fn is_empty(&self) -> (empty: bool)
        requires
            self.wf(),
        ensures
            empty == (self@.len() == 0),
    {
        self.len == 0
    }
}

impl<T: Copy + PartialEq> SinglyLinkedList<T> {
    /// Puts `value` behind the first element that equals `pred_value`;
    /// `NoSuchElement` where no element does, and then nothing changes. What
    /// "equals" means is up to `T`: where its `==` follows its `eq_spec`, the
    /// element that is picked is the first one that `eq_spec` accepts.
    pub fn insert_after(&mut self, pred_value: T, value: T) -> (done: Result<(), Exceptions>)
        requires
            old(self).wf(),
            old(self)@.len() < usize::MAX,
        ensures
            final(self).wf(),
            match done {
                Ok(_) => exists|at: int| #[trigger]
                    inserted_behind(old(self)@, final(self)@, at, value) && (T::obeys_eq_spec()
                        ==> first_equal(old(self)@, pred_value, at)),
                Err(error) => {
                    &&& no_such_element(error, "Predecessor not found")
                    &&& final(self)@ == old(self)@
                    &&& T::obeys_eq_spec() ==> none_equal(old(self)@, pred_value, old(self)@.len() as int)
                },
            },
    {
        let ghost before = self@;
        let mut link: &mut Option<Box<Node<T>>> = &mut self.head;
        let ghost mut walked: int = 0;
        loop
            invariant
                before == old(self)@,
                self.len == before.len(),
                before.len() < usize::MAX,
                0 <= walked <= before.len(),
                elements(*link) == before.skip(walked),
                elements(after_borrow(self.head)) == before.take(walked) + elements(*final(link)),
                T::obeys_eq_spec() ==> none_equal(before, pred_value, walked),
            ensures
                self.len == before.len(),
                walked == before.len(),
                elements(*link) == before.skip(walked),
                elements(after_borrow(self.head)) == before.take(walked) + elements(*final(link)),
                T::obeys_eq_spec() ==> none_equal(before, pred_value, walked),
            decreases before.len() - walked,
        {
            match link {
                Some(node) => {
                    proof {
                        node.lemma_not_empty();
                    }
                    let ghost first = node@[0];
                    let ghost rest = node@.skip(1);
                    if *node.get() == pred_value {
                        let mut new_node: Node<T> = Node::new(value);
                        new_node.set_next(node.get_next_mut().take());
                        node.set_next(Some(Box::new(new_node)));
                        self.len += 1;
                        proof {
                            assert(before.take(walked) + (seq![first] + (seq![value] + rest))
                                =~= before.insert(walked + 1, value));
                            assert(inserted_behind(before, self@, walked, value));
                        }
                        return Ok(());
                    }
                    link = node.get_next_mut();
                    proof {
                        walked = walked + 1;
                    }
                },
                None => {
                    break ;
                },
            }
        }
        Err(Exceptions::NoSuchElement("Predecessor not found".to_owned()))
    }
}

/// Whether `after` is `before` with `value` put behind the element at `at`.
pub open spec fn inserted_behind<T>(before: Seq<T>, after: Seq<T>, at: int, value: T) -> bool {
    0 <= at < before.len() && after == before.insert(at + 1, value)
}

/// Whether none of the first `upto` of `items` equals `wanted`, by the
/// `eq_spec` of `T`.
pub open spec fn none_equal<T: PartialEq>(items: Seq<T>, wanted: T, upto: int) -> bool {
    forall|i: int| 0 <= i < upto && i < items.len() ==> !(#[trigger] items[i]).eq_spec(&wanted)
}

/// Whether the element at `at` is the first of `items` that equals `wanted`,
/// by the `eq_spec` of `T`.
pub open spec fn first_equal<T: PartialEq>(items: Seq<T>, wanted: T, at: int) -> bool {
    &&& 0 <= at < items.len()
    &&& items[at].eq_spec(&wanted)
    &&& none_equal(items, wanted, at)
}

impl<T: Clone> Clone for SinglyLinkedList<T> {
    /// A second list that holds a copy of each element, in the same order.
    fn clone(&self) -> (copy: Self)
        ensures
            self.wf() ==> copy.wf(),
            copy@.len() == self@.len(),
            forall|i: int| 0 <= i < self@.len() ==> cloned(self@[i], #[trigger] copy@[i]),
    {
        Self { head: copy_of(&self.head), len: self.len }
    }
}

impl<T: Clone> Default for SinglyLinkedList<T> {
    /// A list without elements.
    fn default() -> (list: Self)
        ensures
            list.wf(),
            list@ == Seq::<T>::empty(),
    {
        Self::new()
    }
}

/// Whether the elements of `list` are copies of `values`, in the same order.
pub open spec fn copies_of<T: Clone>(list: SinglyLinkedList<T>, values: Seq<T>) -> bool {
    &&& list.wf()
    &&& list@.len() == values.len()
    &&& forall|i: int| 0 <= i < values.len() ==> cloned(values[i], #[trigger] list@[i])
}

/// A list of copies of `values`, in the same order.
fn from_slice<T: Clone>(values: &[T]) -> (list: SinglyLinkedList<T>)
    ensures
        copies_of(list, values@),
{
    let mut list: SinglyLinkedList<T> = SinglyLinkedList::new();
    let mut index: usize = values.len();
    while index > 0
        invariant
            index <= values@.len(),
            list.wf(),
            list@.len() == values@.len() - index,
            forall|i: int|
                0 <= i < list@.len() ==> cloned(values@[index + i], #[trigger] list@[i]),
        decreases index,
    {
        index -= 1;
        list.unshift(values[index].clone());
    }
    list
}

impl<T: Clone, const N: usize> From<&[T; N]> for SinglyLinkedList<T> {
    /// A list of copies of `values`, in the same order.
    fn from(values: &[T; N]) -> (list: Self)
        ensures
            copies_of(list, values@),
    {
        from_slice(values.as_slice())
    }
}

impl<T: Clone, const N: usize> vstd::std_specs::convert::FromSpecImpl<&[T; N]> for SinglyLinkedList<T> {
    open spec fn obeys_from_spec() -> bool {
        false
    }

    open spec fn from_spec(values: &[T; N]) -> Self {
        choose|list: Self| copies_of(list, values@)
    }
}

impl<T: Clone> From<&[T]> for SinglyLinkedList<T> {
    /// A list of copies of `values`, in the same order.
    fn from(values: &[T]) -> (list: Self)
        ensures
            copies_of(list, values@),
    {
        from_slice(values)
    }
}

impl<T: Clone> vstd::std_specs::convert::FromSpecImpl<&[T]> for SinglyLinkedList<T> {
    open spec fn obeys_from_spec() -> bool {
        false
    }

    open spec fn from_spec(values: &[T]) -> Self {
        choose|list: Self| copies_of(list, values@)
    }
}

impl<T: Clone> From<Vec<T>> for SinglyLinkedList<T> {
    /// A list of the elements of `values`, in the same order.
    fn from(values: Vec<T>) -> (list: Self)
        ensures
            list.wf(),
            list@ == values@,
    {
        let mut values = values;
        let ghost all = values@;
        let mut list: Self = Self::new();
        assert(values.len() == all.len());
        while values.len() > 0
            invariant
                values@ == all.take(values@.len() as int),
                values@.len() <= all.len() <= usize::MAX,
                list.wf(),
                list@ == all.skip(values@.len() as int),
            decreases values@.len(),
        {
            if let Some(value) = values.pop() {
                list.unshift(value);
            }
        }
        list
    }
}

impl<T: Clone> vstd::std_specs::convert::FromSpecImpl<Vec<T>> for SinglyLinkedList<T> {
    open spec fn obeys_from_spec() -> bool {
        false
    }

    open spec fn from_spec(values: Vec<T>) -> Self {
        choose|list: Self| list.wf() && list@ == values@
    }
}

} // verus!
