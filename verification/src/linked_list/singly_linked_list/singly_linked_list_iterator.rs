//! A walk over the elements of a list, head first.

use super::node::{elements, Node};
use vstd::prelude::*;

verus! {

/// The nodes that the walk has not handed out yet.
pub struct SinglyLinkedListIterator<T: Clone> {
    current: Option<Box<Node<T>>>,
}

impl<T: Clone> SinglyLinkedListIterator<T> {
    /// The elements that the walk has not handed out yet, in order.
    pub closed spec fn remaining(&self) -> Seq<T> {
        elements(self.current)
    }

    /// A walk over the elements from `head_node` on.
    pub fn new(head_node: Option<Box<Node<T>>>) -> (walk: Self)
        ensures
            walk.remaining() == elements(head_node),
    {
        Self { current: head_node }
    }

    /// Hands out the next element, and `None` once all have been handed out.
    pub fn next(&mut self) -> (item: Option<T>)
        ensures
            match item {
                Some(value) => {
                    &&& old(self).remaining().len() > 0
                    &&& value == old(self).remaining()[0]
                    &&& final(self).remaining() == old(self).remaining().drop_first()
                },
                None => {
                    &&& old(self).remaining().len() == 0
                    &&& final(self).remaining() == old(self).remaining()
                },
            },
    {
        match self.current.take() {
            Some(node) => {
                let (data, next) = (*node).into_parts();
                self.current = next;
                Some(data)
            },
            None => None,
        }
    }
}

} // verus!
