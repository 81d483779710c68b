//! One link of a list: an element and the links that follow it.

use vstd::prelude::*;

verus! {

/// An element and, behind it, the rest of the list.
///
/// The view of a node is the sequence of the elements from this node to the
/// end of the list.
#[derive(Debug)]
pub struct Node<T: Clone> {
    data: T,
    next: Option<Box<Node<T>>>,
}

/// The elements from `link` to the end of the list; none where there is no
/// node.
pub open spec fn elements<T: Clone>(link: Option<Box<Node<T>>>) -> Seq<T> {
    match link {
        Some(node) => node@,
        None => Seq::empty(),
    }
}

impl<T: Clone> View for Node<T> {
    type V = Seq<T>;

    closed spec fn view(&self) -> Seq<T> {
        self.items()
    }
}

impl<T: Clone> Node<T> {
    /// The element of this node followed by those of the nodes behind it.
    spec fn items(&self) -> Seq<T>
        decreases self,
    {
        seq![self.data] + match self.next {
            Some(node) => node.items(),
            None => Seq::empty(),
        }
    }

    /// A node holds at least its own element.
    pub proof fn lemma_not_empty(&self)
        ensures
            self@.len() > 0,
    {
    }

    /// A node that holds `data`, with nothing behind it.
    pub fn new(data: T) -> (node: Self)
        ensures
            node@ == seq![data],
    {
        Self { data, next: None }
    }

    /// The element.
    pub fn get(&self) -> (data: &T)
        ensures
            *data == self@[0],
    {
        &self.data
    }

    /// The element, for writing through. What follows it stays.
    pub fn get_mut(&mut self) -> (data: &mut T)
        ensures
            *data == old(self)@[0],
            final(self)@ == old(self)@.update(0, *final(data)),
    {
        &mut self.data
    }

    /// What follows the element.
    pub fn get_next(&self) -> (next: &Option<Box<Self>>)
        ensures
            elements(*next) == self@.skip(1),
    {
        &self.next
    }

    /// What follows the element, for writing through. The element stays.
    pub fn get_next_mut(&mut self) -> (next: &mut Option<Box<Self>>)
        ensures
            elements(*next) == old(self)@.skip(1),
            final(self)@ == seq![old(self)@[0]] + elements(*final(next)),
    {
        &mut self.next
    }

    /// Replaces the element. What follows it stays.
    pub fn set(&mut self, data: T)
        ensures
            final(self)@ == old(self)@.update(0, data),
    {
        self.data = data;
    }

    /// Takes the node apart into its element and what follows it.
    pub fn into_parts(self) -> (parts: (T, Option<Box<Self>>))
        ensures
            self@ == seq![parts.0] + elements(parts.1),
    {
        (self.data, self.next)
    }

    /// Replaces what follows the element. The element stays.
    pub fn set_next(&mut self, next: Option<Box<Self>>)
        ensures
            final(self)@ == seq![old(self)@[0]] + elements(next),
    {
        self.next = next;
    }
}

/// A second chain of nodes that holds a copy of each element of `source`, in
/// the same order.
pub fn copy_of<T: Clone>(source: &Option<Box<Node<T>>>) -> (copy: Option<Box<Node<T>>>)
    ensures
        elements(copy).len() == elements(*source).len(),
        forall|i: int|
            0 <= i < elements(*source).len() ==> cloned(
                elements(*source)[i],
                #[trigger] elements(copy)[i],
            ),
{
    let mut head: Option<Box<Node<T>>> = None;
    let mut tail: &mut Option<Box<Node<T>>> = &mut head;
    let mut link: &Option<Box<Node<T>>> = source;
    let ghost mut done: Seq<T> = Seq::empty();
    loop
        invariant
            elements(*tail).len() == 0,
            elements(after_borrow(head)) == done + elements(*final(tail)),
            done.len() <= elements(*source).len(),
            elements(*link) == elements(*source).skip(done.len() as int),
            forall|i: int| 0 <= i < done.len() ==> cloned(elements(*source)[i], #[trigger] done[i]),
        ensures
            elements(*tail).len() == 0,
            elements(after_borrow(head)) == done + elements(*final(tail)),
            done.len() == elements(*source).len(),
            forall|i: int| 0 <= i < done.len() ==> cloned(elements(*source)[i], #[trigger] done[i]),
        decreases elements(*source).len() - done.len(),
    {
        match link {
            Some(node) => {
                let data = node.get().clone();
                *tail = Some(Box::new(Node::new(data)));
                if let Some(fresh) = tail {
                    tail = fresh.get_next_mut();
                }
                link = node.get_next();
                proof {
                    done = done.push(data);
                }
            },
            None => {
                break ;
            },
        }
    }
    head
}

impl<T: Clone> Clone for Node<T> {
    /// A second node that holds a copy of the element, with copies of the
    /// nodes behind it.
    fn clone(&self) -> (copy: Self)
        ensures
            copy@.len() == self@.len(),
            forall|i: int| 0 <= i < self@.len() ==> cloned(self@[i], #[trigger] copy@[i]),
    {
        Self { data: self.data.clone(), next: copy_of(&self.next) }
    }
}

} // verus!
