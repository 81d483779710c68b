//! Lists of linked nodes. There is one list type; `LinkedList` is its
//! shorter name.

pub mod singly_linked_list;

use singly_linked_list::singly_linked_list_iterator::SinglyLinkedListIterator;
use singly_linked_list::SinglyLinkedList;
use vstd::prelude::*;

verus! {

/// The singly linked list, under its shorter name.
pub type LinkedList<T> = SinglyLinkedList<T>;

/// The walk over a list, under its shorter name.
pub type LinkedListIterator<T> = SinglyLinkedListIterator<T>;

} // verus!
