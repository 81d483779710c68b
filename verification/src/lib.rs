//! Classic containers with machine-checked contracts: a fixed-capacity array,
//! a resizable array, a singly linked list and a separate-chaining hash table.

pub mod array;
pub mod exceptions;
pub mod linked_list;
pub mod separate_chaining_hash_table;

pub use array::dynamic_array::DynamicArray;
pub use array::static_array::StaticArray;
pub use exceptions::Exceptions;
pub use linked_list::singly_linked_list::node::Node;
pub use linked_list::singly_linked_list::SinglyLinkedList;
pub use linked_list::{LinkedList, LinkedListIterator};
pub use separate_chaining_hash_table::SeparateChainingHashTable;
