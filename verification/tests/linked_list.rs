use data_structures::linked_list::singly_linked_list::singly_linked_list_iterator::SinglyLinkedListIterator;
use data_structures::{Exceptions, LinkedList, Node, SinglyLinkedList};

fn elements(list: &SinglyLinkedList<i32>) -> Vec<i32> {
    let mut out = Vec::new();
    let mut walk = list.iter();
    while let Some(value) = walk.next() {
        out.push(value);
    }
    out
}

fn not_found(message: &str) -> Exceptions {
    Exceptions::NoSuchElement(String::from(message))
}

#[test]
fn list_new_is_empty() {
    let list: SinglyLinkedList<i32> = SinglyLinkedList::new();
    assert!(list.is_empty());
    assert_eq!(list.len(), 0);
    assert_eq!(list.get(0), Err(Exceptions::IndexOutOfBounds));
    let list: SinglyLinkedList<i32> = SinglyLinkedList::default();
    assert!(list.is_empty());
}

#[test]
fn list_with_data_has_one_element() {
    let list = SinglyLinkedList::with_data(42);
    assert_eq!(list.len(), 1);
    assert_eq!(list.get(0), Ok(&42));
    assert_eq!(list.get(1), Err(Exceptions::IndexOutOfBounds));
}

#[test]
fn list_get_mut_and_set_write() {
    let mut list = SinglyLinkedList::from(&[1, 2, 3]);
    if let Ok(value) = list.get_mut(2) {
        *value = 100;
    }
    assert_eq!(list.set(0, 7), Ok(()));
    assert_eq!(elements(&list), vec![7, 2, 100]);
    assert_eq!(list.get_mut(3), Err(Exceptions::IndexOutOfBounds));
    assert_eq!(list.set(3, 200), Err(Exceptions::IndexOutOfBounds));
    assert_eq!(list.len(), 3);
}

#[test]
fn list_unshift_puts_in_front() {
    let mut list = SinglyLinkedList::new();
    list.unshift(10);
    list.unshift(20);
    assert_eq!(list.len(), 2);
    assert_eq!(list.get(0), Ok(&20));
    assert_eq!(list.get(1), Ok(&10));
}

#[test]
fn list_push_appends() {
    let mut list = SinglyLinkedList::new();
    list.push(10);
    list.push(20);
    list.push(30);
    assert_eq!(list.len(), 3);
    assert_eq!(elements(&list), vec![10, 20, 30]);
}

#[test]
fn list_insert_puts_in_front_of_the_index() {
    let mut list = SinglyLinkedList::with_data(10);
    assert_eq!(list.insert(0, 5), Ok(()));
    assert_eq!(list.get(0), Ok(&5));
    assert_eq!(list.insert(1, 15), Ok(()));
    assert_eq!(elements(&list), vec![5, 15, 10]);
    assert_eq!(list.insert(3, 20), Err(Exceptions::IndexOutOfBounds));
    assert_eq!(list.insert(2, 20), Ok(()));
    assert_eq!(elements(&list), vec![5, 15, 20, 10]);
    assert_eq!(list.len(), 4);
}

#[test]
fn list_insert_into_an_empty_list_is_rejected() {
    let mut list: SinglyLinkedList<i32> = SinglyLinkedList::new();
    assert_eq!(list.insert(0, 1), Err(Exceptions::IndexOutOfBounds));
    assert!(list.is_empty());
}

#[test]
fn list_shift_takes_the_first() {
    let mut list = SinglyLinkedList::from(&[42, 43]);
    assert_eq!(list.shift(), Ok(42));
    assert_eq!(list.shift(), Ok(43));
    assert!(list.is_empty());
    assert_eq!(list.shift(), Err(not_found("The list is empty")));
}

#[test]
fn list_pop_takes_the_last() {
    let mut list = SinglyLinkedList::from(&[42, 100]);
    assert_eq!(list.pop(), Ok(100));
    assert_eq!(list.len(), 1);
    assert_eq!(list.pop(), Ok(42));
    assert!(list.is_empty());
    assert_eq!(list.pop(), Err(not_found("The list is empty")));
}

#[test]
fn list_remove_closes_the_gap() {
    let mut list = SinglyLinkedList::from(&[10, 20, 30, 40]);
    assert_eq!(list.remove(3), Ok(40));
    assert_eq!(list.len(), 3);
    assert_eq!(list.remove(1), Ok(20));
    assert_eq!(list.len(), 2);
    assert_eq!(list.get(1), Ok(&30));
    assert_eq!(list.remove(0), Ok(10));
    assert_eq!(list.get(0), Ok(&30));
    assert_eq!(list.remove(0), Ok(30));
    assert!(list.is_empty());
    assert_eq!(list.remove(0), Err(not_found("The list is empty")));
}

#[test]
fn list_remove_beyond_the_end_is_out_of_bounds() {
    let mut list = SinglyLinkedList::from(&[10, 20]);
    assert_eq!(list.remove(2), Err(Exceptions::IndexOutOfBounds));
    assert_eq!(list.remove(9), Err(Exceptions::IndexOutOfBounds));
    assert_eq!(elements(&list), vec![10, 20]);
    assert_eq!(list.len(), 2);
}

#[test]
fn list_remove_from_a_single_element_list() {
    let mut list = SinglyLinkedList::with_data(10);
    assert_eq!(list.remove(5), Err(Exceptions::IndexOutOfBounds));
    assert_eq!(list.len(), 1);
    assert_eq!(list.get(0), Ok(&10));
    assert_eq!(list.remove(0), Ok(10));
    assert_eq!(list.remove(5), Err(not_found("The list is empty")));
}

#[test]
fn list_insert_after_finds_the_first_equal_element() {
    let mut list = SinglyLinkedList::from(&[10, 20, 10]);
    assert_eq!(list.insert_after(10, 15), Ok(()));
    assert_eq!(elements(&list), vec![10, 15, 20, 10]);
    assert_eq!(list.len(), 4);
    assert_eq!(list.insert_after(10, 16), Ok(()));
    assert_eq!(elements(&list), vec![10, 16, 15, 20, 10]);
    assert_eq!(list.insert_after(4, 30), Err(not_found("Predecessor not found")));
    assert_eq!(list.len(), 5);
}

#[test]
fn list_insert_after_the_last_element_appends() {
    let mut list = SinglyLinkedList::from(&[1, 2]);
    assert_eq!(list.insert_after(2, 3), Ok(()));
    assert_eq!(elements(&list), vec![1, 2, 3]);
    let mut empty: SinglyLinkedList<i32> = SinglyLinkedList::new();
    assert_eq!(empty.insert_after(1, 2), Err(not_found("Predecessor not found")));
}

#[test]
fn list_from_keeps_the_order() {
    let values = vec![1, 2, 3];
    assert_eq!(elements(&SinglyLinkedList::from(&[1, 2, 3])), vec![1, 2, 3]);
    assert_eq!(elements(&SinglyLinkedList::from(values.as_slice())), vec![1, 2, 3]);
    assert_eq!(elements(&SinglyLinkedList::from(values)), vec![1, 2, 3]);
    let none: Vec<i32> = Vec::new();
    assert!(SinglyLinkedList::from(none).is_empty());
}

#[test]
fn list_iter_copies_and_leaves_the_list() {
    let list = SinglyLinkedList::with_data(10);
    let mut walk = list.iter();
    assert_eq!(walk.next(), Some(10));
    assert_eq!(walk.next(), None);
    assert_eq!(list.len(), 1);
    assert_eq!(list.get(0), Ok(&10));
}

#[test]
fn list_clone_is_independent() {
    let list = SinglyLinkedList::from(&[1, 2, 3]);
    let mut copy = list.clone();
    copy.push(4);
    assert_eq!(copy.shift(), Ok(1));
    assert_eq!(elements(&copy), vec![2, 3, 4]);
    assert_eq!(elements(&list), vec![1, 2, 3]);
    assert_eq!(list.len(), 3);
}

#[test]
fn list_under_its_shorter_name() {
    let mut list: LinkedList<&str> = LinkedList::new();
    list.unshift("Saturno");
    list.unshift("Marte");
    list.push("Urano");
    assert_eq!(list.len(), 3);
    assert_eq!(list.get(0), Ok(&"Marte"));
    assert_eq!(list.pop(), Ok("Urano"));
}

#[test]
fn node_holds_an_element_and_what_follows() {
    let mut node = Node::new(1);
    assert_eq!(node.get(), &1);
    assert!(node.get_next().is_none());
    node.set(2);
    *node.get_mut() = 3;
    node.set_next(Some(Box::new(Node::new(4))));
    assert_eq!(node.get(), &3);
    match node.get_next() {
        Some(next) => assert_eq!(next.get(), &4),
        None => panic!("the node behind is missing"),
    }
    *node.get_next_mut() = None;
    assert!(node.get_next().is_none());
    let (data, next) = node.into_parts();
    assert_eq!(data, 3);
    assert!(next.is_none());
}

#[test]
fn walk_over_given_nodes() {
    let mut head = Node::new(1);
    head.set_next(Some(Box::new(Node::new(2))));
    let mut walk = SinglyLinkedListIterator::new(Some(Box::new(head)));
    assert_eq!(walk.next(), Some(1));
    assert_eq!(walk.next(), Some(2));
    assert_eq!(walk.next(), None);
}

#[test]
fn node_clone_copies_what_follows() {
    let mut head = Node::new(1);
    head.set_next(Some(Box::new(Node::new(2))));
    let mut copy = head.clone();
    copy.set(9);
    assert_eq!(head.get(), &1);
    assert_eq!(copy.get(), &9);
    match copy.get_next() {
        Some(next) => assert_eq!(next.get(), &2),
        None => panic!("the node behind is missing"),
    }
}
