use data_structures::{Exceptions, StaticArray};

fn items(array: &StaticArray<i32>) -> Vec<i32> {
    let mut out = Vec::new();
    let mut index = 0;
    while let Ok(value) = array.get(index) {
        out.push(*value);
        index += 1;
    }
    out
}

#[test]
fn static_new_is_empty() {
    let array: StaticArray<i32> = StaticArray::new(5);
    assert_eq!(array.capacity(), 5);
    assert_eq!(array.len(), 0);
    assert!(array.is_empty());
}

#[test]
fn static_with_values_fills_and_truncates() {
    let array = StaticArray::with_values(5, &[1, 2, 3]);
    assert_eq!(array.capacity(), 5);
    assert_eq!(items(&array), vec![1, 2, 3]);
    assert_eq!(array.get(3), Err(Exceptions::IndexOutOfBounds));
    let array = StaticArray::with_values(2, &[10, 20, 30]);
    assert_eq!(array.len(), 2);
    assert_eq!(items(&array), vec![10, 20]);
}

#[test]
fn static_get_mut_and_set_write() {
    let mut array = StaticArray::with_values(3, &[1, 2, 3]);
    if let Ok(value) = array.get_mut(1) {
        *value = 42;
    }
    assert_eq!(array.get(1), Ok(&42));
    assert_eq!(array.set(0, 7), Ok(()));
    assert_eq!(items(&array), vec![7, 42, 3]);
    assert_eq!(array.set(5, 10), Err(Exceptions::IndexOutOfBounds));
    assert_eq!(array.get_mut(3), Err(Exceptions::IndexOutOfBounds));
}

#[test]
fn static_unshift_on_a_full_array_drops_the_last() {
    let mut array = StaticArray::with_values(3, &[1, 2, 3]);
    array.unshift(0);
    assert_eq!(items(&array), vec![0, 1, 2]);
    assert_eq!(array.len(), 3);
    assert_eq!(array.capacity(), 3);
}

#[test]
fn static_unshift_with_room_keeps_everything() {
    let mut array = StaticArray::new(5);
    array.unshift(42);
    assert_eq!(array.len(), 1);
    assert_eq!(array.get(0), Ok(&42));
    array.unshift(41);
    assert_eq!(items(&array), vec![41, 42]);
}

#[test]
fn static_unshift_keeps_the_capacity() {
    let mut array = StaticArray::new(4);
    for i in 0..5 {
        array.unshift(i);
    }
    assert_eq!(array.capacity(), 4);
    assert_eq!(items(&array), vec![4, 3, 2, 1]);
}

#[test]
fn static_push_fails_when_full() {
    let mut array = StaticArray::new(3);
    assert_eq!(array.push(10), Ok(()));
    assert_eq!(array.push(20), Ok(()));
    assert_eq!(array.len(), 2);
    assert_eq!(array.get(1), Ok(&20));
    assert_eq!(array.push(30), Ok(()));
    assert_eq!(array.push(40), Err(Exceptions::IndexOutOfBounds));
    assert_eq!(items(&array), vec![10, 20, 30]);
}

#[test]
fn static_insert_on_a_full_array_drops_the_last() {
    let mut array = StaticArray::with_values(3, &[1, 2, 3]);
    assert_eq!(array.insert(1, 42), Ok(()));
    assert_eq!(items(&array), vec![1, 42, 2]);
    assert_eq!(array.len(), 3);
    assert_eq!(array.insert(5, 10), Err(Exceptions::IndexOutOfBounds));
    assert_eq!(array.insert(2, 9), Ok(()));
    assert_eq!(items(&array), vec![1, 42, 9]);
}

#[test]
fn static_insert_with_room_keeps_everything() {
    let mut array = StaticArray::with_values(5, &[1, 2, 3]);
    assert_eq!(array.insert(0, 0), Ok(()));
    assert_eq!(items(&array), vec![0, 1, 2, 3]);
    assert_eq!(array.insert(3, 9), Ok(()));
    assert_eq!(items(&array), vec![0, 1, 2, 9, 3]);
    assert_eq!(array.insert(5, 9), Err(Exceptions::IndexOutOfBounds));
}

#[test]
fn static_remove_closes_the_gap() {
    let mut array = StaticArray::with_values(5, &[1, 2, 3]);
    assert_eq!(array.remove(1), Ok(2));
    assert_eq!(array.len(), 2);
    assert_eq!(array.get(1), Ok(&3));
    assert_eq!(array.capacity(), 5);
    assert_eq!(array.remove(5), Err(Exceptions::IndexOutOfBounds));
    assert_eq!(array.remove(1), Ok(3));
    assert_eq!(array.remove(0), Ok(1));
    assert!(array.is_empty());
    assert_eq!(array.remove(0), Err(Exceptions::IndexOutOfBounds));
}

#[test]
fn static_next_and_clone() {
    let mut array = StaticArray::with_values(3, &[5, 6]);
    let copy = array.clone();
    assert_eq!(array.next(), Some(5));
    assert_eq!(array.next(), Some(6));
    assert_eq!(array.next(), None);
    assert_eq!(items(&copy), vec![5, 6]);
    assert_eq!(copy.capacity(), 3);
}
