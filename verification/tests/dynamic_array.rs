use data_structures::{DynamicArray, Exceptions};

fn contents(array: &DynamicArray<i32>) -> Vec<i32> {
    let mut out = Vec::new();
    let mut index = 0;
    while let Ok(value) = array.get(index) {
        out.push(*value);
        index += 1;
    }
    out
}

#[test]
fn new_array_is_empty_with_the_given_capacity() {
    let array: DynamicArray<i32> = DynamicArray::new(5);
    assert_eq!(array.capacity(), 5);
    assert_eq!(array.len(), 0);
    assert!(array.is_empty());
    assert_eq!(array.get(0), Err(Exceptions::IndexOutOfBounds));
}

#[test]
fn with_values_fills_from_the_front() {
    let array = DynamicArray::with_values(5, &[1, 2, 3]);
    assert_eq!(array.capacity(), 5);
    assert_eq!(array.len(), 3);
    assert_eq!(array.get(0), Ok(&1));
    assert_eq!(array.get(1), Ok(&2));
    assert_eq!(array.get(2), Ok(&3));
    assert_eq!(array.get(3), Err(Exceptions::IndexOutOfBounds));
}

#[test]
fn with_values_drops_what_does_not_fit() {
    let array = DynamicArray::with_values(2, &[10, 20, 30]);
    assert_eq!(array.len(), 2);
    assert_eq!(array.capacity(), 2);
    assert_eq!(array.get(1), Ok(&20));
    assert_eq!(array.get(2), Err(Exceptions::IndexOutOfBounds));
}

#[test]
fn with_values_of_no_capacity_is_empty() {
    let array = DynamicArray::with_values(0, &[1, 2]);
    assert!(array.is_empty());
    assert_eq!(array.capacity(), 0);
}

#[test]
fn get_beyond_the_length_is_out_of_bounds() {
    let array = DynamicArray::with_values(4, &[1, 2, 3]);
    assert_eq!(array.get(1), Ok(&2));
    assert_eq!(array.get(3), Err(Exceptions::IndexOutOfBounds));
    assert_eq!(array.get(4), Err(Exceptions::IndexOutOfBounds));
}

#[test]
fn get_mut_writes_through() {
    let mut array = DynamicArray::with_values(3, &[1, 2, 3]);
    if let Ok(value) = array.get_mut(1) {
        *value = 42;
    }
    assert_eq!(contents(&array), vec![1, 42, 3]);
    assert_eq!(array.get_mut(3), Err(Exceptions::IndexOutOfBounds));
}

#[test]
fn set_overwrites_and_get_reads_it_back() {
    let mut array = DynamicArray::with_values(3, &[1, 2, 3]);
    assert_eq!(array.set(1, 42), Ok(()));
    assert_eq!(array.get(1), Ok(&42));
    assert_eq!(array.get(0), Ok(&1));
    assert_eq!(array.get(2), Ok(&3));
    assert_eq!(array.len(), 3);
    assert_eq!(array.capacity(), 3);
    assert_eq!(array.set(5, 10), Err(Exceptions::IndexOutOfBounds));
    assert_eq!(array.set(3, 10), Err(Exceptions::IndexOutOfBounds));
    assert_eq!(contents(&array), vec![1, 42, 3]);
}

#[test]
fn unshift_on_a_full_array_doubles_the_capacity() {
    let mut array = DynamicArray::with_values(3, &[1, 2, 3]);
    array.unshift(0);
    assert_eq!(contents(&array), vec![0, 1, 2, 3]);
    assert_eq!(array.len(), 4);
    assert_eq!(array.capacity(), 6);
}

#[test]
fn unshift_on_an_array_without_slots_makes_four() {
    let mut array = DynamicArray::new(0);
    array.unshift(42);
    assert_eq!(array.capacity(), 4);
    assert_eq!(array.len(), 1);
    assert_eq!(array.get(0), Ok(&42));
}

#[test]
fn push_then_get_last_returns_the_pushed_value() {
    let mut array = DynamicArray::with_values(4, &[7, 8]);
    let before = array.len();
    array.push(9);
    assert_eq!(array.len(), before + 1);
    assert_eq!(array.get(array.len() - 1), Ok(&9));
    assert_eq!(array.capacity(), 4);
}

#[test]
fn push_grows_from_zero_by_doubling_from_four() {
    let mut array = DynamicArray::new(0);
    let mut seen = Vec::new();
    for i in 0..17 {
        array.push(i);
        seen.push(array.capacity());
    }
    assert_eq!(seen, vec![4, 4, 4, 4, 8, 8, 8, 8, 16, 16, 16, 16, 16, 16, 16, 16, 32]);
    assert_eq!(array.len(), 17);
    assert_eq!(array.get(16), Ok(&16));
}

#[test]
fn capacity_after_pushes_is_a_power_of_two_that_holds_them() {
    let mut array = DynamicArray::new(0);
    for n in 1..=200usize {
        array.push(n);
        assert!(array.capacity().is_power_of_two());
        assert!(array.capacity() >= n);
        assert!(array.capacity() >= 4);
        assert_eq!(array.capacity(), n.next_power_of_two().max(4));
    }
}

#[test]
fn push_on_a_full_array_of_three_makes_six() {
    let mut array = DynamicArray::with_values(3, &[1, 2, 3]);
    array.push(4);
    assert_eq!(array.capacity(), 6);
    assert_eq!(contents(&array), vec![1, 2, 3, 4]);
}

#[test]
fn insert_shifts_the_rest_to_the_right() {
    let mut array = DynamicArray::with_values(3, &[1, 2, 3]);
    assert_eq!(array.insert(1, 42), Ok(()));
    assert_eq!(contents(&array), vec![1, 42, 2, 3]);
    assert_eq!(array.capacity(), 6);
    assert_eq!(array.insert(0, 0), Ok(()));
    assert_eq!(contents(&array), vec![0, 1, 42, 2, 3]);
    assert_eq!(array.capacity(), 6);
}

#[test]
fn insert_at_length_is_rejected_and_remove_closes_the_gap() {
    let mut array = DynamicArray::with_values(3, &[1, 2, 3]);
    assert_eq!(array.insert(5, 10), Err(Exceptions::IndexOutOfBounds));
    assert_eq!(array.insert(3, 10), Err(Exceptions::IndexOutOfBounds));
    assert_eq!(contents(&array), vec![1, 2, 3]);
    assert_eq!(array.capacity(), 3);
    assert_eq!(array.remove(1), Ok(2));
    assert_eq!(array.len(), 2);
    assert_eq!(contents(&array), vec![1, 3]);
}

#[test]
fn insert_into_an_empty_array_is_rejected() {
    let mut array: DynamicArray<i32> = DynamicArray::new(4);
    assert_eq!(array.insert(0, 1), Err(Exceptions::IndexOutOfBounds));
    assert!(array.is_empty());
}

#[test]
fn insert_then_remove_restores_the_elements() {
    for index in 0..4 {
        let mut array = DynamicArray::with_values(4, &[10, 20, 30, 40]);
        assert_eq!(array.insert(index, 99), Ok(()));
        assert_eq!(array.get(index), Ok(&99));
        assert_eq!(array.remove(index), Ok(99));
        assert_eq!(contents(&array), vec![10, 20, 30, 40]);
    }
}

#[test]
fn remove_halves_the_capacity_below_half_use() {
    let mut array = DynamicArray::with_values(10, &[1, 2, 3]);
    assert_eq!(array.remove(1), Ok(2));
    assert_eq!(array.len(), 2);
    assert_eq!(array.get(1), Ok(&3));
    assert_eq!(array.capacity(), 5);
    assert_eq!(array.remove(5), Err(Exceptions::IndexOutOfBounds));
    assert_eq!(array.capacity(), 5);
}

#[test]
fn remove_keeps_the_capacity_at_half_use() {
    let mut array = DynamicArray::with_values(4, &[1, 2, 3]);
    assert_eq!(array.remove(0), Ok(1));
    assert_eq!(array.capacity(), 4);
    assert_eq!(array.remove(0), Ok(2));
    assert_eq!(array.capacity(), 2);
    assert_eq!(contents(&array), vec![3]);
}

#[test]
fn removing_everything_never_takes_the_last_slot() {
    let mut array = DynamicArray::new(0);
    for i in 0..40 {
        array.push(i);
    }
    assert_eq!(array.capacity(), 64);
    let mut last = array.capacity();
    while !array.is_empty() {
        assert!(array.remove(0).is_ok());
        assert!(array.capacity() <= last);
        assert!(array.capacity() >= 1);
        assert!(array.capacity() >= array.len());
        last = array.capacity();
    }
    assert_eq!(array.capacity(), 1);
    assert_eq!(array.remove(0), Err(Exceptions::IndexOutOfBounds));
    assert_eq!(array.capacity(), 1);
}

#[test]
fn resize_grows_and_truncates() {
    let mut array = DynamicArray::with_values(3, &[1, 2, 3]);
    array.resize(5);
    assert_eq!(array.len(), 3);
    assert_eq!(array.capacity(), 5);
    assert_eq!(array.get(4), Err(Exceptions::IndexOutOfBounds));
    array.resize(2);
    assert_eq!(array.len(), 2);
    assert_eq!(array.capacity(), 2);
    assert_eq!(contents(&array), vec![1, 2]);
    array.resize(0);
    assert_eq!(array.len(), 0);
    assert_eq!(array.capacity(), 0);
}

#[test]
fn next_hands_out_the_elements_in_order() {
    let mut array = DynamicArray::with_values(4, &[5, 6, 7]);
    assert_eq!(array.next(), Some(5));
    assert_eq!(array.next(), Some(6));
    assert_eq!(array.next(), Some(7));
    assert_eq!(array.next(), None);
    assert_eq!(array.next(), None);
    assert_eq!(contents(&array), vec![5, 6, 7]);
}

#[test]
fn clone_copies_the_elements_and_the_capacity() {
    let array = DynamicArray::with_values(5, &[1, 2, 3]);
    let mut copy = array.clone();
    assert_eq!(copy.capacity(), 5);
    assert_eq!(contents(&copy), vec![1, 2, 3]);
    copy.push(4);
    assert_eq!(contents(&array), vec![1, 2, 3]);
}

#[test]
fn array_of_strings_moves_its_elements() {
    let mut array: DynamicArray<String> = DynamicArray::new(1);
    array.push(String::from("Venus"));
    array.push(String::from("Tierra"));
    array.unshift(String::from("Mercurio"));
    assert_eq!(array.insert(2, String::from("Marte")), Ok(()));
    assert_eq!(array.remove(1), Ok(String::from("Venus")));
    assert_eq!(array.get(0), Ok(&String::from("Mercurio")));
    assert_eq!(array.get(1), Ok(&String::from("Marte")));
    assert_eq!(array.get(2), Ok(&String::from("Tierra")));
    assert_eq!(array.len(), 3);
}
