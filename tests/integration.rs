use heap_in_rust::{Heap, HeapProperty};

pub fn check_peek_on_empty_heap(heap: &Heap) {
    let result = heap.peek();

    assert!(result.is_err());
    assert_eq!("Empty heap.".to_string(), result.unwrap_err());
}

pub fn check_ok_result(result: Result<(), String>) {
    assert!(result.is_ok());
    assert_eq!((), result.unwrap());
}

pub fn check_value_result(result: Result<i32, String>, value: i32) {
    assert!(result.is_ok());
    assert_eq!(value, result.unwrap());
}

pub fn check_non_empty_heap(heap: &Heap, top_element: i32) {
    assert!(!heap.is_empty());

    let peek_result = heap.peek();

    check_value_result(peek_result, top_element);
}

pub fn check_empty_heap(heap: &Heap) {
    assert!(heap.is_empty());

    check_peek_on_empty_heap(&heap);
}

#[test]
fn integration_test_add_six_elements_as_random() {
    let mut heap = Heap::new_as(6, HeapProperty::Min);

    let result = heap.add(5);

    check_ok_result(result);
    check_non_empty_heap(&heap, 5);

    let result = heap.add(3);

    check_ok_result(result);
    check_non_empty_heap(&heap, 3);

    let result = heap.add(9);

    check_ok_result(result);
    check_non_empty_heap(&heap, 3);

    let result = heap.add(8);

    check_ok_result(result);
    check_non_empty_heap(&heap, 3);

    let result = heap.add(1);

    check_ok_result(result);
    check_non_empty_heap(&heap, 1);

    let result = heap.add(6);

    check_ok_result(result);
    check_non_empty_heap(&heap, 1);

    let result = heap.add(0);

    assert!(result.is_err());
    assert_eq!("Full heap.".to_string(), result.unwrap_err());
    check_non_empty_heap(&heap, 1);
}

#[test]
fn integration_test_add_six_elements_as_sequential() {
    let mut heap = Heap::new_as(6, HeapProperty::Min);

    let result = heap.add(1);

    check_ok_result(result);
    check_non_empty_heap(&heap, 1);

    let result = heap.add(2);

    check_ok_result(result);
    check_non_empty_heap(&heap, 1);

    let result = heap.add(3);

    check_ok_result(result);
    check_non_empty_heap(&heap, 1);

    let result = heap.add(4);

    check_ok_result(result);
    check_non_empty_heap(&heap, 1);

    let result = heap.add(5);

    check_ok_result(result);
    check_non_empty_heap(&heap, 1);

    let result = heap.add(6);

    check_ok_result(result);
    check_non_empty_heap(&heap, 1);

    let result = heap.add(0);

    assert!(result.is_err());
    assert_eq!("Full heap.".to_string(), result.unwrap_err());
    check_non_empty_heap(&heap, 1);
}

#[test]
fn integration_test_pop_from_six_elements_as_random() {
    let mut heap = Heap::new_as(6, HeapProperty::Min);
    heap.add(5).unwrap();
    heap.add(3).unwrap();
    heap.add(9).unwrap();
    heap.add(8).unwrap();
    heap.add(1).unwrap();
    heap.add(6).unwrap();
    check_non_empty_heap(&heap, 1);

    let result = heap.pop();

    check_value_result(result, 1);
    check_non_empty_heap(&heap, 3);

    let result = heap.pop();

    check_value_result(result, 3);
    check_non_empty_heap(&heap, 5);

    let result = heap.pop();

    check_value_result(result, 5);
    check_non_empty_heap(&heap, 6);

    let result = heap.pop();

    check_value_result(result, 6);
    check_non_empty_heap(&heap, 8);

    let result = heap.pop();

    check_value_result(result, 8);
    check_non_empty_heap(&heap, 9);

    let result = heap.pop();

    check_value_result(result, 9);
    check_empty_heap(&heap);

    let result = heap.pop();

    assert!(result.is_err());
    assert_eq!("Empty heap.".to_string(), result.unwrap_err());
    check_empty_heap(&heap);
}

#[test]
fn integration_test_pop_from_six_elements_as_sequential() {
    let mut heap = Heap::new_as(6, HeapProperty::Min);
    heap.add(1).unwrap();
    heap.add(2).unwrap();
    heap.add(3).unwrap();
    heap.add(4).unwrap();
    heap.add(5).unwrap();
    heap.add(6).unwrap();
    check_non_empty_heap(&heap, 1);

    let result = heap.pop();

    check_value_result(result, 1);
    check_non_empty_heap(&heap, 2);

    let result = heap.pop();

    check_value_result(result, 2);
    check_non_empty_heap(&heap, 3);

    let result = heap.pop();

    check_value_result(result, 3);
    check_non_empty_heap(&heap, 4);

    let result = heap.pop();

    check_value_result(result, 4);
    check_non_empty_heap(&heap, 5);

    let result = heap.pop();

    check_value_result(result, 5);
    check_non_empty_heap(&heap, 6);

    let result = heap.pop();

    check_value_result(result, 6);
    check_empty_heap(&heap);

    let result = heap.pop();

    assert!(result.is_err());
    assert_eq!("Empty heap.".to_string(), result.unwrap_err());
    check_empty_heap(&heap);
}

#[test]
fn integration_test_max_add_six_elements_as_random() {
    let mut heap = Heap::new_as(6, HeapProperty::Max);

    let result = heap.add(5);

    check_ok_result(result);
    check_non_empty_heap(&heap, 5);

    let result = heap.add(3);

    check_ok_result(result);
    check_non_empty_heap(&heap, 5);

    let result = heap.add(9);

    check_ok_result(result);
    check_non_empty_heap(&heap, 9);

    let result = heap.add(8);

    check_ok_result(result);
    check_non_empty_heap(&heap, 9);

    let result = heap.add(1);

    check_ok_result(result);
    check_non_empty_heap(&heap, 9);

    let result = heap.add(6);

    check_ok_result(result);
    check_non_empty_heap(&heap, 9);

    let result = heap.add(0);

    assert!(result.is_err());
    assert_eq!("Full heap.".to_string(), result.unwrap_err());
    check_non_empty_heap(&heap, 9);
}

#[test]
fn integration_test_max_add_six_elements_as_sequential() {
    let mut heap = Heap::new_as(6, HeapProperty::Max);

    let result = heap.add(1);

    check_ok_result(result);
    check_non_empty_heap(&heap, 1);

    let result = heap.add(2);

    check_ok_result(result);
    check_non_empty_heap(&heap, 2);

    let result = heap.add(3);

    check_ok_result(result);
    check_non_empty_heap(&heap, 3);

    let result = heap.add(4);

    check_ok_result(result);
    check_non_empty_heap(&heap, 4);

    let result = heap.add(5);

    check_ok_result(result);
    check_non_empty_heap(&heap, 5);

    let result = heap.add(6);

    check_ok_result(result);
    check_non_empty_heap(&heap, 6);

    let result = heap.add(0);

    assert!(result.is_err());
    assert_eq!("Full heap.".to_string(), result.unwrap_err());
    check_non_empty_heap(&heap, 6);
}

#[test]
fn integration_test_max_pop_from_six_elements_as_random() {
    let mut heap = Heap::new_as(6, HeapProperty::Max);
    heap.add(5).unwrap();
    heap.add(3).unwrap();
    heap.add(9).unwrap();
    heap.add(8).unwrap();
    heap.add(1).unwrap();
    heap.add(6).unwrap();
    check_non_empty_heap(&heap, 9);

    let result = heap.pop();

    check_value_result(result, 9);
    check_non_empty_heap(&heap, 8);

    let result = heap.pop();

    check_value_result(result, 8);
    check_non_empty_heap(&heap, 6);

    let result = heap.pop();

    check_value_result(result, 6);
    check_non_empty_heap(&heap, 5);

    let result = heap.pop();

    check_value_result(result, 5);
    check_non_empty_heap(&heap, 3);

    let result = heap.pop();

    check_value_result(result, 3);
    check_non_empty_heap(&heap, 1);

    let result = heap.pop();

    check_value_result(result, 1);
    check_empty_heap(&heap);

    let result = heap.pop();

    assert!(result.is_err());
    assert_eq!("Empty heap.".to_string(), result.unwrap_err());
    check_empty_heap(&heap);
}

#[test]
fn integration_test_max_pop_from_six_elements_as_sequential() {
    let mut heap = Heap::new_as(6, HeapProperty::Max);
    heap.add(1).unwrap();
    heap.add(2).unwrap();
    heap.add(3).unwrap();
    heap.add(4).unwrap();
    heap.add(5).unwrap();
    heap.add(6).unwrap();
    check_non_empty_heap(&heap, 6);

    let result = heap.pop();

    check_value_result(result, 6);
    check_non_empty_heap(&heap, 5);

    let result = heap.pop();

    check_value_result(result, 5);
    check_non_empty_heap(&heap, 4);

    let result = heap.pop();

    check_value_result(result, 4);
    check_non_empty_heap(&heap, 3);

    let result = heap.pop();

    check_value_result(result, 3);
    check_non_empty_heap(&heap, 2);

    let result = heap.pop();

    check_value_result(result, 2);
    check_non_empty_heap(&heap, 1);

    let result = heap.pop();

    check_value_result(result, 1);
    check_empty_heap(&heap);

    let result = heap.pop();

    assert!(result.is_err());
    assert_eq!("Empty heap.".to_string(), result.unwrap_err());
    check_empty_heap(&heap);
}
