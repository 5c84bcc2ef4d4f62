use growbuf::buffer::MyVec;

use std::cell::RefCell;
use std::rc::Rc;

#[test]
fn lib_create_empty_vector() {
    let vec = MyVec::<u32>::empty();
    assert_eq!(vec.capacity(), 0);
    assert_eq!(vec.len(), 0);
    assert_eq!(vec.get(0), None);
}

#[test]
fn add_item_to_empty_vector() {
    let mut vec = MyVec::<u32>::empty();
    vec.push(42);
    assert_eq!(vec.capacity(), 4);
    assert_eq!(vec.len(), 1);
    assert_eq!(vec.get(0), Some(&42));
}

#[test]
fn read_the_same_item_twice() {
    let mut vec = MyVec::<u32>::empty();
    vec.push(42);
    assert_eq!(vec.get(0), Some(&42));
    assert_eq!(vec.get(0), Some(&42));
}

#[test]
fn force_vector_to_resize() {
    let mut vec = MyVec::<u32>::empty();
    vec.push(1);
    vec.push(2);
    vec.push(3);
    vec.push(4);
    vec.push(5);

    assert_eq!(vec.capacity(), 8);
    assert_eq!(vec.len(), 5);
    assert_eq!(vec.get(4), Some(&5));
}

#[test]
fn capacity_only_changes_when_full() {
    let mut vec = MyVec::<u32>::empty();
    let mut observed = vec![vec.capacity()];
    for value in 0..17 {
        let was_full = vec.len() == vec.capacity();
        let before = vec.capacity();
        vec.push(value);
        if vec.capacity() != before {
            assert!(was_full);
            observed.push(vec.capacity());
        }
    }
    assert_eq!(observed, vec![0, 4, 8, 16, 32]);
}

#[test]
fn every_pushed_value_is_readable_in_order() {
    let mut vec = MyVec::<u32>::empty();
    for value in 0..9 {
        vec.push(value * 10);
    }
    assert_eq!(vec.capacity(), 16);
    for index in 0..9 {
        assert_eq!(vec.get(index), Some(&((index as u32) * 10)));
    }
    assert_eq!(vec.get(9), None);
}

struct Droppy {
    counter: Rc<RefCell<usize>>,
}

impl Drop for Droppy {
    fn drop(&mut self) {
        *self.counter.borrow_mut() += 1;
    }
}

#[test]
fn destructor_runs_once_per_live_element() {
    let counter = Rc::new(RefCell::new(0usize));
    let mut vec = MyVec::empty();
    for _ in 0..5 {
        vec.push(Droppy { counter: counter.clone() });
    }
    assert_eq!(*counter.borrow(), 0);
    drop(vec);
    assert_eq!(*counter.borrow(), 5);
}
