#[test]
fn create_empty_vector() {
    let v: Vec<u32> = vec![];
    assert!(v.is_empty());
}

#[test]
fn create_vector_with_one_element() {
    let v: Vec<u32> = vec![42];
    assert!(!v.is_empty());
    assert_eq!(v.len(), 1);
    assert_eq!(v[0], 42);
}

#[test]
fn create_vector_with_two_elements() {
    let v: Vec<u32> = vec![42, 24];
    assert!(!v.is_empty());
    assert_eq!(v.len(), 2);
    assert_eq!(v[0], 42);
    assert_eq!(v[1], 24);
}

#[test]
fn create_vector_with_many_elements() {
    let v: Vec<u32> = vec![1, 2, 3, 4, 5, 6, 7, 8, 9];
    assert!(!v.is_empty());
    assert_eq!(v.len(), 9);
    for i in 0..9 {
        assert_eq!(v[i], (i + 1) as u32);
    }
}

#[test]
fn create_vector_with_a_trialing_comma() {
    let v: Vec<u32> = vec![1, 2, 3,];
    assert!(!v.is_empty());
    assert_eq!(v.len(), 3);
    for i in 0..3 {
        assert_eq!(v[i], (i + 1) as u32);
    }
}

#[test]
fn fill_vector_with_many_elements_of_the_same_value() {
    let v: Vec<u32> = vec![7; 42];
    assert!(!v.is_empty());
    assert_eq!(v.len(), 42);
    for i in v {
        assert_eq!(i, 7);
    }
}
