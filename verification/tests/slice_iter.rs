use growbuf::slice_iter::{MyIterator, MyMutIterator};

#[test]
fn iterator_over_empty_readonly_collection() {
    let collection = Vec::<i32>::new();
    let mut wrapper = MyIterator::wrap(&collection);

    assert_eq!(wrapper.next(), None);
}

#[test]
fn iterator_over_non_empty_readonly_collection() {
    let collection = vec![1, 2, 3, 4];
    let mut wrapper = MyIterator::wrap(&collection);

    assert_eq!(wrapper.next(), Some(&collection[0]));
    assert_eq!(wrapper.next(), Some(&collection[1]));
    assert_eq!(wrapper.next(), Some(&collection[2]));
    assert_eq!(wrapper.next(), Some(&collection[3]));
    assert_eq!(wrapper.next(), None);
}

#[test]
fn iterator_over_empty_mut_collection() {
    let mut collection = Vec::<i32>::new();
    let mut wrapper = MyMutIterator::wrap(&mut collection);

    assert_eq!(wrapper.next(), None);
}

#[test]
fn update_an_item_returned_by_the_iterator() {
    let mut collection = vec![1];
    let mut wrapper = MyMutIterator::wrap(&mut collection);

    let element = wrapper.next().expect("The collection has one element");
    *element = *element + 1;

    assert_eq!(collection[0], 2);
}
