use growbuf::iterators::{flatten, MyIteratorExt};

#[test]
fn flatten_an_empty_iterator() {
    let count = flatten(Vec::<Vec<()>>::new()).count();
    assert_eq!(count, 0);
}

#[test]
fn flatten_an_iterator_with_one_vector() {
    let count = flatten(vec![vec!["an item"]]).count();
    assert_eq!(count, 1);
}

#[test]
fn flatten_an_iterator_with_one_vector_containing_multiple_items() {
    let count = flatten(vec![vec!["an item", "a second item"]]).count();
    assert_eq!(count, 2);
}

#[test]
fn flatten_an_iterator_with_multiple_vectors_containing_multiple_items() {
    let count = flatten(vec![vec!["an item", "a second item"], vec![], vec!["an item"]]).count();
    assert_eq!(count, 3);
}

#[test]
fn flatten_and_reverse_iterator_with_multiple_vectors_containing_multiple_items() {
    let mut iter = flatten(vec![vec!["a", "b"], vec![], vec!["c"]]);
    let mut reverse = Vec::new();
    while let Some(item) = iter.next_back() {
        reverse.push(item);
    }
    assert_eq!(reverse, vec!["c", "b", "a"]);
}

#[test]
fn consume_items_from_both_ends_starting_from_the_front() {
    let mut iter = flatten(vec![vec!["a", "b"], vec![], vec!["c"]]);
    assert_eq!(iter.next(), Some("a"));
    assert_eq!(iter.next_back(), Some("c"));
    assert_eq!(iter.next(), Some("b"));

    assert_eq!(iter.next(), None);
    assert_eq!(iter.next_back(), None);
}

#[test]
fn consume_items_from_both_ends_starting_from_the_rear() {
    let mut iter = flatten(vec![vec!["a", "b"], vec![], vec!["c"]]);
    assert_eq!(iter.next_back(), Some("c"));
    assert_eq!(iter.next(), Some("a"));
    assert_eq!(iter.next_back(), Some("b"));

    assert_eq!(iter.next(), None);
    assert_eq!(iter.next_back(), None);
}

#[test]
fn consume_items_only_from_the_front() {
    let mut iter = flatten(vec![vec!["a", "b"], vec![], vec!["c"]]);
    assert_eq!(iter.next(), Some("a"));
    assert_eq!(iter.next(), Some("b"));
    assert_eq!(iter.next(), Some("c"));

    assert_eq!(iter.next(), None);
    assert_eq!(iter.next_back(), None);
}

#[test]
fn consume_items_only_from_the_rear() {
    let mut iter = flatten(vec![vec!["a", "b"], vec![], vec!["c"]]);
    assert_eq!(iter.next_back(), Some("c"));
    assert_eq!(iter.next_back(), Some("b"));
    assert_eq!(iter.next_back(), Some("a"));

    assert_eq!(iter.next(), None);
    assert_eq!(iter.next_back(), None);
}

#[test]
fn flatten_iterator_through_the_extension_function() {
    let mut iter = vec![vec!["a", "b"], vec![], vec!["c"]].custom_flatten();
    let mut result = Vec::new();
    while let Some(item) = iter.next() {
        result.push(item);
    }
    assert_eq!(result, vec!["a", "b", "c"]);
}
