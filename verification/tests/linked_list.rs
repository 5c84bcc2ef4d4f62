use growbuf::linked_list::LinkedList;

#[test]
fn peek_points_to_the_last_element_added_to_the_list() {
    let mut list: LinkedList<u32> = LinkedList::empty();
    assert_eq!(None, list.peek());

    list.push(42);
    assert_eq!(Some(&42), list.peek());

    list.push(24);
    assert_eq!(Some(&24), list.peek());

    /* Next peek should still point to the last element added to the list */
    assert_eq!(Some(&24), list.peek());
}

#[test]
fn elements_are_removed_in_the_reverse_order_that_were_added() {
    let mut list: LinkedList<u32> = LinkedList::empty();
    list.push(24);
    list.push(42);

    assert_eq!(Some(42), list.pop());
    assert_eq!(Some(24), list.pop());
    assert_eq!(None, list.pop());
}

#[test]
fn add_remove_and_view_elements() {
    let mut list: LinkedList<u32> = LinkedList::empty();

    list.push(24);
    assert_eq!(Some(&24), list.peek());
    assert_eq!(Some(24), list.pop());
    assert_eq!(None, list.peek());
    assert_eq!(None, list.pop());
}
