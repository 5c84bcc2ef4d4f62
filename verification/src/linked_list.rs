use vstd::prelude::*;

verus! {

/// A singly linked list of owned nodes; elements are pushed and popped at the
/// head, so the list behaves as a stack.
pub struct LinkedList<T> {
    head: Link<T>,
}

struct Node<T> {
    element: T,
    next: Link<T>,
}

type Link<T> = Option<Box<Node<T>>>;

/// The elements hanging off a link, head first.
spec fn link_view<T>(link: Link<T>) -> Seq<T>
    decreases link,
{
    match link {
        None => Seq::empty(),
        Some(node) => seq![node.element] + link_view(node.next),
    }
}

impl<T> View for LinkedList<T> {
    type V = Seq<T>;

    closed spec fn view(&self) -> Seq<T> {
        link_view(self.head)
    }
}

impl<T> LinkedList<T> {
    /// A list with no elements.
    pub fn empty() -> (list: Self)
        ensures
            list@ =~= Seq::<T>::empty(),
    {
        Self { head: None }
    }

    /// Place `element` in front of every element already in the list.
    pub fn push(&mut self, element: T)
        ensures
            final(self)@ =~= seq![element] + old(self)@,
    {
        let current_head = self.head.take();

        let next = Node { element, next: current_head };
        self.head = Some(Box::new(next));
    }

    /// Remove and return the element most recently pushed, if any.
    pub fn pop(&mut self) -> (r: Option<T>)
        ensures
            old(self)@.len() == 0 ==> r is None && final(self)@ =~= old(self)@,
            old(self)@.len() > 0 ==> (r matches Some(element) && element == old(self)@[0]
                && final(self)@ =~= old(self)@.drop_first()),
    {
        let current_head = self.head.take();

        match current_head {
            None => None,
            Some(node) => {
                let node = *node;
                self.head = node.next;
                Some(node.element)
            },
        }
    }

    /// Borrow the element most recently pushed, if any, without removing it.
    pub fn peek(&self) -> (r: Option<&T>)
        ensures
            self@.len() == 0 ==> r is None,
            self@.len() > 0 ==> (r matches Some(element) && *element == self@[0]),
    {
        match &self.head {
            None => None,
            Some(node) => Some(&node.element),
        }
    }
}

} // verus!
