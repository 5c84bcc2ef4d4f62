use vstd::prelude::*;
use vstd::slice::slice_subrange;

verus! {

/// A hand-rolled iterator over a borrowed slice: each step yields a reference
/// to the head of what is left and keeps the tail.
pub struct MyIterator<'iter, T> {
    slice: &'iter [T],
}

impl<'iter, T> MyIterator<'iter, T> {
    /// The elements not yet handed out, in order.
    pub closed spec fn remaining(&self) -> Seq<T> {
        self.slice@
    }

    /// An iterator over all of `collection`.
    pub fn wrap(collection: &'iter [T]) -> (it: MyIterator<'iter, T>)
        ensures
            it.remaining() =~= collection@,
    {
        MyIterator { slice: collection }
    }

    /// The next element, or nothing once every element has been handed out.
    pub fn next(&mut self) -> (r: Option<&'iter T>)
        ensures
            old(self).remaining().len() == 0 ==> r is None && final(self).remaining()
                =~= old(self).remaining(),
            old(self).remaining().len() > 0 ==> (r matches Some(head)
                && *head == old(self).remaining()[0]
                && final(self).remaining() =~= old(self).remaining().drop_first()),
    {
        let slice = self.slice;
        if slice.len() == 0 {
            return None;
        }

        let head = &slice[0];
        self.slice = slice_subrange(slice, 1, slice.len());
        Some(head)
    }
}

/// A counterpart that borrows the slice mutably and hands out mutable
/// references, so the caller can update elements in place.
pub struct MyMutIterator<'iter, T> {
    slice: &'iter mut [T],
}

impl<'iter, T> MyMutIterator<'iter, T> {
    /// The elements not yet handed out, in order.
    pub closed spec fn remaining(&self) -> Seq<T> {
        self.slice@
    }

    /// An iterator over all of `collection`.
    pub fn wrap(collection: &'iter mut [T]) -> (it: MyMutIterator<'iter, T>)
        ensures
            it.remaining() =~= old(collection)@,
    {
        MyMutIterator { slice: collection }
    }

    /// A mutable reference to the next element, or nothing once every
    /// element has been handed out.
    pub fn next(&mut self) -> (r: Option<&'iter mut T>)
        ensures
            old(self).remaining().len() == 0 ==> r is None,
            old(self).remaining().len() > 0 ==> (r matches Some(head)
                && *head == old(self).remaining()[0]
                && final(self).remaining() =~= old(self).remaining().drop_first()),
    {
        let mut taken: &'iter mut [T] = &mut [];
        core::mem::swap(&mut self.slice, &mut taken);

        if taken.len() == 0 {
            return None;
        }

        let (head, tail) = taken.split_at_mut(1);
        self.slice = tail;
        head.first_mut()
    }
}

} // verus!
