use vstd::prelude::*;

verus! {

/// The concatenation of a sequence of vectors, in order.
pub open spec fn flat_of<T>(vs: Seq<Vec<T>>) -> Seq<T>
    decreases vs.len(),
{
    if vs.len() == 0 {
        Seq::empty()
    } else {
        vs[0]@ + flat_of(vs.drop_first())
    }
}

/// Splitting off the last vector splits off the tail of the concatenation.
proof fn lemma_flat_of_last<T>(vs: Seq<Vec<T>>)
    requires
        vs.len() > 0,
    ensures
        flat_of(vs) =~= flat_of(vs.drop_last()) + vs.last()@,
    decreases vs.len(),
{
    if vs.len() == 1 {
        assert(vs.drop_last() =~= Seq::<Vec<T>>::empty());
        assert(vs.drop_first() =~= Seq::<Vec<T>>::empty());
        assert(flat_of(vs) =~= vs[0]@);
        assert(flat_of(vs.drop_last()) + vs.last()@ =~= vs[0]@);
    } else {
        lemma_flat_of_last(vs.drop_first());
        let head = vs[0]@;
        let middle = flat_of(vs.drop_first().drop_last());
        let tail = vs.last()@;
        assert(vs.drop_first().last() == vs.last());
        assert(vs.drop_first().drop_last() =~= vs.drop_last().drop_first());
        assert(vs.drop_last()[0] == vs[0]);
        assert(flat_of(vs.drop_last()) =~= head + middle);
        assert(flat_of(vs) =~= head + (middle + tail));
        assert(head + (middle + tail) =~= (head + middle) + tail);
    }
}

/// A double-ended pass over the elements of nested vectors, front to back
/// and back to front, as if the vectors were laid out end to end.
pub struct Flatten<T> {
    outer: Vec<Vec<T>>,
}

impl<T> View for Flatten<T> {
    type V = Seq<T>;

    closed spec fn view(&self) -> Seq<T> {
        flat_of(self.outer@)
    }
}

/// Everything a value can be flattened into, laid out in order.
pub trait MyIteratorExt<T>: Sized {
    /// The elements the flattened pass will yield, in order.
    spec fn flattened(self) -> Seq<T>;

    /// Begin a flattened pass over `self`.
    fn custom_flatten(self) -> (it: Flatten<T>)
        ensures
            it@ == self.flattened(),
    ;
}

impl<T> MyIteratorExt<T> for Vec<Vec<T>> {
    open spec fn flattened(self) -> Seq<T> {
        flat_of(self@)
    }

    fn custom_flatten(self) -> (it: Flatten<T>)
        ensures
            it@ == self.flattened(),
    {
        flatten(self)
    }
}

/// Begin a flattened pass over a vector of vectors.
pub fn flatten<T>(items: Vec<Vec<T>>) -> (it: Flatten<T>)
    ensures
        it@ == flat_of(items@),
{
    Flatten::new(items)
}

impl<T> Flatten<T> {
    fn new(items: Vec<Vec<T>>) -> (it: Self)
        ensures
            it@ == flat_of(items@),
    {
        Flatten { outer: items }
    }

    /// Yield the first element not yet consumed from either end.
    #[verifier::loop_isolation(false)]
    pub fn next(&mut self) -> (r: Option<T>)
        ensures
            old(self)@.len() == 0 ==> r is None && final(self)@ =~= old(self)@,
            old(self)@.len() > 0 ==> (r matches Some(element) && element == old(self)@[0]
                && final(self)@ =~= old(self)@.drop_first()),
    {
        // Vectors already emptied from the front contribute nothing.
        while self.outer.len() > 0 && self.outer[0].is_empty()
            invariant
                flat_of(self.outer@) =~= flat_of(old(self).outer@),
            decreases self.outer@.len(),
        {
            assert(flat_of(self.outer@) =~= flat_of(self.outer@.drop_first()));
            let ghost before = self.outer@;
            self.outer.remove(0);
            assert(self.outer@ =~= before.drop_first());
        }

        if self.outer.len() == 0 {
            return None;
        }

        let ghost whole = self.outer@;
        let mut front = self.outer.remove(0);
        let ghost rest = self.outer@;
        let ghost front_elements = front@;
        assert(rest =~= whole.drop_first());
        assert(flat_of(old(self).outer@) =~= front_elements + flat_of(rest));
        let element = front.remove(0);
        assert(front@ =~= front_elements.drop_first());
        if front.len() > 0 {
            self.outer.insert(0, front);
            assert(self.outer@.drop_first() =~= rest);
            assert(flat_of(self.outer@) =~= front_elements.drop_first() + flat_of(rest));
        }
        assert((front_elements + flat_of(rest)).drop_first() =~= front_elements.drop_first()
            + flat_of(rest));
        Some(element)
    }

    /// Yield the last element not yet consumed from either end.
    #[verifier::loop_isolation(false)]
    pub fn next_back(&mut self) -> (r: Option<T>)
        ensures
            old(self)@.len() == 0 ==> r is None && final(self)@ =~= old(self)@,
            old(self)@.len() > 0 ==> (r matches Some(element) && element == old(self)@.last()
                && final(self)@ =~= old(self)@.drop_last()),
    {
        // Vectors already emptied from the back contribute nothing.
        while self.outer.len() > 0 && self.outer[self.outer.len() - 1].is_empty()
            invariant
                flat_of(self.outer@) =~= flat_of(old(self).outer@),
            decreases self.outer@.len(),
        {
            proof {
                lemma_flat_of_last(self.outer@);
            }
            self.outer.pop();
        }

        if self.outer.len() == 0 {
            return None;
        }

        let ghost whole = self.outer@;
        let mut back = match self.outer.pop() {
            Some(back) => back,
            None => vstd::pervasive::unreached(),
        };
        let ghost rest = self.outer@;
        let ghost back_elements = back@;
        proof {
            lemma_flat_of_last(whole);
            assert(whole.drop_last() =~= rest);
        }
        assert(flat_of(old(self).outer@) =~= flat_of(rest) + back_elements);
        let element = match back.pop() {
            Some(element) => element,
            None => vstd::pervasive::unreached(),
        };
        if back.len() > 0 {
            self.outer.push(back);
            proof {
                lemma_flat_of_last(self.outer@);
                assert(self.outer@.drop_last() =~= rest);
            }
            assert(flat_of(self.outer@) =~= flat_of(rest) + back_elements.drop_last());
        }
        assert((flat_of(rest) + back_elements).drop_last() =~= flat_of(rest)
            + back_elements.drop_last());
        Some(element)
    }

    /// Consume whatever is left and report how many elements there were.
    pub fn count(self) -> (n: usize)
        requires
            self@.len() <= usize::MAX,
        ensures
            n == self@.len(),
    {
        let ghost total = self@;
        let mut it = self;
        let mut n: usize = 0;
        loop
            invariant
                n + it@.len() == total.len(),
                total.len() <= usize::MAX,
            ensures
                n == total.len(),
            decreases it@.len(),
        {
            match it.next() {
                Some(_) => {
                    n = n + 1;
                },
                None => {
                    break;
                },
            }
        }
        n
    }
}

} // verus!
