use vstd::prelude::*;
use vstd::arithmetic::power2::pow2;
use vstd::pervasive::VecAdditionalExecFns;

verus! {

/// Capacities that the growth policy can produce: no allocation yet, or an
/// initial reservation of four slots doubled some number of times.
pub open spec fn is_growth_capacity(c: int) -> bool
    decreases c,
{
    ||| c == 0
    ||| c == 4
    ||| (c > 4 && c % 2 == 0 && is_growth_capacity(c / 2))
}

/// A growable contiguous buffer: an ordered, appendable sequence of elements
/// in a single region that is reserved lazily and doubled on exhaustion.
///
/// The region holds `capacity` slots of which the first `len` are initialized.
/// A reserved slot that holds no element yet is represented as `None`, so the
/// buffer never reads, copies or drops anything but live elements. Elements
/// of a zero-sized type get the same slot bookkeeping as any others: capacity
/// and length are counted per slot, however little the elements occupy.
pub struct MyVec<T> {
    slots: Vec<Option<T>>,
    len: usize,
}

impl<T> View for MyVec<T> {
    type V = Seq<T>;

    closed spec fn view(&self) -> Seq<T> {
        Seq::new(self.len as nat, |i: int| self.slots@[i]->0)
    }
}

impl<T> MyVec<T> {
    /// Number of slots currently reserved, initialized or not.
    pub closed spec fn spec_capacity(&self) -> int {
        self.slots@.len() as int
    }

    /// Number of slots holding a live element.
    pub closed spec fn spec_len(&self) -> int {
        self.len as int
    }

    /// Invariant holding between any two public operations: the live prefix
    /// `[0, len)` is initialized, the spare suffix `[len, capacity)` is not,
    /// and the capacity was produced by the growth policy.
    pub closed spec fn well_formed(&self) -> bool {
        &&& self.len <= self.slots@.len()
        &&& forall|i: int| 0 <= i < self.len ==> self.slots@[i] is Some
        &&& forall|i: int| self.len <= i < self.slots@.len() ==> self.slots@[i] is None
        &&& is_growth_capacity(self.slots@.len() as int)
    }

    /// An empty buffer: no elements and no reservation at all.
    pub fn empty() -> (buffer: Self)
        ensures
            buffer.well_formed(),
            buffer.spec_capacity() == 0,
            buffer.spec_len() == 0,
            buffer@ =~= Seq::<T>::empty(),
    {
        MyVec { slots: Vec::new(), len: 0 }
    }

    /// How many slots are reserved.
    pub fn capacity(&self) -> (c: usize)
        ensures
            c == self.spec_capacity(),
    {
        self.slots.len()
    }

    /// How many elements are live.
    pub fn len(&self) -> (n: usize)
        ensures
            n == self.spec_len(),
    {
        self.len
    }

    /// The element at `index`, or nothing when `index` is at or past `len`.
    /// An out-of-range index is a normal outcome, never a fault.
    pub fn get(&self, index: usize) -> (r: Option<&T>)
        requires
            self.well_formed(),
        ensures
            index < self.spec_len() ==> (r matches Some(element) && *element == self@[index as int]),
            index >= self.spec_len() ==> r is None,
    {
        if index >= self.len {
            return None;
        }

        self.slots[index].as_ref()
    }

    /// Append `item` as the new last element.
    ///
    /// The first append reserves four slots; an append into a full buffer
    /// doubles the reservation first; any other append reuses a spare slot.
    /// The capacity changes exactly when `len == capacity` before the call.
    /// A doubling that would not fit in `usize` is fatal in this design, so
    /// such states are excluded here.
    #[verifier::loop_isolation(false)]
    pub fn push(&mut self, item: T)
        requires
            old(self).well_formed(),
            old(self).spec_len() == old(self).spec_capacity() ==> 2 * old(self).spec_capacity()
                <= usize::MAX,
        ensures
            final(self).well_formed(),
            final(self)@ =~= old(self)@.push(item),
            final(self).spec_len() == old(self).spec_len() + 1,
            old(self).spec_capacity() == 0 ==> final(self).spec_capacity() == 4,
            old(self).spec_len() < old(self).spec_capacity() ==> final(self).spec_capacity()
                == old(self).spec_capacity(),
            0 < old(self).spec_len() == old(self).spec_capacity() ==> final(self).spec_capacity()
                == 2 * old(self).spec_capacity(),
            final(self).spec_capacity() == old(self).spec_capacity() <==> old(self).spec_len()
                < old(self).spec_capacity(),
    {
        if self.slots.len() == 0 {
            // First append: reserve four slots and write into the first one.
            self.slots.push(Some(item));
            self.slots.push(None);
            self.slots.push(None);
            self.slots.push(None);
            self.len = 1;
        } else if self.len < self.slots.len() {
            // A spare slot is already reserved.
            self.slots.set(self.len, Some(item));
            self.len = self.len + 1;
        } else {
            // Full: double the reservation, then write into the first spare slot.
            let old_capacity = self.slots.len();
            let new_capacity = old_capacity * 2;
            while self.slots.len() < new_capacity
                invariant
                    self.len == old(self).len,
                    old_capacity <= self.slots@.len() <= new_capacity,
                    self.slots@.subrange(0, old_capacity as int) =~= old(self).slots@,
                    forall|i: int| old_capacity <= i < self.slots@.len()
                        ==> self.slots@[i] is None,
                decreases new_capacity - self.slots@.len(),
            {
                self.slots.push(None);
            }
            assert forall|i: int| 0 <= i < old_capacity implies self.slots@[i]
                == old(self).slots@[i] by {
                assert(self.slots@.subrange(0, old_capacity as int)[i] == self.slots@[i]);
            }
            self.slots.set(self.len, Some(item));
            self.len = self.len + 1;
            proof {
                lemma_growth_capacity_double(old_capacity as int);
            }
        }
        assert(self@ =~= old(self)@.push(item));
    }
}

/// Doubling a reachable, non-zero capacity yields a reachable capacity.
proof fn lemma_growth_capacity_double(c: int)
    requires
        is_growth_capacity(c),
        c > 0,
    ensures
        is_growth_capacity(2 * c),
{
}

/// The shape of the growth sequence: every capacity the policy can produce,
/// other than the empty buffer's zero, is four doubled some number of times.
pub proof fn lemma_growth_capacity_form(c: int)
    requires
        is_growth_capacity(c),
        c != 0,
    ensures
        exists|k: nat| c == 4 * pow2(k),
    decreases c,
{
    if c == 4 {
        assert(pow2(0) == 1) by {
            vstd::arithmetic::power2::lemma2_to64();
        }
        assert(c == 4 * pow2(0));
    } else {
        lemma_growth_capacity_form(c / 2);
        let k = choose|k: nat| c / 2 == 4 * pow2(k);
        assert(pow2(k + 1) == 2 * pow2(k)) by {
            vstd::arithmetic::power2::lemma_pow2_unfold((k + 1) as nat);
        }
        assert(c == 4 * pow2(k + 1));
    }
}

} // verus!
