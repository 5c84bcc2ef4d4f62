use vstd::prelude::*;

verus! {

/// A single mutable slot holding one value.
pub struct Cell<T> {
    value: T,
}

impl<T> Cell<T> {
    /// The value currently in the slot.
    pub closed spec fn spec_value(&self) -> T {
        self.value
    }

    /// A slot holding `value`.
    pub fn new(value: T) -> (cell: Self)
        ensures
            cell.spec_value() == value,
    {
        Self { value }
    }

    /// Replace the value in the slot.
    pub fn set(&mut self, value: T)
        ensures
            final(self).spec_value() == value,
    {
        self.value = value;
    }

    /// Copy the value out of the slot.
    pub fn get(&self) -> (value: T) where T: Copy
        ensures
            value == self.spec_value(),
    {
        self.value
    }
}

} // verus!
