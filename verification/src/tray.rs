use vstd::prelude::*;

verus! {

/// A tray carrying some quantity of items; two trays can be combined.
#[derive(Debug, PartialEq, Eq, Structural)]
pub struct Tray {
    pub quantity: usize,
}

impl Tray {
    /// Combine two trays; the result carries everything both carried.
    pub fn add(self, rhs: Tray) -> (r: Tray)
        requires
            self.quantity + rhs.quantity <= usize::MAX,
        ensures
            r.quantity == self.quantity + rhs.quantity,
    {
        Tray { quantity: self.quantity + rhs.quantity }
    }
}

} // verus!
