use vstd::prelude::*;

verus! {

/// A monotonically increasing counter used for frame counting and change detection.
#[derive(Clone, Copy, Debug)]
pub struct Tick(pub u64);

impl Tick {
    /// A tick at zero.
    pub fn new() -> (r: Self)
        ensures
            r.0 == 0,
    {
        Tick(0)
    }

    /// Advances the tick by one.
    pub fn tick(&mut self)
        requires
            old(self).0 < u64::MAX,
        ensures
            final(self).0 == old(self).0 + 1,
    {
        self.0 = self.0 + 1;
    }

    /// Returns the current value.
    pub fn get(&self) -> (r: u64)
        ensures
            r == self.0,
    {
        self.0
    }

    /// Sets the tick back to zero.
    pub fn reset(&mut self)
        ensures
            final(self).0 == 0,
    {
        self.0 = 0;
    }
}

impl Default for Tick {
    fn default() -> (r: Self)
        ensures
            r.0 == 0,
    {
        Tick(0)
    }
}

} // verus!
