//! A hand-rolled iterator shape and a bounded counter that implements it.

use vstd::prelude::*;

verus! {

/// A minimal iterator: hands values out one at a time and can estimate how
/// many are left.
pub trait ModernIterator {
    /// The kind of value handed out.
    type Item;

    /// The next value, if one is left.
    fn next(&mut self) -> (r: Option<Self::Item>);

    /// Lower bound, and optional upper bound, on the values left.
    fn size_hint(&self) -> (r: (usize, Option<usize>));
}

/// Counts from zero up to (but not including) a fixed bound.
#[derive(Debug)]
pub struct ModernCounter {
    current: usize,
    max: usize,
}

impl ModernCounter {
    /// The next value to hand out.
    pub closed spec fn spec_current(self) -> usize {
        self.current
    }

    /// The bound.
    pub closed spec fn spec_max(self) -> usize {
        self.max
    }

    /// A counter that will hand out `0, 1, ..., max - 1`.
    pub fn new(max: usize) -> (c: ModernCounter)
        ensures
            c.spec_current() == 0,
            c.spec_max() == max,
    {
        ModernCounter { current: 0, max }
    }
}

impl ModernIterator for ModernCounter {
    type Item = usize;

    /// Hands out the current value and moves on, until the bound is
    /// reached.
    fn next(&mut self) -> (r: Option<usize>) {
        if self.current < self.max {
            let value = self.current;
            self.current = self.current + 1;
            Some(value)
        } else {
            None
        }
    }

    /// Exactly the number of values left, as both bounds.
    fn size_hint(&self) -> (r: (usize, Option<usize>)) {
        if self.current <= self.max {
            (self.max - self.current, Some(self.max))
        } else {
            (0, Some(self.max))
        }
    }
}

} // verus!
