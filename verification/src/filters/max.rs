//! The upper bound.
use vstd::prelude::*;
use crate::filters::filter::Filter;
use crate::types::bit_type::BitType;

verus! {

/// An inclusive upper bound: a value passes where it is finite and no
/// greater than the bound.
pub struct Max<T> {
    max: T,
}

impl<T: BitType> Filter<T> for Max<T> {
    open spec fn accepts(&self, value: T) -> bool {
        value.spec_is_finite() && value.spec_at_most(self.bound())
    }

    open spec fn steady(&self) -> bool {
        true
    }

    /// Bytes change nothing about the verdict.
    open spec fn accepts_after(&self, more: Seq<u8>, value: T) -> bool {
        self.accepts(value)
    }

    fn includes(&self, result: T) -> (r: bool) {
        proof {
            // Shown nothing more, the filter judges as it stands.
            assert(self.accepts_after(Seq::<u8>::empty(), result) == self.accepts(result));
        }
        result.is_finite() && result.at_most(&self.max)
    }

    fn observe(&mut self, bytes: &[u8]) {
    }
}

impl<T> Max<T> {
    /// The value that candidates are held against.
    pub closed spec fn bound(&self) -> T {
        self.max
    }

    #[must_use]
    pub fn new(max: T) -> (r: Self)
        ensures
            r.bound() == max,
    {
        Max { max }
    }

    #[must_use]
    pub fn with_box(max: T) -> (r: Box<Self>)
        ensures
            r.bound() == max,
    {
        Box::new(Self::new(max))
    }
}

} // verus!
