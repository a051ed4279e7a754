//! The lower bound.
use vstd::prelude::*;
use crate::filters::filter::Filter;
use crate::types::bit_type::BitType;

verus! {

/// An inclusive lower bound: a value passes where it is finite and no less
/// than the bound.
pub struct Min<T> {
    min: T,
}

impl<T: BitType> Filter<T> for Min<T> {
    open spec fn accepts(&self, value: T) -> bool {
        value.spec_is_finite() && self.bound().spec_at_most(value)
    }

    open spec fn steady(&self) -> bool {
        true
    }

    /// Bytes change nothing about the verdict.
    open spec fn accepts_after(&self, more: Seq<u8>, value: T) -> bool {
        self.accepts(value)
    }

    fn includes(&self, result: T) -> (r: bool) {
        proof {
            // Shown nothing more, the filter judges as it stands.
            assert(self.accepts_after(Seq::<u8>::empty(), result) == self.accepts(result));
        }
        result.is_finite() && self.min.at_most(&result)
    }

    fn observe(&mut self, bytes: &[u8]) {
    }
}

impl<T> Min<T> {
    /// The value that candidates are held against.
    pub closed spec fn bound(&self) -> T {
        self.min
    }

    #[must_use]
    pub fn new(min: T) -> (r: Self)
        ensures
            r.bound() == min,
    {
        Min { min }
    }

    #[must_use]
    pub fn with_box(min: T) -> (r: Box<Self>)
        ensures
            r.bound() == min,
    {
        Box::new(Self::new(min))
    }
}

} // verus!
