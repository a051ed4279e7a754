//! The exact "differs from" filter.
use vstd::prelude::*;
use crate::filters::filter::Filter;
use crate::types::compare::Compare;

verus! {

/// A value passes where it is not the same number as the literal. For
/// floating point no tolerance is applied: the two zeros are the same number,
/// and a NaN differs from everything, itself too.
pub struct NotEqualExact<T> {
    literal: T,
}

impl<T: Compare> Filter<T> for NotEqualExact<T> {
    open spec fn accepts(&self, value: T) -> bool {
        !value.spec_numeric_eq(self.literal_spec())
    }

    open spec fn steady(&self) -> bool {
        true
    }

    /// Bytes change nothing about the verdict.
    open spec fn accepts_after(&self, more: Seq<u8>, value: T) -> bool {
        self.accepts(value)
    }

    fn includes(&self, result: T) -> (r: bool) {
        proof {
            // Shown nothing more, the filter judges as it stands.
            assert(self.accepts_after(Seq::<u8>::empty(), result) == self.accepts(result));
        }
        !result.numeric_eq(&self.literal)
    }

    fn observe(&mut self, bytes: &[u8]) {
    }
}

impl<T> NotEqualExact<T> {
    /// The value that candidates are held against.
    pub closed spec fn literal_spec(&self) -> T {
        self.literal
    }

    #[must_use]
    pub fn new(literal: T) -> (r: Self)
        ensures
            r.literal_spec() == literal,
    {
        NotEqualExact { literal }
    }

    #[must_use]
    pub fn with_box(literal: T) -> (r: Box<Self>)
        ensures
            r.literal_spec() == literal,
    {
        Box::new(Self::new(literal))
    }
}

} // verus!
