//! The tolerant "differs from" filter.
use vstd::prelude::*;
use crate::filters::filter::Filter;
use crate::types::compare::Compare;

verus! {

/// A value passes where [`crate::filters::equal::Equal`] would turn it away:
/// for floating point, where it lies more than
/// [`crate::types::compare::MAX_ULPS`] representable steps from the literal.
pub struct NotEqual<T> {
    literal: T,
}

impl<T: Compare> Filter<T> for NotEqual<T> {
    open spec fn accepts(&self, value: T) -> bool {
        !value.spec_equal(self.literal_spec())
    }

    open spec fn steady(&self) -> bool {
        true
    }

    /// Bytes change nothing about the verdict.
    open spec fn accepts_after(&self, more: Seq<u8>, value: T) -> bool {
        self.accepts(value)
    }

    fn includes(&self, result: T) -> (r: bool) {
        proof {
            // Shown nothing more, the filter judges as it stands.
            assert(self.accepts_after(Seq::<u8>::empty(), result) == self.accepts(result));
        }
        !result.equal(&self.literal)
    }

    fn observe(&mut self, bytes: &[u8]) {
    }
}

impl<T> NotEqual<T> {
    /// The value that candidates are held against.
    pub closed spec fn literal_spec(&self) -> T {
        self.literal
    }

    #[must_use]
    pub fn new(literal: T) -> (r: Self)
        ensures
            r.literal_spec() == literal,
    {
        NotEqual { literal }
    }

    #[must_use]
    pub fn with_box(literal: T) -> (r: Box<Self>)
        ensures
            r.literal_spec() == literal,
    {
        Box::new(Self::new(literal))
    }
}

} // verus!
