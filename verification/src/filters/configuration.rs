//! From what a caller asks for to the filter that does it.
use vstd::prelude::*;
use crate::filters::and::And;
use crate::filters::entropy::Entropy;
use crate::filters::equal::Equal;
use crate::filters::filter::Filter;
use crate::filters::max::Max;
use crate::filters::min::Min;
use crate::types::compare::Compare;
use crate::types::float::Float64;
use crate::workers::entropy_processor::EntropyProducer;

verus! {

/// What a caller asks for: each part that is there narrows what passes.
pub struct Configuration<T: Compare, P: EntropyProducer = Box<dyn EntropyProducer>> {
    pub minimum: Option<T>,
    pub maximum: Option<T>,
    pub literal: Option<T>,
    pub entropy: Option<EntropyConfig<P>>,
}

/// The entropy part of a [`Configuration`].
pub struct EntropyConfig<P: EntropyProducer = Box<dyn EntropyProducer>> {
    pub max_entropy: Float64,
    pub entropy_producer: P,
}

/// Why a [`Configuration`] makes no filter.
#[derive(PartialEq, Eq, Structural, Debug, Clone, Copy)]
pub enum ConfigurationError {
    /// Nothing is asked for.
    NoFilter,
    /// A literal is asked for together with a bound.
    LiteralWithRange,
}

/// One part of a [`Configuration`], as a filter.
pub enum Part<T, P = Box<dyn EntropyProducer>> {
    Equal(Equal<T>),
    Max(Max<T>),
    Min(Min<T>),
    Entropy(Entropy<P>),
}

impl<T: Compare, P: EntropyProducer> Filter<T> for Part<T, P> {
    open spec fn accepts(&self, value: T) -> bool {
        match self {
            Part::Equal(filter) => filter.accepts(value),
            Part::Max(filter) => filter.accepts(value),
            Part::Min(filter) => filter.accepts(value),
            Part::Entropy(filter) => filter.accepts(value),
        }
    }

    open spec fn steady(&self) -> bool {
        !(self is Entropy)
    }

    open spec fn shown(&self) -> Seq<u8> {
        match self {
            Part::Entropy(filter) => Filter::<T>::shown(filter),
            _ => Seq::empty(),
        }
    }

    open spec fn accepts_after(&self, more: Seq<u8>, value: T) -> bool {
        match self {
            Part::Equal(filter) => filter.accepts_after(more, value),
            Part::Max(filter) => filter.accepts_after(more, value),
            Part::Min(filter) => filter.accepts_after(more, value),
            Part::Entropy(filter) => filter.accepts_after(more, value),
        }
    }

    fn includes(&self, result: T) -> (r: bool) {
        proof {
            assert(self.accepts_after(Seq::<u8>::empty(), result) == (match self {
                Part::Equal(filter) => filter.accepts_after(Seq::<u8>::empty(), result),
                Part::Max(filter) => filter.accepts_after(Seq::<u8>::empty(), result),
                Part::Min(filter) => filter.accepts_after(Seq::<u8>::empty(), result),
                Part::Entropy(filter) => filter.accepts_after(Seq::<u8>::empty(), result),
            }));
        }
        match self {
            Part::Equal(filter) => filter.includes(result),
            Part::Max(filter) => filter.includes(result),
            Part::Min(filter) => filter.includes(result),
            Part::Entropy(filter) => filter.includes(result),
        }
    }

    fn observe(&mut self, bytes: &[u8]) {
        match self {
            Part::Entropy(filter) => Filter::<T>::observe(filter, bytes),
            _ => {},
        }
    }
}

impl<T: Compare, P: EntropyProducer> Default for Configuration<T, P> {
    fn default() -> (r: Self)
        ensures
            r.minimum is None,
            r.maximum is None,
            r.literal is None,
            r.entropy is None,
    {
        Configuration { minimum: None, maximum: None, literal: None, entropy: None }
    }
}

impl<T: Compare, P: EntropyProducer> Configuration<T, P> {
    /// What is wrong with the configuration, if anything.
    pub open spec fn error(&self) -> Option<ConfigurationError> {
        if self.literal is Some && (self.minimum is Some || self.maximum is Some) {
            Some(ConfigurationError::LiteralWithRange)
        } else if self.literal is None && self.minimum is None && self.maximum is None
            && self.entropy is None {
            Some(ConfigurationError::NoFilter)
        } else {
            None
        }
    }

    /// Whether `value` passes everything that is asked for.
    pub open spec fn admits(&self, value: T) -> bool {
        &&& self.literal matches Some(literal) ==> value.spec_equal(literal)
        &&& self.maximum matches Some(max) ==> value.spec_is_finite() && value.spec_at_most(max)
        &&& self.minimum matches Some(min) ==> value.spec_is_finite() && min.spec_at_most(value)
        &&& self.entropy matches Some(entropy) ==> crate::filters::entropy::within(
            entropy.entropy_producer.reading(),
            entropy.max_entropy,
        )
    }

    /// Whether `members` are the filters of the parts that are there, one
    /// for each, in this order: the literal, the maximum, the minimum, the
    /// entropy ceiling.
    pub open spec fn builds(&self, members: Seq<Part<T, P>>) -> bool {
        let literals: int = if self.literal is Some { 1 } else { 0 };
        let maxima: int = if self.maximum is Some { 1 } else { 0 };
        let minima: int = if self.minimum is Some { 1 } else { 0 };
        let ceilings: int = if self.entropy is Some { 1 } else { 0 };
        &&& members.len() == literals + maxima + minima + ceilings
        &&& self.literal matches Some(literal) ==> (members[0] matches Part::Equal(filter)
            && filter.literal_spec() == literal)
        &&& self.maximum matches Some(max) ==> (members[literals] matches Part::Max(filter)
            && filter.bound() == max)
        &&& self.minimum matches Some(min) ==> (members[literals + maxima] matches Part::Min(
            filter,
        ) && filter.bound() == min)
        &&& self.entropy matches Some(entropy) ==> (members[literals + maxima
            + minima] matches Part::Entropy(filter) && filter.ceiling() == entropy.max_entropy
            && filter.source() == entropy.entropy_producer)
    }

    /// The filter that lets pass what the configuration admits: the
    /// conjunction of a filter for each part that is there, the entropy
    /// ceiling last.
    pub fn create_filter(self) -> (r: Result<And<T, Part<T, P>>, ConfigurationError>)
        ensures
            self.error() matches Some(error) ==> r matches Err(e) && e == error,
            self.error() is None ==> r is Ok,
            r matches Ok(filter) ==> {
                &&& self.builds(filter.members())
                &&& filter.steady() == (self.entropy is None)
                &&& forall|value: T| #[trigger] filter.accepts(value) == self.admits(value)
            },
    {
        if self.literal.is_some() && (self.minimum.is_some() || self.maximum.is_some()) {
            return Err(ConfigurationError::LiteralWithRange);
        }
        let mut filters: Vec<Part<T, P>> = Vec::with_capacity(5);
        if let Some(f) = self.create_equal_filter() {
            filters.push(f);
        }
        if let Some(f) = self.create_max_filter() {
            filters.push(f);
        }
        if let Some(f) = self.create_min_filter() {
            filters.push(f);
        }
        let ghost bounds = filters@.len();
        if let Some(entropy) = self.entropy {
            filters.push(
                Part::Entropy(Entropy::new(entropy.max_entropy, entropy.entropy_producer)),
            );
        }
        if filters.len() == 0 {
            return Err(ConfigurationError::NoFilter);
        }
        let filter = And::with_filters(filters);
        proof {
            let members = filter.members();
            assert forall|value: T| filter.accepts(value) == self.admits(value) by {
                if filter.accepts(value) {
                    if self.literal is Some || self.maximum is Some {
                        assert(members[0].accepts(value));
                    }
                    if self.minimum is Some {
                        assert(members[bounds - 1].accepts(value));
                    }
                    if self.entropy is Some {
                        assert(members[members.len() - 1].accepts(value));
                    }
                }
            }
            if self.entropy is Some {
                assert(!members[members.len() - 1].steady());
            }
        }
        Ok(filter)
    }

    fn create_max_filter(&self) -> (r: Option<Part<T, P>>)
        ensures
            r is Some == self.maximum is Some,
            r matches Some(filter) ==> filter matches Part::Max(max) && max.bound()
                == self.maximum->0,
    {
        if let Some(max) = self.maximum {
            return Some(Part::Max(Max::new(max)));
        }
        None
    }

    fn create_min_filter(&self) -> (r: Option<Part<T, P>>)
        ensures
            r is Some == self.minimum is Some,
            r matches Some(filter) ==> filter matches Part::Min(min) && min.bound()
                == self.minimum->0,
    {
        if let Some(min) = self.minimum {
            return Some(Part::Min(Min::new(min)));
        }
        None
    }

    fn create_equal_filter(&self) -> (r: Option<Part<T, P>>)
        ensures
            r is Some == self.literal is Some,
            r matches Some(filter) ==> filter matches Part::Equal(equal) && equal.literal_spec()
                == self.literal->0,
    {
        if let Some(literal) = self.literal {
            return Some(Part::Equal(Equal::new(literal)));
        }
        None
    }
}

} // verus!
