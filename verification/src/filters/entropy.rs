//! The ceiling on the entropy of the bytes examined last.
use vstd::prelude::*;
use crate::filters::filter::Filter;
use crate::types::bit_type::BitType;
use crate::types::float::Float64;
use crate::workers::entropy_processor::EntropyProducer;

verus! {

/// Whether there is an entropy and it is no greater than `max_entropy`, as
/// IEEE 754 orders numbers.
pub open spec fn within(nearby: Option<Float64>, max_entropy: Float64) -> bool {
    nearby matches Some(entropy) && entropy.le(max_entropy)
}

/// Keeps out what is found amid compressed or encrypted data.
///
/// A value passes, whatever it is, where the producer has an entropy for
/// the bytes examined last and that entropy is no greater than the ceiling.
/// Asking the producer costs more than the other filters do: in an
/// [`crate::filters::and::And`] this filter belongs last.
pub struct Entropy<P = Box<dyn EntropyProducer>> {
    max_entropy: Float64,
    producer: P,
}

impl<T, P: EntropyProducer> Filter<T> for Entropy<P> {
    open spec fn accepts(&self, value: T) -> bool {
        within(self.source().reading(), self.ceiling())
    }

    open spec fn steady(&self) -> bool {
        false
    }

    /// What the producer has been shown.
    open spec fn shown(&self) -> Seq<u8> {
        self.source().shown()
    }

    /// Whether the entropy that the producer would then have is there and
    /// no greater than the ceiling.
    open spec fn accepts_after(&self, more: Seq<u8>, value: T) -> bool {
        within(self.source().reading_after(more), self.ceiling())
    }

    fn includes(&self, result: T) -> (r: bool) {
        proof {
            assert(Filter::<T>::accepts_after(self, Seq::<u8>::empty(), result) == within(
                self.source().reading_after(Seq::<u8>::empty()),
                self.ceiling(),
            ));
        }
        let nearby_entropy = self.producer.entropy();
        self.admits(nearby_entropy)
    }

    /// The bytes are passed on to the producer; the ceiling stays.
    fn observe(&mut self, bytes: &[u8])
        ensures
            final(self).ceiling() == old(self).ceiling(),
            final(self).source().shown() == old(self).source().shown() + bytes@,
    {
        self.producer.observe(bytes);
    }
}

impl<P: EntropyProducer> Entropy<P> {
    /// The ceiling.
    pub closed spec fn ceiling(&self) -> Float64 {
        self.max_entropy
    }

    /// The producer that is asked.
    pub closed spec fn source(&self) -> P {
        self.producer
    }

    #[must_use]
    pub fn new(max_entropy: Float64, entropy_producer: P) -> (r: Self)
        ensures
            r.ceiling() == max_entropy,
            r.source() == entropy_producer,
    {
        Entropy { max_entropy, producer: entropy_producer }
    }

    #[must_use]
    pub fn with_box(max_entropy: Float64, entropy_producer: P) -> (r: Box<Self>)
        ensures
            r.ceiling() == max_entropy,
            r.source() == entropy_producer,
    {
        Box::new(Self::new(max_entropy, entropy_producer))
    }

    /// The verdict on what the producer said.
    pub fn admits(&self, nearby_entropy: Option<Float64>) -> (r: bool)
        ensures
            r == within(nearby_entropy, self.ceiling()),
    {
        match nearby_entropy {
            Some(entropy) => entropy.at_most(&self.max_entropy),
            None => false,
        }
    }
}

} // verus!
