//! The interface of all filters.
use vstd::prelude::*;

verus! {

/// A predicate over candidate values.
pub trait Filter<T> {
    /// Whether the filter, as it stands, lets `value` pass. A filter that
    /// does not say leaves it open.
    open spec fn accepts(&self, value: T) -> bool {
        arbitrary()
    }

    /// Whether the bytes shown to the filter leave its verdicts alone. A
    /// filter that does not say is not taken to be steady.
    open spec fn steady(&self) -> bool {
        false
    }

    /// The bytes that the filter has been shown so far, one window behind
    /// the other. It is kept by a filter that is not steady; a filter that
    /// does not say leaves it open.
    open spec fn shown(&self) -> Seq<u8> {
        arbitrary()
    }

    /// Whether the filter would let `value` pass once it had been shown
    /// `more` behind what it has been shown so far. A filter that does not
    /// say leaves it open.
    open spec fn accepts_after(&self, more: Seq<u8>, value: T) -> bool {
        arbitrary()
    }

    /// Whether `result` passes: as the filter stands, which is to say once
    /// it has been shown no more than it has been.
    fn includes(&self, result: T) -> (r: bool)
        ensures
            r == self.accepts(result),
            r == self.accepts_after(Seq::<u8>::empty(), result),
    ;

    /// Whether a value is there and passes.
    fn include_unwrap(&self, result: Option<T>) -> (r: bool)
        ensures
            r == (result matches Some(value) && self.accepts(value)),
    {
        match result {
            Some(value) => self.includes(value),
            None => false,
        }
    }

    /// Shows the filter the raw bytes under examination. A steady filter
    /// stays steady and judges every value as before; one that is not stays
    /// so, and has then been shown the bytes.
    fn observe(&mut self, bytes: &[u8])
        ensures
            final(self).steady() == old(self).steady(),
            old(self).steady() ==> forall|value: T|
                final(self).accepts(value) == old(self).accepts(value),
            !old(self).steady() ==> final(self).shown() == old(self).shown() + bytes@,
            forall|more: Seq<u8>, value: T| #[trigger]
                final(self).accepts_after(more, value) == old(self).accepts_after(
                    bytes@ + more,
                    value,
                ),
    ;
}

/// A boxed filter is the filter in the box.
impl<T, F: Filter<T> + ?Sized> Filter<T> for Box<F> {
    open spec fn accepts(&self, value: T) -> bool {
        (**self).accepts(value)
    }

    open spec fn steady(&self) -> bool {
        (**self).steady()
    }

    open spec fn shown(&self) -> Seq<u8> {
        (**self).shown()
    }

    open spec fn accepts_after(&self, more: Seq<u8>, value: T) -> bool {
        (**self).accepts_after(more, value)
    }

    fn includes(&self, result: T) -> (r: bool) {
        proof {
            assert(self.accepts_after(Seq::<u8>::empty(), result) == (**self).accepts_after(
                Seq::<u8>::empty(),
                result,
            ));
        }
        (**self).includes(result)
    }

    fn observe(&mut self, bytes: &[u8]) {
        (**self).observe(bytes)
    }
}

} // verus!
