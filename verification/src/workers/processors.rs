//! The interface of all workers.
use vstd::prelude::*;

verus! {

/// The number of bytes that a [`Processor`] wants at a time.
#[derive(PartialEq, Eq, Structural, Debug, Clone, Copy)]
pub enum ChunkSize {
    /// Exactly this many.
    Size(usize),
    /// Any number.
    Any,
}

impl ChunkSize {
    /// The size, of a chunk size that has one.
    #[must_use]
    pub fn unwrap(self) -> (r: usize)
        requires
            self is Size,
        ensures
            ChunkSize::Size(r) == self,
    {
        match self {
            ChunkSize::Size(val) => val,
            ChunkSize::Any => 0,
        }
    }

    /// The size, or `default_size` where any size will do.
    #[must_use]
    pub fn or_default(self, default_size: usize) -> (r: usize)
        ensures
            r == (match self {
                ChunkSize::Size(size) => size,
                ChunkSize::Any => default_size,
            }),
    {
        if let ChunkSize::Size(size) = self {
            return size;
        }
        default_size
    }
}

/// A worker that is handed the bytes under examination, window by window.
///
/// What a worker gives for some bytes, and which bytes it can be handed,
/// depends on the bytes alone and never on what it was handed before.
pub trait Processor<T> {
    /// The chunk size of the worker. A worker that does not say leaves it
    /// open, as it does what it takes and what it gives.
    open spec fn chunk(&self) -> ChunkSize {
        arbitrary()
    }

    /// Whether the worker can be handed `bytes`.
    open spec fn takes(&self, bytes: Seq<u8>) -> bool {
        arbitrary()
    }

    /// What the worker gives for `bytes`.
    open spec fn produces(&self, bytes: Seq<u8>) -> Option<T> {
        arbitrary()
    }

    fn consume(&mut self, bytes: &[u8]) -> (r: Option<T>)
        requires
            old(self).takes(bytes@),
        ensures
            r == old(self).produces(bytes@),
            final(self).chunk() == old(self).chunk(),
            forall|other: Seq<u8>| #[trigger] final(self).takes(other) == old(self).takes(other),
            forall|other: Seq<u8>| #[trigger]
                final(self).produces(other) == old(self).produces(other),
    ;

    fn chunk_size(&self) -> (r: ChunkSize)
        ensures
            r == self.chunk(),
    ;
}

/// A boxed worker is the worker in the box.
impl<T, P: Processor<T> + ?Sized> Processor<T> for Box<P> {
    open spec fn chunk(&self) -> ChunkSize {
        (**self).chunk()
    }

    open spec fn takes(&self, bytes: Seq<u8>) -> bool {
        (**self).takes(bytes)
    }

    open spec fn produces(&self, bytes: Seq<u8>) -> Option<T> {
        (**self).produces(bytes)
    }

    fn consume(&mut self, bytes: &[u8]) -> (r: Option<T>) {
        (**self).consume(bytes)
    }

    fn chunk_size(&self) -> (r: ChunkSize) {
        (**self).chunk_size()
    }
}

} // verus!
