//! The worker that reads a number out of each window.
use vstd::prelude::*;
use std::marker::PhantomData;
use crate::common::Endianness;
use crate::types::bit_type::BitType;
use crate::types::endian::{FromBigEndian, FromLittleEndian};
use crate::workers::processors::{ChunkSize, Processor};

verus! {

/// Reads values of type `T` in one byte order.
pub struct NativeProcessor<T> {
    endianness: Endianness,
    phantom: PhantomData<T>,
}

/// The value of type `T` that `bytes` hold in the given byte order.
pub open spec fn decoded<T: BitType>(endianness: Endianness, bytes: Seq<u8>) -> T {
    match endianness {
        Endianness::Big => <T as FromBigEndian>::be_decoded(bytes),
        Endianness::Little => <T as FromLittleEndian>::le_decoded(bytes),
    }
}

impl<T: BitType> Processor<T> for NativeProcessor<T> {
    open spec fn chunk(&self) -> ChunkSize {
        ChunkSize::Size(T::spec_width() as usize)
    }

    /// More bytes than one value takes are a mistake of the caller.
    open spec fn takes(&self, bytes: Seq<u8>) -> bool {
        bytes.len() <= T::spec_width()
    }

    /// The value that the bytes hold, or nothing where they are too few.
    open spec fn produces(&self, bytes: Seq<u8>) -> Option<T> {
        if bytes.len() < T::spec_width() {
            None
        } else {
            Some(decoded::<T>(self.byte_order(), bytes))
        }
    }

    fn consume(&mut self, bytes: &[u8]) -> (r: Option<T>) {
        proof {
            T::lemma_widths();
        }
        if bytes.len() < T::width() {
            // Not enough bytes supplied
            return None;
        }
        if self.endianness == Endianness::Big {
            let result = <T as FromBigEndian>::from_bytes(bytes);
            return Some(result);
        }
        let result = <T as FromLittleEndian>::from_bytes(bytes);
        Some(result)
    }

    fn chunk_size(&self) -> (r: ChunkSize) {
        ChunkSize::Size(T::width())
    }
}

impl<T: BitType> NativeProcessor<T> {
    /// The byte order in which values are read.
    pub closed spec fn byte_order(&self) -> Endianness {
        self.endianness
    }

    #[must_use]
    pub fn with_little_endian() -> (r: NativeProcessor<T>)
        ensures
            r.byte_order() == Endianness::Little,
    {
        Self::new(Endianness::Little)
    }

    #[must_use]
    pub fn with_big_endian() -> (r: NativeProcessor<T>)
        ensures
            r.byte_order() == Endianness::Big,
    {
        Self::new(Endianness::Big)
    }

    #[must_use]
    pub fn new(endianness: Endianness) -> (r: NativeProcessor<T>)
        ensures
            r.byte_order() == endianness,
    {
        NativeProcessor { endianness, phantom: PhantomData }
    }
}

} // verus!
