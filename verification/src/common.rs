//! Items shared by the whole crate: byte order, type tags and byte sources.
use vstd::prelude::*;

verus! {

/// Number of bytes asked of a source in one read, unless told otherwise.
pub const DEFAULT_BUFFER_SIZE: usize = 4096;

/// Byte order of a multi-byte value.
#[derive(PartialEq, Eq, Structural, Debug, Clone, Copy)]
pub enum Endianness {
    /// Least significant byte first.
    Little,
    /// Most significant byte first.
    Big,
}

/// Tag of one of the twelve numeric types a scan can look for.
#[derive(PartialEq, Eq, Structural, Debug, Clone, Copy)]
pub enum DataType {
    I8,
    I16,
    I32,
    I64,
    I128,
    U8,
    U16,
    U32,
    U64,
    U128,
    F32,
    F64,
}

/// Why the bytes of a source could not be had.
#[derive(Debug, Clone, PartialEq, Eq)]
pub enum ReadError {
    /// The source failed; the text is its own account of the failure.
    Source(String),
    /// The source delivered more bytes than an offset can count.
    TooLong,
}

/// One read of a source: how many bytes were asked for at most, and the
/// block or the failure that came back.
pub struct Delivery {
    pub asked: usize,
    pub outcome: Result<Seq<u8>, ReadError>,
}

impl Delivery {
    /// The bytes that the read brought: none where it failed.
    pub open spec fn block(self) -> Seq<u8> {
        match self.outcome {
            Ok(block) => block,
            Err(_) => Seq::empty(),
        }
    }

    /// Whether the read came back empty, which is how a source reports its
    /// end.
    pub open spec fn is_end(self) -> bool {
        self.outcome matches Ok(block) && block.len() == 0
    }
}

/// The blocks that `reads` brought, one behind the other.
pub open spec fn delivered(reads: Seq<Delivery>) -> Seq<u8>
    decreases reads.len(),
{
    if reads.len() == 0 {
        Seq::empty()
    } else {
        delivered(reads.drop_last()) + reads.last().block()
    }
}

/// Whether one of `reads` reported the end of the source.
pub open spec fn ended(reads: Seq<Delivery>) -> bool {
    exists|i: int| 0 <= i < reads.len() && (#[trigger] reads[i]).is_end()
}

/// Whether none of `reads` failed.
pub open spec fn unfailing(reads: Seq<Delivery>) -> bool {
    forall|i: int| 0 <= i < reads.len() ==> (#[trigger] reads[i]).outcome is Ok
}

/// A sequential, fallible supply of bytes.
///
/// `read_block` hands out the next bytes of the source, at most `max` of them
/// by convention, and an empty block once the source is exhausted. Nothing is
/// promised of what comes back: a [`crate::filebuffer::FileBuffer`] works on
/// whatever does. The one thing promised is the record: every read, with what
/// was asked and what came back, is added to `reads`.
pub trait ByteSource {
    /// The reads made of the source so far, in order. A source that does
    /// not say leaves it open.
    open spec fn reads(&self) -> Seq<Delivery> {
        arbitrary()
    }

    /// The bytes that the source has yet to deliver, where it knows them:
    /// a source that does delivers them in order, never fails, and comes
    /// back empty only where it is asked for nothing or has nothing left. A
    /// source that does not say knows none, and promises none of this.
    open spec fn ahead(&self) -> Option<Seq<u8>> {
        None
    }

    fn read_block(&mut self, max: usize) -> (r: Result<Vec<u8>, ReadError>)
        ensures
            final(self).reads() == old(self).reads().push(outcome_of(max, r)),
            old(self).ahead() matches Some(rest) ==> {
                &&& r matches Ok(block)
                &&& block@ == rest.take(spec_min(max as int, rest.len() as int))
                &&& final(self).ahead() == Some(rest.skip(block@.len() as int))
            },
    ;
}

/// The record of a read that asked for `max` bytes and came back with `r`.
pub open spec fn outcome_of(max: usize, r: Result<Vec<u8>, ReadError>) -> Delivery {
    Delivery {
        asked: max,
        outcome: match r {
            Ok(block) => Ok(block@),
            Err(error) => Err(error),
        },
    }
}

/// A boxed source is the source in the box.
impl<S: ByteSource + ?Sized> ByteSource for Box<S> {
    open spec fn reads(&self) -> Seq<Delivery> {
        (**self).reads()
    }

    open spec fn ahead(&self) -> Option<Seq<u8>> {
        (**self).ahead()
    }

    fn read_block(&mut self, max: usize) -> (r: Result<Vec<u8>, ReadError>) {
        (**self).read_block(max)
    }
}

/// A byte source over bytes held in memory.
pub struct MemorySource {
    data: Vec<u8>,
    cursor: usize,
    log: Ghost<Seq<Delivery>>,
}

impl MemorySource {
    /// The bytes that have not been read yet.
    pub closed spec fn remaining(&self) -> Seq<u8> {
        self.data@.skip(self.cursor as int)
    }

    #[verifier::type_invariant]
    spec fn wf(&self) -> bool {
        self.cursor <= self.data@.len()
    }

    /// A source that delivers `data` from its first byte on.
    pub fn new(data: Vec<u8>) -> (r: Self)
        ensures
            r.remaining() == data@,
            r.reads() == Seq::<Delivery>::empty(),
    {
        MemorySource { data, cursor: 0, log: Ghost(Seq::empty()) }
    }

    /// The next `min(max, remaining)` bytes, which are then read.
    pub fn take_block(&mut self, max: usize) -> (block: Vec<u8>)
        ensures
            block@ == old(self).remaining().take(
                spec_min(max as int, old(self).remaining().len() as int),
            ),
            final(self).remaining() == old(self).remaining().skip(block@.len() as int),
            final(self).reads() == old(self).reads().push(
                Delivery { asked: max, outcome: Ok(block@) },
            ),
    {
        proof {
            use_type_invariant(&*self);
        }
        let left: usize = self.data.len() - self.cursor;
        let count: usize = if max < left { max } else { left };
        let end: usize = self.cursor + count;
        let block = vstd::slice::slice_to_vec(
            vstd::slice::slice_subrange(self.data.as_slice(), self.cursor, end),
        );
        proof {
            assert(block@ =~= old(self).remaining().take(count as int));
            assert(self.data@.skip(end as int) =~= old(self).remaining().skip(count as int));
        }
        self.cursor = end;
        self.log = Ghost(self.log@.push(Delivery { asked: max, outcome: Ok(block@) }));
        block
    }
}

impl ByteSource for MemorySource {
    closed spec fn reads(&self) -> Seq<Delivery> {
        self.log@
    }

    /// The source knows what it has yet to deliver: what remains.
    open spec fn ahead(&self) -> Option<Seq<u8>> {
        Some(self.remaining())
    }

    /// Never fails: the block is what `take_block` hands out.
    fn read_block(&mut self, max: usize) -> (r: Result<Vec<u8>, ReadError>)
        ensures
            r is Ok,
            r->Ok_0@ == old(self).remaining().take(
                spec_min(max as int, old(self).remaining().len() as int),
            ),
            final(self).remaining() == old(self).remaining().skip(r->Ok_0@.len() as int),
    {
        Ok(self.take_block(max))
    }
}

/// `a` if it is the smaller of the two, else `b`.
pub open spec fn spec_min(a: int, b: int) -> int {
    if a <= b {
        a
    } else {
        b
    }
}

/// A byte source together with the name it goes by in reports.
pub struct SourceFile<S = Box<dyn ByteSource>> {
    path: String,
    file: S,
}

impl<S: ByteSource> SourceFile<S> {
    /// The name given at construction.
    pub closed spec fn path_spec(&self) -> Seq<char> {
        self.path@
    }

    /// The source given at construction.
    pub closed spec fn source(&self) -> S {
        self.file
    }

    #[must_use]
    pub fn new(path: String, file: S) -> (r: Self)
        ensures
            r.path_spec() == path@,
            r.source() == file,
    {
        SourceFile { path, file }
    }

    #[must_use]
    pub fn path(&self) -> (r: String)
        ensures
            r@ == self.path_spec(),
    {
        self.path.clone()
    }

    /// Gives up the name and hands out the source.
    #[must_use]
    pub fn file(self) -> (r: S)
        ensures
            r == self.source(),
    {
        self.file
    }
}

} // verus!
