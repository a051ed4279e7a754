//! A bounded window over a byte source, with `peek` and `pop`.
use vstd::prelude::*;
use crate::common::{
    delivered, ended, unfailing, ByteSource, Delivery, ReadError, DEFAULT_BUFFER_SIZE,
};

verus! {

/// What a [`FileBuffer`] stands for: every byte its source has delivered so
/// far, how many of them have been consumed, and whether the source has
/// reported its end.
pub struct FileBufferView {
    pub stream: Seq<u8>,
    pub position: nat,
    pub reached_eof: bool,
}

impl FileBufferView {
    /// What holds of every buffer: only delivered bytes are consumed, and
    /// every delivered byte has an offset.
    pub open spec fn wf(self) -> bool {
        self.position <= self.stream.len() <= usize::MAX
    }

    /// The bytes delivered and not yet consumed.
    pub open spec fn buffered(self) -> Seq<u8> {
        self.stream.skip(self.position as int)
    }

    /// Whether `peek(n)` and `pop(n)` can answer without asking the source.
    pub open spec fn ready(self, n: nat) -> bool {
        self.reached_eof || n <= self.buffered().len()
    }

    /// The first `n` buffered bytes, or all of them where there are fewer.
    pub open spec fn front(self, n: nat) -> Seq<u8> {
        self.buffered().take(crate::common::spec_min(n as int, self.buffered().len() as int))
    }

    /// `self` once `n` buffered bytes, or all of them where there are fewer,
    /// have been consumed.
    pub open spec fn advanced(self, n: nat) -> FileBufferView {
        FileBufferView {
            stream: self.stream,
            position: self.position + self.front(n).len(),
            reached_eof: self.reached_eof,
        }
    }

    /// `self` once the source has delivered `block`. An empty block is the
    /// source's way of reporting its end.
    pub open spec fn extended(self, block: Seq<u8>) -> FileBufferView {
        FileBufferView {
            stream: self.stream + block,
            position: self.position,
            reached_eof: self.reached_eof || block.len() == 0,
        }
    }

    /// Whether `later` can come of `self` by reads alone: nothing consumed,
    /// bytes only added behind those already there, and nothing added once
    /// the end was reported.
    pub open spec fn grows_to(self, later: FileBufferView) -> bool {
        &&& later.position == self.position
        &&& self.stream.is_prefix_of(later.stream)
        &&& self.reached_eof ==> later == self
    }

    /// What a successful `peek(n)` that answers `bytes` does to `self`.
    pub open spec fn peeks(self, n: nat, later: FileBufferView, bytes: Seq<u8>) -> bool {
        &&& self.grows_to(later)
        &&& self.ready(n) ==> later == self
        &&& later.ready(n)
        &&& bytes == later.front(n)
    }

    /// `later` as it stood before anything was consumed since `self`.
    pub open spec fn rewound(self, later: FileBufferView) -> FileBufferView {
        FileBufferView {
            stream: later.stream,
            position: self.position,
            reached_eof: later.reached_eof,
        }
    }

    /// What a successful `pop_drop(n)` does to `self`: what `peek(n)` does,
    /// and then the bytes that `peek(n)` would answer are consumed.
    pub open spec fn drops(self, n: nat, later: FileBufferView) -> bool {
        &&& self.peeks(n, self.rewound(later), self.rewound(later).front(n))
        &&& later == self.rewound(later).advanced(n)
    }

    /// What a successful `pop(n)` that answers `bytes` does to `self`.
    pub open spec fn pops(self, n: nat, later: FileBufferView, bytes: Seq<u8>) -> bool {
        &&& self.drops(n, later)
        &&& bytes == self.rewound(later).front(n)
    }
}

/// Two peeks for as many bytes with nothing consumed in between answer the
/// same bytes, and the second one changes nothing.
pub proof fn lemma_peek_twice(
    before: FileBufferView,
    n: nat,
    between: FileBufferView,
    first: Seq<u8>,
    after: FileBufferView,
    second: Seq<u8>,
)
    requires
        before.peeks(n, between, first),
        between.peeks(n, after, second),
    ensures
        second == first,
        after == between,
{
}

/// Once the source has ended, a peek for no fewer bytes than are left
/// answers all that are left, and changes nothing.
pub proof fn lemma_peek_at_end(
    before: FileBufferView,
    n: nat,
    after: FileBufferView,
    bytes: Seq<u8>,
)
    requires
        before.reached_eof,
        before.buffered().len() <= n,
        before.peeks(n, after, bytes),
    ensures
        bytes == before.buffered(),
        after == before,
{
}

/// Once the source has ended and nothing is left, every peek answers no
/// bytes.
pub proof fn lemma_peek_past_end(
    before: FileBufferView,
    n: nat,
    after: FileBufferView,
    bytes: Seq<u8>,
)
    requires
        before.reached_eof,
        before.buffered().len() == 0,
        before.peeks(n, after, bytes),
    ensures
        bytes.len() == 0,
        after == before,
{
}

/// Once the source has ended, a pop for no fewer bytes than are left
/// answers all that are left, and leaves nothing.
pub proof fn lemma_pop_at_end(
    before: FileBufferView,
    n: nat,
    after: FileBufferView,
    bytes: Seq<u8>,
)
    requires
        before.wf(),
        before.reached_eof,
        before.buffered().len() <= n,
        before.pops(n, after, bytes),
    ensures
        bytes == before.buffered(),
        after.position == before.stream.len(),
        after.buffered().len() == 0,
        after.reached_eof,
{
}

/// No reads deliver nothing and report no end.
pub proof fn lemma_no_read(reads: Seq<Delivery>)
    ensures
        reads.skip(reads.len() as int) == Seq::<Delivery>::empty(),
        delivered(Seq::<Delivery>::empty()) == Seq::<u8>::empty(),
        !ended(Seq::<Delivery>::empty()),
{
    assert(reads.skip(reads.len() as int) =~= Seq::<Delivery>::empty());
}

/// One more read brings its block behind the others, and reports the end
/// if it came back empty.
pub proof fn lemma_one_more_read(reads: Seq<Delivery>, last: Delivery)
    ensures
        delivered(reads.push(last)) == delivered(reads) + last.block(),
        ended(reads.push(last)) == (ended(reads) || last.is_end()),
        unfailing(reads.push(last)) == (unfailing(reads) && last.outcome is Ok),
{
    let more = reads.push(last);
    assert(more.drop_last() =~= reads);
    if ended(reads) {
        let i = choose|i: int| 0 <= i < reads.len() && (#[trigger] reads[i]).is_end();
        assert(more[i].is_end());
    }
    if last.is_end() {
        assert(more[reads.len() as int].is_end());
    }
    if ended(more) {
        let i = choose|i: int| 0 <= i < more.len() && (#[trigger] more[i]).is_end();
        if i < reads.len() {
            assert(reads[i].is_end());
        }
    }
    if unfailing(more) {
        assert forall|i: int| 0 <= i < reads.len() implies (#[trigger] reads[i]).outcome is Ok by {
            assert(more[i].outcome is Ok);
        }
        assert(more[reads.len() as int].outcome is Ok);
    }
}

/// Reads that follow reads deliver what both deliver, one behind the other,
/// and report the end if either do.
pub proof fn lemma_reads_concat(first: Seq<Delivery>, second: Seq<Delivery>)
    ensures
        delivered(first + second) == delivered(first) + delivered(second),
        ended(first + second) == (ended(first) || ended(second)),
        unfailing(first + second) == (unfailing(first) && unfailing(second)),
    decreases second.len(),
{
    if second.len() == 0 {
        assert(first + second =~= first);
        assert(delivered(first) + Seq::<u8>::empty() =~= delivered(first));
    } else {
        lemma_reads_concat(first, second.drop_last());
        assert((first + second).drop_last() =~= first + second.drop_last());
        lemma_one_more_read(first + second.drop_last(), second.last());
        lemma_one_more_read(second.drop_last(), second.last());
        assert(second.drop_last().push(second.last()) =~= second);
        assert((first + second.drop_last()).push(second.last()) =~= first + second);
        assert(delivered(first + second) =~= delivered(first) + delivered(second));
    }
}

/// The reads made since a first state are those made up to a second state
/// and those made since the second.
proof fn lemma_read_on(
    first: Seq<Delivery>,
    second: Seq<Delivery>,
    third: Seq<Delivery>,
    stream: Seq<u8>,
    longer: Seq<u8>,
    longest: Seq<u8>,
)
    requires
        first.is_prefix_of(second),
        second.is_prefix_of(third),
        longer == stream + delivered(second.skip(first.len() as int)),
        longest == longer + delivered(third.skip(second.len() as int)),
    ensures
        first.is_prefix_of(third),
        third.skip(first.len() as int) == second.skip(first.len() as int) + third.skip(
            second.len() as int,
        ),
        longest == stream + delivered(third.skip(first.len() as int)),
        ended(third.skip(first.len() as int)) == (ended(second.skip(first.len() as int)) || ended(
            third.skip(second.len() as int),
        )),
{
    let old_new = second.skip(first.len() as int);
    let step = third.skip(second.len() as int);
    let all_new = third.skip(first.len() as int);
    assert(all_new =~= old_new + step);
    lemma_reads_concat(old_new, step);
    assert(longest =~= stream + delivered(all_new));
}

/// Whether a call for `n` bytes, of a buffer that stood as `before` when the
/// call began, needs a read once it has made `reads`: the end has not been
/// recorded, and fewer than `n` bytes are buffered.
pub open spec fn read_needed(before: FileBufferView, reads: Seq<Delivery>, n: nat) -> bool {
    &&& !before.reached_eof
    &&& !ended(reads)
    &&& before.buffered().len() + delivered(reads).len() < n
}

/// A window over the bytes of a source: it reads ahead in blocks, hands out
/// the bytes at the current offset, and forgets what has been consumed.
pub struct FileBuffer<S = Box<dyn ByteSource>> {
    file: S,
    /// The bytes held; those from `start` on are unconsumed.
    held: Vec<u8>,
    start: usize,
    reached_eof: bool,
    buffer_size: usize,
    position: usize,
    consumed: Ghost<Seq<u8>>,
}

impl<S> View for FileBuffer<S> {
    type V = FileBufferView;

    closed spec fn view(&self) -> FileBufferView {
        FileBufferView {
            stream: self.consumed@ + self.held@.skip(self.start as int),
            position: self.position as nat,
            reached_eof: self.reached_eof,
        }
    }
}

impl<S: ByteSource> FileBuffer<S> {
    /// The invariant of the buffer: the offset counts the consumed bytes, and
    /// every delivered byte has an offset.
    pub closed spec fn wf(&self) -> bool {
        &&& self.start <= self.held.len()
        &&& self.consumed@.len() == self.position
        &&& self.position + (self.held.len() - self.start) <= usize::MAX
    }

    /// The number of bytes asked of the source in one read.
    pub closed spec fn block_size(&self) -> usize {
        self.buffer_size
    }

    /// The source, as it stands.
    pub closed spec fn source(&self) -> S {
        self.file
    }

    /// The reads made of the source since `before`.
    pub open spec fn reads_since(&self, before: Self) -> Seq<Delivery> {
        self.source().reads().skip(before.source().reads().len() as int)
    }

    /// What the reads made of the source since `before` have done: each
    /// asked for a block of the buffer's size, the blocks that came back were
    /// added to the stream in the order in which they came, and the end was
    /// recorded when one of them came back empty, and not otherwise.
    pub open spec fn read_since(&self, before: Self) -> bool {
        &&& before.source().reads().is_prefix_of(self.source().reads())
        &&& forall|i: int|
            0 <= i < self.reads_since(before).len() ==> (#[trigger] self.reads_since(
                before,
            )[i]).asked == before.block_size()
        &&& self@.stream == before@.stream + delivered(self.reads_since(before))
        &&& self@.reached_eof == (before@.reached_eof || ended(self.reads_since(before)))
    }

    /// Whether each of the reads since `before` was needed by a call for `n`
    /// bytes that began at `before`: no read is made once the end has been
    /// recorded, and none once `n` bytes are buffered.
    pub open spec fn read_as_needed(&self, before: Self, n: nat) -> bool {
        forall|k: int|
            0 <= k < self.reads_since(before).len() ==> read_needed(
                before@,
                #[trigger] self.reads_since(before).take(k),
                n,
            )
    }

    /// What the reads since `before` brought where the source knew, at
    /// `before`, what it had yet to deliver: none of them failed, they
    /// brought the first of those bytes, the source has the others yet to
    /// deliver, and one came back empty only where the buffer asks for blocks
    /// of no bytes or all of them had been brought.
    pub open spec fn foreseen(&self, before: Self) -> bool {
        before.source().ahead() matches Some(rest) ==> {
            let reads = self.reads_since(before);
            let brought = delivered(reads);
            &&& unfailing(reads)
            &&& brought.len() <= rest.len()
            &&& brought == rest.take(brought.len() as int)
            &&& self.source().ahead() == Some(rest.skip(brought.len() as int))
            &&& ended(reads) ==> before.block_size() == 0 || brought.len() == rest.len()
        }
    }

    /// Where no read has been made, nothing has been brought.
    pub proof fn lemma_nothing_read(&self)
        ensures
            self.read_well(*self),
            self.foreseen(*self),
            self.read_before_end(*self),
    {
        lemma_no_read(self.source().reads());
        assert(self@.stream + Seq::<u8>::empty() =~= self@.stream);
        if self.source().ahead() is Some {
            let rest = self.source().ahead()->0;
            assert(Seq::<u8>::empty() =~= rest.take(0));
            assert(rest.skip(0) =~= rest);
        }
    }

    /// What was foreseen up to a state in between and what was foreseen
    /// since is what was foreseen in all.
    pub proof fn lemma_foreseen_twice(&self, between: Self, before: Self)
        requires
            between.foreseen(before),
            self.foreseen(between),
            before.source().reads().is_prefix_of(between.source().reads()),
            between.source().reads().is_prefix_of(self.source().reads()),
            between.block_size() == before.block_size(),
        ensures
            self.foreseen(before),
    {
        if before.source().ahead() is Some {
            let rest = before.source().ahead()->0;
            let first = between.reads_since(before);
            let second = self.reads_since(between);
            let all = self.reads_since(before);
            assert(all =~= first + second);
            lemma_reads_concat(first, second);
            let one = delivered(first);
            let two = delivered(second);
            assert(one + two =~= rest.take((one.len() + two.len()) as int));
            assert(rest.skip(one.len() as int).skip(two.len() as int) =~= rest.skip(
                (one.len() + two.len()) as int,
            ));
        }
    }

    /// Whether each of the reads since `before` was made while the end had
    /// not been recorded.
    pub open spec fn read_before_end(&self, before: Self) -> bool {
        forall|k: int|
            0 <= k < self.reads_since(before).len() ==> !before@.reached_eof && !ended(
                #[trigger] self.reads_since(before).take(k),
            )
    }

    /// Reads made before the end up to a state in between, and reads made
    /// before the end since, are reads made before the end.
    pub proof fn lemma_read_before_end_twice(&self, between: Self, before: Self)
        requires
            between.read_before_end(before),
            self.read_before_end(between),
            between.read_since(before),
            between.source().reads().is_prefix_of(self.source().reads()),
        ensures
            self.read_before_end(before),
    {
        let first = between.reads_since(before);
        let second = self.reads_since(between);
        let all = self.reads_since(before);
        assert(all =~= first + second);
        assert forall|k: int| 0 <= k < all.len() implies !before@.reached_eof && !ended(
            #[trigger] all.take(k),
        ) by {
            if k < first.len() {
                assert(all.take(k) =~= first.take(k));
            } else {
                let j = k - first.len();
                assert(all.take(k) =~= first + second.take(j));
                assert(!between@.reached_eof && !ended(second.take(j)));
                lemma_reads_concat(first, second.take(j));
            }
        }
    }

    /// Reads that a call for `n` bytes needed were made before the end.
    pub proof fn lemma_needed_before_end(&self, before: Self, n: nat)
        requires
            self.read_as_needed(before, n),
        ensures
            self.read_before_end(before),
    {
        assert forall|k: int| 0 <= k < self.reads_since(before).len() implies !before@.reached_eof
            && !ended(#[trigger] self.reads_since(before).take(k)) by {
            assert(read_needed(before@, self.reads_since(before).take(k), n));
        }
    }

    /// What holds where none of the reads since `before` went wrong.
    pub open spec fn read_well(&self, before: Self) -> bool {
        self.read_since(before) && unfailing(self.reads_since(before))
    }

    /// What holds where the last read since `before` failed with `error`,
    /// the first one to fail.
    pub open spec fn read_failed(&self, before: Self, error: ReadError) -> bool {
        &&& self.read_since(before)
        &&& self.reads_since(before).len() > 0
        &&& unfailing(self.reads_since(before).drop_last())
        &&& self.reads_since(before).last().outcome == Err::<Seq<u8>, ReadError>(error)
    }

    /// What holds where the last read since `before` brought a block that
    /// would have carried the stream past the last offset that can be
    /// counted: the block was left out, and what came before it was added as
    /// always.
    pub open spec fn read_too_much(&self, before: Self) -> bool {
        let reads = self.reads_since(before);
        &&& before.source().reads().is_prefix_of(self.source().reads())
        &&& forall|i: int| 0 <= i < reads.len() ==> (#[trigger] reads[i]).asked == before.block_size()
        &&& reads.len() > 0
        &&& unfailing(reads)
        &&& self@.stream == before@.stream + delivered(reads.drop_last())
        &&& self@.stream.len() + reads.last().block().len() > usize::MAX
        &&& self@.reached_eof == (before@.reached_eof || ended(reads.drop_last()))
    }

    /// How a call that answers `r` stands to the reads it made: none of them
    /// went wrong where it answers well, and where it does not, the last one
    /// was the first to go wrong and the call answers with what went wrong.
    pub open spec fn read_for<R>(&self, before: Self, r: Result<R, ReadError>) -> bool {
        match r {
            Ok(_) => self.read_well(before),
            Err(error) => self.read_failed(before, error) || (error == ReadError::TooLong
                && self.read_too_much(before)),
        }
    }

    /// What was read up to a state in between and what was read since is
    /// what was read in all.
    pub proof fn lemma_read_since_twice(&self, between: Self, before: Self)
        requires
            between.read_since(before),
            self.read_since(between),
            between.block_size() == before.block_size(),
        ensures
            self.read_since(before),
            self.reads_since(before) == between.reads_since(before) + self.reads_since(between),
    {
        lemma_read_on(
            before.source().reads(),
            between.source().reads(),
            self.source().reads(),
            before@.stream,
            between@.stream,
            self@.stream,
        );
    }

    /// Reads that went well, and then a call that answers `r`, make a call
    /// that answers `r`.
    pub proof fn lemma_read_on<R>(&self, between: Self, before: Self, r: Result<R, ReadError>)
        requires
            between.read_well(before),
            self.read_for(between, r),
            between.block_size() == before.block_size(),
        ensures
            self.read_for(before, r),
    {
        let first = between.reads_since(before);
        let second = self.reads_since(between);
        let all = self.reads_since(before);
        assert(before.source().reads().is_prefix_of(self.source().reads()));
        assert(all =~= first + second);
        lemma_reads_concat(first, second);
        assert forall|i: int| 0 <= i < all.len() implies (#[trigger] all[i]).asked
            == before.block_size() by {
            if i < first.len() {
                assert(first[i].asked == before.block_size());
            } else {
                assert(second[i - first.len()].asked == between.block_size());
            }
        }
        match r {
            Ok(_) => {
                self.lemma_read_since_twice(between, before);
            },
            Err(error) => {
                assert(second.len() > 0);
                assert(all.drop_last() =~= first + second.drop_last());
                assert(all.last() == second.last());
                lemma_reads_concat(first, second.drop_last());
                if self.read_failed(between, error) {
                    self.lemma_read_since_twice(between, before);
                } else {
                    assert(self@.stream =~= before@.stream + delivered(all.drop_last()));
                }
            },
        }
    }

    /// A buffer over `reader` that reads [`DEFAULT_BUFFER_SIZE`] bytes at a time.
    pub fn new(reader: S) -> (r: Self)
        ensures
            r.wf(),
            r.source() == reader,
            r@.stream == Seq::<u8>::empty(),
            r@.position == 0,
            !r@.reached_eof,
            r.block_size() == DEFAULT_BUFFER_SIZE,
    {
        Self::with_buffer_size(reader, DEFAULT_BUFFER_SIZE)
    }

    /// A buffer over `reader` that reads `buffer_size` bytes at a time.
    pub fn with_buffer_size(reader: S, buffer_size: usize) -> (r: Self)
        ensures
            r.wf(),
            r.source() == reader,
            r@.stream == Seq::<u8>::empty(),
            r@.position == 0,
            !r@.reached_eof,
            r.block_size() == buffer_size,
    {
        let r = FileBuffer {
            file: reader,
            held: Vec::new(),
            start: 0,
            reached_eof: false,
            buffer_size,
            position: 0,
            consumed: Ghost(Seq::empty()),
        };
        assert(r@.stream =~= Seq::<u8>::empty());
        r
    }

    fn buffered_len(&self) -> (r: usize)
        requires
            self.wf(),
        ensures
            r == self@.buffered().len(),
    {
        proof {
            self.lemma_buffered();
        }
        self.held.len() - self.start
    }

    /// A buffer in order stands for a view in order.
    pub proof fn lemma_view(&self)
        requires
            self.wf(),
        ensures
            self@.wf(),
    {
    }

    proof fn lemma_buffered(&self)
        requires
            self.wf(),
        ensures
            self@.buffered() == self.held@.skip(self.start as int),
            self@.buffered().len() == self.held@.len() - self.start,
            self@.stream.len() == self.position + self.held@.len() - self.start,
    {
        assert(self@.buffered() =~= self.held@.skip(self.start as int));
    }

    /// Takes in a block that the source has delivered.
    ///
    /// Fails, and changes nothing, where the block would carry the stream
    /// past the last offset that can be counted.
    pub fn absorb(&mut self, block: Vec<u8>) -> (r: Result<(), ReadError>)
        requires
            old(self).wf(),
        ensures
            final(self).wf(),
            final(self).block_size() == old(self).block_size(),
            final(self).source() == old(self).source(),
            old(self)@.stream.len() + block@.len() <= usize::MAX ==> r is Ok && final(self)@
                == old(self)@.extended(block@),
            old(self)@.stream.len() + block@.len() > usize::MAX ==> r == Err::<(), ReadError>(
                ReadError::TooLong,
            ) && *final(self) == *old(self),
    {
        proof {
            self.lemma_buffered();
        }
        let buffered: usize = self.held.len() - self.start;
        if block.len() > usize::MAX - self.position - buffered {
            return Err(ReadError::TooLong);
        }
        if block.len() == 0 {
            self.reached_eof = true;
            assert(self@.stream =~= old(self)@.stream + block@);
            return Ok(());
        }
        // Drop what has been consumed, so that the bytes held stay bounded
        // by what is unconsumed and one block.
        let ghost added = block@;
        let mut rest = self.held.split_off(self.start);
        let mut block = block;
        rest.append(&mut block);
        self.held = rest;
        self.start = 0;
        proof {
            assert(self.held@.skip(0) =~= self.held@);
            assert(self@.stream =~= old(self)@.stream + added);
        }
        Ok(())
    }

    /// Asks the source for one block and takes it in.
    fn fill_buffer(&mut self) -> (r: Result<(), ReadError>)
        requires
            old(self).wf(),
            !old(self)@.reached_eof,
        ensures
            final(self).wf(),
            final(self).block_size() == old(self).block_size(),
            old(self)@.grows_to(final(self)@),
            r is Ok ==> final(self)@.reached_eof || final(self)@.stream.len() > old(
                self,
            )@.stream.len(),
            final(self).reads_since(*old(self)).len() == 1,
            final(self).read_for(*old(self), r),
            final(self).foreseen(*old(self)),
            old(self).source().ahead() matches Some(rest) && old(self)@.stream.len() + rest.len()
                <= usize::MAX ==> r is Ok,
    {
        let read = self.file.read_block(self.buffer_size);
        proof {
            let one = self.file.reads().skip(old(self).file.reads().len() as int);
            let only = crate::common::outcome_of(self.buffer_size, read);
            assert(one =~= Seq::<Delivery>::empty().push(only));
            assert(one.drop_last() =~= Seq::<Delivery>::empty());
            lemma_no_read(old(self).file.reads());
            lemma_one_more_read(Seq::<Delivery>::empty(), only);
            assert(Seq::<u8>::empty() + only.block() =~= only.block());
            assert(self@.stream + Seq::<u8>::empty() =~= self@.stream);
        }
        match read {
            Ok(block) => self.absorb(block),
            Err(e) => Err(e),
        }
    }

    /// Reads until `n` bytes are buffered or the source has ended.
    fn fill_until(&mut self, n: usize) -> (r: Result<(), ReadError>)
        requires
            old(self).wf(),
        ensures
            final(self).wf(),
            final(self).block_size() == old(self).block_size(),
            old(self)@.grows_to(final(self)@),
            old(self)@.ready(n as nat) ==> r is Ok && *final(self) == *old(self),
            r is Ok ==> final(self)@.ready(n as nat),
            final(self).read_for(*old(self), r),
            final(self).read_as_needed(*old(self), n as nat),
            final(self).foreseen(*old(self)),
            old(self).source().ahead() matches Some(rest) && old(self)@.stream.len() + rest.len()
                <= usize::MAX ==> r is Ok,
    {
        proof {
            lemma_no_read(self.file.reads());
            if old(self).source().ahead() is Some {
                let rest = old(self).source().ahead()->0;
                assert(Seq::<u8>::empty() =~= rest.take(0));
                assert(rest.skip(0) =~= rest);
            }
            assert(self@.stream + Seq::<u8>::empty() =~= self@.stream);
        }
        while !self.reached_eof && n > self.buffered_len()
            invariant
                self.wf(),
                self.block_size() == old(self).block_size(),
                old(self)@.grows_to(self@),
                old(self)@.ready(n as nat) ==> *self == *old(self),
                old(self).wf(),
                self.read_well(*old(self)),
                self.read_as_needed(*old(self), n as nat),
                self.foreseen(*old(self)),
            decreases
                (if self@.reached_eof || self@.buffered().len() >= n {
                    0
                } else {
                    n - self@.buffered().len()
                }),
        {
            let ghost before = *self;
            let ghost made = self.reads_since(*old(self));
            proof {
                self.lemma_buffered();
                old(self).lemma_view();
                assert(read_needed(old(self)@, made, n as nat));
            }
            let filled = self.fill_buffer();
            proof {
                self.lemma_buffered();
                self.lemma_read_on(before, *old(self), filled);
                self.lemma_foreseen_twice(before, *old(self));
                let now = self.reads_since(*old(self));
                assert(now =~= made + self.reads_since(before));
                assert forall|k: int| 0 <= k < now.len() implies read_needed(
                    old(self)@,
                    #[trigger] now.take(k),
                    n as nat,
                ) by {
                    if k < made.len() {
                        assert(now.take(k) =~= made.take(k));
                    } else {
                        assert(now.take(k) =~= made);
                    }
                }
            }
            if let Err(e) = filled {
                return Err(e);
            }
        }
        Ok(())
    }

    /// Consumes the first `size` buffered bytes.
    fn drain(&mut self, size: usize)
        requires
            old(self).wf(),
            size <= old(self)@.buffered().len(),
        ensures
            final(self).wf(),
            final(self).block_size() == old(self).block_size(),
            final(self).source() == old(self).source(),
            final(self)@ == old(self)@.advanced(size as nat),
            size == 0 ==> *final(self) == *old(self),
    {
        proof {
            self.lemma_buffered();
        }
        let ghost taken = self.held@.subrange(self.start as int, self.start + size);
        self.start = self.start + size;
        self.position = self.position + size;
        self.consumed = Ghost(self.consumed@ + taken);
        proof {
            assert(self@.stream =~= old(self)@.stream);
            assert(old(self)@.front(size as nat).len() == size);
            assert(size == 0 ==> self.consumed@ =~= old(self).consumed@);
        }
    }

    /// Looks at the next `n` bytes without consuming them.
    ///
    /// Where fewer than `n` bytes are buffered and the source has not ended,
    /// blocks are read until there are `n` or the source ends. The answer is
    /// then the first `n` buffered bytes, or all of them where there are
    /// fewer. Where no read is needed, none is made and nothing changes at all.
    pub fn peek(&mut self, n: usize) -> (r: Result<&[u8], ReadError>)
        requires
            old(self).wf(),
        ensures
            final(self).wf(),
            final(self).block_size() == old(self).block_size(),
            old(self)@.ready(n as nat) ==> r is Ok && *final(self) == *old(self),
            r matches Ok(bytes) ==> old(self)@.peeks(n as nat, final(self)@, bytes@),
            r is Err ==> old(self)@.grows_to(final(self)@),
            final(self).read_for(*old(self), r),
            final(self).read_as_needed(*old(self), n as nat),
            final(self).foreseen(*old(self)),
            old(self).source().ahead() matches Some(rest) && old(self)@.stream.len() + rest.len()
                <= usize::MAX ==> r is Ok,
    {
        if let Err(e) = self.fill_until(n) {
            return Err(e);
        }
        proof {
            self.lemma_buffered();
        }
        let buffered: usize = self.held.len() - self.start;
        let size: usize = if n < buffered { n } else { buffered };
        let bytes = vstd::slice::slice_subrange(self.held.as_slice(), self.start, self.start + size);
        assert(bytes@ =~= self@.front(n as nat));
        Ok(bytes)
    }

    /// Consumes the next `n` bytes and returns them.
    ///
    /// Reads as `peek` does; then the first `n` buffered bytes, or all of
    /// them where there are fewer, are consumed and the offset moves on by
    /// their number.
    pub fn pop(&mut self, n: usize) -> (r: Result<Vec<u8>, ReadError>)
        requires
            old(self).wf(),
        ensures
            final(self).wf(),
            final(self).block_size() == old(self).block_size(),
            old(self)@.ready(n as nat) ==> r is Ok && final(self).source() == old(self).source(),
            n == 0 ==> *final(self) == *old(self),
            r matches Ok(bytes) ==> old(self)@.pops(n as nat, final(self)@, bytes@),
            r is Err ==> old(self)@.grows_to(final(self)@),
            final(self).read_for(*old(self), r),
            final(self).read_as_needed(*old(self), n as nat),
            final(self).foreseen(*old(self)),
            old(self).source().ahead() matches Some(rest) && old(self)@.stream.len() + rest.len()
                <= usize::MAX ==> r is Ok,
    {
        if let Err(e) = self.fill_until(n) {
            return Err(e);
        }
        let ghost mid = self@;
        proof {
            self.lemma_buffered();
        }
        let buffered: usize = self.held.len() - self.start;
        let size: usize = if n < buffered { n } else { buffered };
        let bytes = vstd::slice::slice_to_vec(
            vstd::slice::slice_subrange(self.held.as_slice(), self.start, self.start + size),
        );
        assert(bytes@ =~= mid.front(n as nat));
        self.drain(size);
        assert(mid.advanced(size as nat) == mid.advanced(n as nat));
        Ok(bytes)
    }

    /// Consumes the next `n` bytes, as `pop` does, without handing them out.
    pub fn pop_drop(&mut self, n: usize) -> (r: Result<(), ReadError>)
        requires
            old(self).wf(),
        ensures
            final(self).wf(),
            final(self).block_size() == old(self).block_size(),
            old(self)@.ready(n as nat) ==> r is Ok && final(self).source() == old(self).source(),
            n == 0 ==> *final(self) == *old(self),
            r is Ok ==> old(self)@.drops(n as nat, final(self)@),
            r is Err ==> old(self)@.grows_to(final(self)@),
            final(self).read_for(*old(self), r),
            final(self).read_as_needed(*old(self), n as nat),
            final(self).foreseen(*old(self)),
            old(self).source().ahead() matches Some(rest) && old(self)@.stream.len() + rest.len()
                <= usize::MAX ==> r is Ok,
    {
        if let Err(e) = self.fill_until(n) {
            return Err(e);
        }
        let ghost mid = self@;
        let buffered: usize = self.buffered_len();
        let size: usize = if n < buffered { n } else { buffered };
        self.drain(size);
        assert(mid.advanced(size as nat) == mid.advanced(n as nat));
        Ok(())
    }

    /// The number of bytes consumed so far: the offset, in the source, of the
    /// next byte.
    pub fn position(&self) -> (r: usize)
        ensures
            r == self@.position,
    {
        self.position
    }
}

} // verus!
