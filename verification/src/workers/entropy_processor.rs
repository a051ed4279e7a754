//! The sliding window over the bytes examined last, and its histogram.
use vstd::prelude::*;
use std::marker::PhantomData;
use crate::types::float::Float64;
use crate::utils::ringbuffer::RingBuffer;
use crate::workers::processors::{ChunkSize, Processor};

verus! {

/// The number of bytes that a window must hold before its entropy means
/// anything, unless told otherwise.
pub const DEFAULT_MIN_CONSUMED_BYTES: usize = 512;

/// The last `count` of `bytes`, or all of them where there are fewer.
pub open spec fn recent(bytes: Seq<u8>, count: nat) -> Seq<u8> {
    if bytes.len() <= count {
        bytes
    } else {
        bytes.skip(bytes.len() - count)
    }
}

/// How often `value` occurs in `window`.
pub open spec fn occurrences(window: Seq<u8>, value: u8) -> nat
    decreases window.len(),
{
    if window.len() == 0 {
        0
    } else {
        occurrences(window.drop_last(), value) + (if window.last() == value {
            1nat
        } else {
            0nat
        })
    }
}

/// How often each byte value occurs in `window`: 256 counts, by byte value.
pub open spec fn histogram_of(window: Seq<u8>) -> Seq<usize> {
    Seq::new(256, |value: int| occurrences(window, value as u8) as usize)
}

/// `window` once it has made room for a byte: without its oldest byte where
/// it holds `capacity` bytes.
pub open spec fn kept_of(window: Seq<u8>, capacity: nat) -> Seq<u8> {
    if window.len() == capacity {
        window.drop_first()
    } else {
        window
    }
}

/// The sum of `counts`.
pub open spec fn total(counts: Seq<usize>) -> nat
    decreases counts.len(),
{
    if counts.len() == 0 {
        0
    } else {
        total(counts.drop_last()) + counts.last() as nat
    }
}

/// Keeps the bytes examined last, up to a fixed number of them, and counts
/// how often each byte value occurs among them.
///
/// The Shannon entropy of the window, in bits, is the sum over the byte
/// values that occur of `-p * log2(p)`, where `p` is the value's count divided
/// by the length of the window. It is a matter of floating point, and is
/// worked out of the histogram and the length of the window by the measure
/// that [`EntropyProcessor::entropy_with`] is handed.
pub struct EntropyProcessor<T> {
    /// Counts of every byte value's occurrences in the window
    histogram: Vec<usize>,
    /// The number of bytes that the window holds at most
    window_size: usize,
    /// No entropy until the window holds this many bytes
    minimum_consumed_bytes: usize,
    /// The window, newest byte first
    buffer: RingBuffer<u8>,
    phantom: PhantomData<T>,
}

/// Something that knows the entropy of the bytes it has been shown.
pub trait EntropyProducer {
    /// The entropy, in bits per byte, as things stand, if there is one. A
    /// producer that does not say leaves it open.
    open spec fn reading(&self) -> Option<Float64> {
        arbitrary()
    }

    /// The bytes that the producer has been shown so far, one window behind
    /// the other. A producer that does not say leaves it open.
    open spec fn shown(&self) -> Seq<u8> {
        arbitrary()
    }

    /// The entropy that the producer would have once it had been shown
    /// `more` behind what it has been shown so far. A producer that does not
    /// say leaves it open.
    open spec fn reading_after(&self, more: Seq<u8>) -> Option<Float64> {
        arbitrary()
    }

    /// The entropy as things stand: once the producer has been shown no more
    /// than it has been.
    fn entropy(&self) -> (r: Option<Float64>)
        ensures
            r == self.reading(),
            r == self.reading_after(Seq::<u8>::empty()),
    ;

    /// Shows the producer the raw bytes under examination.
    fn observe(&mut self, bytes: &[u8])
        ensures
            final(self).shown() == old(self).shown() + bytes@,
            forall|more: Seq<u8>| #[trigger]
                final(self).reading_after(more) == old(self).reading_after(bytes@ + more),
    ;
}

/// A boxed producer is the producer in the box.
impl<P: EntropyProducer + ?Sized> EntropyProducer for Box<P> {
    open spec fn reading(&self) -> Option<Float64> {
        (**self).reading()
    }

    open spec fn shown(&self) -> Seq<u8> {
        (**self).shown()
    }

    open spec fn reading_after(&self, more: Seq<u8>) -> Option<Float64> {
        (**self).reading_after(more)
    }

    fn entropy(&self) -> (r: Option<Float64>) {
        proof {
            assert(self.reading_after(Seq::<u8>::empty()) == (**self).reading_after(
                Seq::<u8>::empty(),
            ));
        }
        (**self).entropy()
    }

    fn observe(&mut self, bytes: &[u8]) {
        (**self).observe(bytes)
    }
}

impl<T> Processor<T> for EntropyProcessor<T> {
    open spec fn chunk(&self) -> ChunkSize {
        ChunkSize::Any
    }

    open spec fn takes(&self, bytes: Seq<u8>) -> bool {
        self.wf()
    }

    open spec fn produces(&self, bytes: Seq<u8>) -> Option<T> {
        None
    }

    fn consume(&mut self, bytes: &[u8]) -> (r: Option<T>)
        ensures
            final(self).wf(),
            final(self).capacity() == old(self).capacity(),
            final(self).minimum() == old(self).minimum(),
            final(self).window() == recent(old(self).window() + bytes@, old(self).capacity() as nat),
    {
        self.add_bytes(bytes);
        None
    }

    fn chunk_size(&self) -> (r: ChunkSize) {
        ChunkSize::Any
    }
}

impl<T> EntropyProcessor<T> {
    /// The bytes in the window, oldest first.
    pub closed spec fn window(&self) -> Seq<u8> {
        self.buffer@.reverse()
    }

    /// The histogram, as it is held.
    pub closed spec fn counts(&self) -> Vec<usize> {
        self.histogram
    }

    /// The number of bytes that the window holds at most.
    pub closed spec fn capacity(&self) -> usize {
        self.window_size
    }

    /// The number of bytes that the window must hold before its entropy
    /// means anything.
    pub closed spec fn minimum(&self) -> usize {
        self.minimum_consumed_bytes
    }

    /// The invariant: the window is no longer than it may be, and the
    /// histogram is that of the window.
    pub closed spec fn wf(&self) -> bool {
        &&& self.buffer.wf()
        &&& self.buffer.capacity() == self.window_size
        &&& self.minimum_consumed_bytes <= self.window_size
        &&& self.histogram@ == histogram_of(self.window())
    }

    /// An empty window for `window_size` bytes, with the default minimum.
    #[must_use]
    pub fn new(window_size: usize) -> (r: Self)
        requires
            DEFAULT_MIN_CONSUMED_BYTES <= window_size,
        ensures
            r.wf(),
            r.capacity() == window_size,
            r.minimum() == DEFAULT_MIN_CONSUMED_BYTES,
            r.window() == Seq::<u8>::empty(),
    {
        Self::with_minimum_consumed(window_size, DEFAULT_MIN_CONSUMED_BYTES)
    }

    /// An empty window for `window_size` bytes, which means something once
    /// it holds `minimum_consumed_bytes`.
    #[must_use]
    pub fn with_minimum_consumed(window_size: usize, minimum_consumed_bytes: usize) -> (r: Self)
        requires
            0 < window_size,
            minimum_consumed_bytes <= window_size,
        ensures
            r.wf(),
            r.capacity() == window_size,
            r.minimum() == minimum_consumed_bytes,
            r.window() == Seq::<u8>::empty(),
    {
        let mut histogram: Vec<usize> = Vec::new();
        while histogram.len() < 256
            invariant
                histogram.len() <= 256,
                forall|i: int| 0 <= i < histogram.len() ==> histogram[i] == 0,
            decreases 256 - histogram.len(),
        {
            histogram.push(0);
        }
        let r = EntropyProcessor {
            window_size,
            minimum_consumed_bytes,
            histogram,
            buffer: RingBuffer::new(window_size),
            phantom: PhantomData,
        };
        proof {
            assert(r.window() =~= Seq::<u8>::empty());
            assert(r.histogram@ =~= histogram_of(Seq::<u8>::empty()));
        }
        r
    }

    /// Adds `bytes` to the window, oldest first; the oldest bytes of the
    /// window leave once it is full.
    pub fn add_bytes(&mut self, bytes: &[u8])
        requires
            old(self).wf(),
        ensures
            final(self).wf(),
            final(self).capacity() == old(self).capacity(),
            final(self).minimum() == old(self).minimum(),
            final(self).window() == recent(old(self).window() + bytes@, old(self).capacity() as nat),
    {
        let mut i: usize = 0;
        proof {
            assert(old(self).window() + bytes@.take(0) =~= old(self).window());
        }
        while i < bytes.len()
            invariant
                i <= bytes@.len(),
                self.wf(),
                self.capacity() == old(self).capacity(),
                self.minimum() == old(self).minimum(),
                self.window() == recent(
                    old(self).window() + bytes@.take(i as int),
                    old(self).capacity() as nat,
                ),
            decreases bytes@.len() - i,
        {
            let byte: u8 = bytes[i];
            let ghost before = self.window();
            let ghost seen = old(self).window() + bytes@.take(i as int);
            let removed = self.buffer.push_front(byte);
            proof {
                let kept = kept_of(before, self.window_size as nat);
                assert(self.window() =~= kept.push(byte));
                assert(old(self).window() + bytes@.take(i + 1) =~= seen.push(byte));
                assert(kept.push(byte) =~= recent(seen.push(byte), self.window_size as nat));
                assert(removed == (if before.len() == self.window_size {
                    Some(before[0])
                } else {
                    None
                }));
                lemma_slide(before, byte, self.window_size as nat);
            }
            if let Some(old_byte) = removed {
                let count: usize = self.histogram[old_byte as usize];
                self.histogram.set(old_byte as usize, count - 1);
            }
            let count: usize = self.histogram[byte as usize];
            self.histogram.set(byte as usize, count + 1);
            proof {
                assert(self.histogram@ =~= histogram_of(self.window()));
            }
            i += 1;
        }
        proof {
            assert(bytes@.take(bytes@.len() as int) =~= bytes@);
        }
    }

    /// How often each byte value occurs in the window: 256 counts, by byte
    /// value.
    pub fn histogram(&self) -> (r: &Vec<usize>)
        requires
            self.wf(),
        ensures
            *r == self.counts(),
            r@ == histogram_of(self.window()),
    {
        &self.histogram
    }

    /// The entropy of the window, or none where the window holds fewer bytes
    /// than it must for its entropy to mean anything.
    ///
    /// The figure is what `measure` makes of the histogram and the length of
    /// the window; `measure` is not asked where there is no entropy.
    pub fn entropy_with<M: Fn(&Vec<usize>, usize) -> Float64>(&self, measure: M) -> (r: Option<
        Float64,
    >)
        requires
            self.wf(),
            call_requires(measure, (&self.counts(), self.window().len() as usize)),
        ensures
            r is None <==> self.window().len() < self.minimum(),
            r matches Some(entropy) ==> call_ensures(
                measure,
                (&self.counts(), self.window().len() as usize),
                entropy,
            ),
    {
        if self.buffer.len() < self.minimum_consumed_bytes {
            return None;
        }
        Some(measure(&self.histogram, self.buffer.len()))
    }

    /// The number of bytes in the window.
    pub fn len(&self) -> (r: usize)
        ensures
            r == self.window().len(),
    {
        self.buffer.len()
    }

    /// Whether the window holds enough bytes for its entropy to mean
    /// anything. Below that, there is no entropy.
    pub fn has_minimum(&self) -> (r: bool)
        ensures
            r == (self.window().len() >= self.minimum()),
    {
        self.buffer.len() >= self.minimum_consumed_bytes
    }
}

/// Raising one of `counts` by one raises their sum by one.
proof fn lemma_total_raised(counts: Seq<usize>, raised: Seq<usize>, at: int)
    requires
        0 <= at < counts.len(),
        raised.len() == counts.len(),
        raised[at] == counts[at] + 1,
        forall|i: int| 0 <= i < counts.len() && i != at ==> raised[i] == counts[i],
    ensures
        total(raised) == total(counts) + 1,
    decreases counts.len(),
{
    if at == counts.len() - 1 {
        assert(raised.drop_last() =~= counts.drop_last());
    } else {
        lemma_total_raised(counts.drop_last(), raised.drop_last(), at);
    }
}

/// Counts that are all zero sum to zero.
proof fn lemma_total_zero(counts: Seq<usize>)
    requires
        forall|i: int| 0 <= i < counts.len() ==> counts[i] == 0,
    ensures
        total(counts) == 0,
    decreases counts.len(),
{
    if counts.len() > 0 {
        lemma_total_zero(counts.drop_last());
    }
}

/// The counts of a histogram sum to the length of the window.
pub proof fn lemma_histogram_total(window: Seq<u8>)
    requires
        window.len() <= usize::MAX,
    ensures
        total(histogram_of(window)) == window.len(),
    decreases window.len(),
{
    if window.len() == 0 {
        lemma_total_zero(histogram_of(window));
    } else {
        let shorter = window.drop_last();
        let byte = window.last();
        lemma_histogram_total(shorter);
        assert(shorter.push(byte) =~= window);
        assert forall|value: u8|
            #[trigger] occurrences(window, value) == occurrences(shorter, value) + (if value
                == byte {
                1nat
            } else {
                0nat
            }) && occurrences(window, value) <= window.len() by {
            lemma_occurrences_push(shorter, byte, value);
            lemma_occurrences_bound(window, value);
        }
        lemma_total_raised(histogram_of(shorter), histogram_of(window), byte as int);
    }
}

/// What a byte that enters a window of at most `capacity` bytes does to its
/// histogram: the count of the byte that leaves, if one does, goes down by
/// one, and then the count of the byte that enters goes up by one.
proof fn lemma_slide(before: Seq<u8>, byte: u8, capacity: nat)
    requires
        0 < capacity <= usize::MAX,
        before.len() <= capacity,
    ensures
        ({
            let leaves = before.len() == capacity;
            let after = kept_of(before, capacity).push(byte);
            let thinned = if leaves {
                histogram_of(before).update(
                    before[0] as int,
                    (histogram_of(before)[before[0] as int] - 1) as usize,
                )
            } else {
                histogram_of(before)
            };
            &&& leaves ==> histogram_of(before)[before[0] as int] > 0
            &&& thinned[byte as int] < usize::MAX
            &&& histogram_of(after) == thinned.update(
                byte as int,
                (thinned[byte as int] + 1) as usize,
            )
        }),
{
    let leaves = before.len() == capacity;
    let kept = kept_of(before, capacity);
    let after = kept.push(byte);
    let thinned = if leaves {
        histogram_of(before).update(
            before[0] as int,
            (histogram_of(before)[before[0] as int] - 1) as usize,
        )
    } else {
        histogram_of(before)
    };
    if leaves {
        lemma_slide_value(before, byte, capacity, before[0]);
    }
    lemma_slide_value(before, byte, capacity, byte);
    assert forall|value: int| 0 <= value < 256 implies histogram_of(after)[value]
        == thinned.update(byte as int, (thinned[byte as int] + 1) as usize)[value] by {
        lemma_slide_value(before, byte, capacity, value as u8);
    }
    assert(histogram_of(after) =~= thinned.update(
        byte as int,
        (thinned[byte as int] + 1) as usize,
    ));
}

/// What a byte that enters a window of at most `capacity` bytes does to the
/// count of `value`.
proof fn lemma_slide_value(before: Seq<u8>, byte: u8, capacity: nat, value: u8)
    requires
        0 < capacity <= usize::MAX,
        before.len() <= capacity,
    ensures
        occurrences(kept_of(before, capacity).push(byte), value) + (if before.len() == capacity
            && value == before[0] {
            1nat
        } else {
            0nat
        }) == occurrences(before, value) + (if value == byte {
            1nat
        } else {
            0nat
        }),
        occurrences(before, value) <= before.len(),
        occurrences(kept_of(before, capacity).push(byte), value) <= capacity,
{
    let kept = kept_of(before, capacity);
    lemma_occurrences_push(kept, byte, value);
    if before.len() == capacity {
        lemma_occurrences_drop_first(before, value);
    }
    lemma_occurrences_bound(before, value);
    lemma_occurrences_bound(kept.push(byte), value);
}

/// A value occurs in a window no more often than the window is long.
pub proof fn lemma_occurrences_bound(window: Seq<u8>, value: u8)
    ensures
        occurrences(window, value) <= window.len(),
    decreases window.len(),
{
    if window.len() > 0 {
        lemma_occurrences_bound(window.drop_last(), value);
    }
}

/// What a byte that enters does to the counts of a window.
pub proof fn lemma_occurrences_push(window: Seq<u8>, byte: u8, value: u8)
    ensures
        occurrences(window.push(byte), value) == occurrences(window, value) + (if value == byte {
            1nat
        } else {
            0nat
        }),
{
    assert(window.push(byte).drop_last() =~= window);
}

/// What the oldest byte's leaving does to the counts of a window.
pub proof fn lemma_occurrences_drop_first(window: Seq<u8>, value: u8)
    requires
        window.len() > 0,
    ensures
        occurrences(window.drop_first(), value) + (if value == window[0] {
            1nat
        } else {
            0nat
        }) == occurrences(window, value),
    decreases window.len(),
{
    if window.len() == 1 {
        assert(window.drop_first().len() == 0);
        assert(window.drop_last().len() == 0);
    } else {
        lemma_occurrences_drop_first(window.drop_last(), value);
        assert(window.drop_first().drop_last() =~= window.drop_last().drop_first());
    }
}

} // verus!
