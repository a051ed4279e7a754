//! The scan: every window of a byte source, decoded, filtered and reported.
use vstd::prelude::*;
use std::marker::PhantomData;
use crate::common::{delivered, ByteSource, ReadError, SourceFile};
use crate::filebuffer::FileBuffer;
use crate::filters::filter::Filter;
use crate::printers::output::{DataContext, Output, OutputView};
use crate::printers::printer::{lemma_one_more_event, taken, told, Event, PrintError, Printer};
use crate::types::bit_type::BitType;
use crate::workers::native_processor::NativeProcessor;
use crate::workers::processors::{ChunkSize, Processor};

verus! {

/// Why a scan broke off.
#[derive(Debug, Clone, PartialEq, Eq)]
pub enum ScanError {
    /// The source could not be read.
    Read(ReadError),
    /// A match could not be reported.
    Print(PrintError),
}

/// The `width` bytes of `stream` from `offset` on.
pub open spec fn window(stream: Seq<u8>, offset: nat, width: nat) -> Seq<u8> {
    stream.subrange(offset as int, (offset + width) as int)
}

/// Whether `stream` holds a whole window at `offset` and the worker reads a
/// value from it.
pub open spec fn readable<T, D: Processor<T>>(
    processor: D,
    stream: Seq<u8>,
    width: nat,
    offset: nat,
) -> bool {
    offset + width <= stream.len() && processor.produces(window(stream, offset, width)) is Some
}

/// The report on the window at `offset`.
pub open spec fn report<T: BitType, D: Processor<T>>(
    processor: D,
    path: Seq<char>,
    stream: Seq<u8>,
    width: nat,
    offset: nat,
) -> OutputView<T> {
    OutputView {
        file_path: path,
        value_type: T::spec_data_type(),
        value: processor.produces(window(stream, offset, width))->0,
        data: window(stream, offset, width),
        offset,
    }
}

/// Where a scan of `stream` that starts at `from` ends: at the first offset
/// at which no value can be read, for want of bytes or otherwise.
pub open spec fn scan_end<T, D: Processor<T>>(
    processor: D,
    stream: Seq<u8>,
    width: nat,
    from: nat,
) -> nat
    decreases stream.len() - from,
{
    if from < stream.len() && readable(processor, stream, width, from) {
        scan_end(processor, stream, width, (from + 1) as nat)
    } else {
        from
    }
}

/// The reports, by offset, on the windows from `from` up to but not
/// including `upto` that hold a value that `filter` accepts.
pub open spec fn matches<T: BitType, D: Processor<T>, F: Filter<T>>(
    processor: D,
    filter: F,
    path: Seq<char>,
    stream: Seq<u8>,
    width: nat,
    from: nat,
    upto: nat,
) -> Seq<OutputView<T>>
    decreases upto,
{
    if upto <= from {
        Seq::empty()
    } else {
        let last = (upto - 1) as nat;
        let before = matches(processor, filter, path, stream, width, from, last);
        let found = report(processor, path, stream, width, last);
        if readable(processor, stream, width, last) && filter.accepts(found.value) {
            before.push(found)
        } else {
            before
        }
    }
}

/// The windows from `from` up to but not including `upto`, one behind the
/// other, as a filter is shown them.
pub open spec fn joined(stream: Seq<u8>, width: nat, from: nat, upto: nat) -> Seq<u8>
    decreases upto,
{
    if upto <= from {
        Seq::empty()
    } else {
        joined(stream, width, from, (upto - 1) as nat) + window(stream, (upto - 1) as nat, width)
    }
}

/// The reports, by offset, on the windows from `from` up to but not
/// including `upto` that hold a value that `filter` accepts once it has been
/// shown the windows from `from` up to and including that one: a scan shows
/// its filter each window before it asks for the verdict.
pub open spec fn matches_after<T: BitType, D: Processor<T>, F: Filter<T>>(
    processor: D,
    filter: F,
    path: Seq<char>,
    stream: Seq<u8>,
    width: nat,
    from: nat,
    upto: nat,
) -> Seq<OutputView<T>>
    decreases upto,
{
    if upto <= from {
        Seq::empty()
    } else {
        let last = (upto - 1) as nat;
        let before = matches_after(processor, filter, path, stream, width, from, last);
        let found = report(processor, path, stream, width, last);
        if readable(processor, stream, width, last) && filter.accepts_after(
            joined(stream, width, from, upto),
            found.value,
        ) {
            before.push(found)
        } else {
            before
        }
    }
}

/// Whether each of `events` handed the sink a report that the sink took.
pub open spec fn all_taken<T>(events: Seq<Event<T>>) -> bool {
    forall|i: int| 0 <= i < events.len() ==> (#[trigger] events[i]).took()
}

/// Whether `reports` are what they say: each the report on the window at
/// its own offset, a window between `from` and `upto` from which a value
/// can be read, and each further into the stream than the one before it.
pub open spec fn faithful<T: BitType, D: Processor<T>>(
    reports: Seq<OutputView<T>>,
    processor: D,
    path: Seq<char>,
    stream: Seq<u8>,
    width: nat,
    from: nat,
    upto: nat,
) -> bool {
    &&& forall|k: int|
        0 <= k < reports.len() ==> {
            &&& from <= (#[trigger] reports[k]).offset < upto
            &&& readable(processor, stream, width, reports[k].offset)
            &&& reports[k] == report(processor, path, stream, width, reports[k].offset)
        }
    &&& forall|j: int, k: int|
        0 <= j < k < reports.len() ==> (#[trigger] reports[j]).offset < (#[trigger] reports[k]).offset
}

/// Scans a byte source for values of type `T` that pass a filter.
pub struct Scanner<
    T,
    P,
    S = Box<dyn ByteSource>,
    F = Box<dyn Filter<T>>,
    D = Box<dyn Processor<T>>,
> {
    file_path: String,
    filebuffer: FileBuffer<S>,
    printer: P,
    filter: F,
    processor: D,
    phantom: PhantomData<T>,
}

impl<T, P, S, F, D> Scanner<T, P, S, F, D> where
    T: BitType,
    P: Printer<T>,
    S: ByteSource,
    F: Filter<T>,
    D: Processor<T>,
 {
    /// The name of the source.
    pub closed spec fn path(&self) -> Seq<char> {
        self.file_path@
    }

    /// The buffer over the source.
    pub closed spec fn buffer(&self) -> FileBuffer<S> {
        self.filebuffer
    }

    /// The sink of the reports.
    pub closed spec fn sink(&self) -> P {
        self.printer
    }

    /// The filter.
    pub closed spec fn sieve(&self) -> F {
        self.filter
    }

    /// The worker that reads the values.
    pub closed spec fn worker(&self) -> D {
        self.processor
    }

    /// The number of bytes in a window.
    pub open spec fn width(&self) -> nat {
        self.worker().chunk()->0 as nat
    }

    /// What a scan needs: a buffer in order, and a worker that wants a fixed,
    /// positive number of bytes at a time and can be handed any window of
    /// that size.
    pub open spec fn wf(&self) -> bool {
        &&& self.buffer().wf()
        &&& self.worker().chunk() is Size
        &&& self.width() > 0
        &&& forall|bytes: Seq<u8>| bytes.len() == self.width() ==> #[trigger] self.worker().takes(bytes)
    }

    /// A scanner of `file` that decodes with `processor`, keeps what passes
    /// `filter`, and reports to `printer`.
    #[must_use]
    pub fn new(file: SourceFile<S>, processor: D, filter: F, printer: P) -> (r: Self)
        ensures
            r.path() == file.path_spec(),
            r.buffer().source() == file.source(),
            r.buffer().block_size() == crate::common::DEFAULT_BUFFER_SIZE,
            r.buffer().wf(),
            r.buffer()@.stream == Seq::<u8>::empty(),
            r.buffer()@.position == 0,
            !r.buffer()@.reached_eof,
            r.sink() == printer,
            r.sieve() == filter,
            r.worker() == processor,
    {
        Scanner {
            file_path: file.path(),
            filebuffer: FileBuffer::new(file.file()),
            printer,
            filter,
            processor,
            phantom: PhantomData,
        }
    }

    /// The sink of the reports.
    pub fn printer(&self) -> (r: &P)
        ensures
            *r == self.sink(),
    {
        &self.printer
    }

    /// Scans the source to its end, then tells the sink that it is over.
    /// The scanner is used up: what `scan_file` would have left behind is
    /// `after`.
    pub fn scan(self) -> (r: Result<usize, ScanError>)
        requires
            self.wf(),
            !told(self.sink().events()),
        ensures
            exists|after: Self|
                {
                    &&& #[trigger] after.scanned_from(self)
                    &&& r matches Ok(total) ==> after.scanned_all(self, total as nat)
                    &&& r is Ok ==> told(after.sink().events())
                    &&& after.read_for(self, r)
                    &&& after.shown_for(self, r)
                    &&& after.sunk_for(self, r, true)
                    &&& after.nothing_failed(self) ==> r is Ok
                    &&& after.buffer().foreseen(self.buffer())
                    &&& after.buffer().read_before_end(self.buffer())
                },
    {
        let mut scanner = self;
        let r = scanner.scan_file();
        assert(scanner.scanned_from(self));
        r
    }

    /// Scans the source to its end, then tells the sink that it is over.
    /// What holds after `scan_buffer` holds after this, but for the sink's
    /// having been told.
    pub fn scan_file(&mut self) -> (r: Result<usize, ScanError>)
        requires
            old(self).wf(),
            !told(old(self).sink().events()),
        ensures
            final(self).scanned_from(*old(self)),
            r matches Ok(total) ==> final(self).scanned_all(*old(self), total as nat),
            r is Ok ==> told(final(self).sink().events()),
            final(self).read_for(*old(self), r),
            final(self).shown_for(*old(self), r),
            final(self).sunk_for(*old(self), r, true),
            final(self).nothing_failed(*old(self)) ==> r is Ok,
            final(self).buffer().foreseen(old(self).buffer()),
            final(self).buffer().read_before_end(old(self).buffer()),
    {
        let position = match self.scan_buffer() {
            Ok(position) => position,
            Err(e) => {
                return Err(e);
            },
        };
        let ghost events = self.printer.events();
        let ended = self.printer.end();
        proof {
            lemma_one_more_event(events, Event::Ended { answer: ended });
            let since = self.events_since(*old(self));
            let base = old(self).sink().events().len() as int;
            assert(since =~= events.skip(base).push(Event::Ended { answer: ended }));
            assert(since.drop_last() =~= events.skip(base));
        }
        if let Err(e) = ended {
            return Err(ScanError::Print(e));
        }
        Ok(position)
    }

    /// Whether nothing has failed since `before`: no read, no block that was
    /// too much for the stream, and no call of the sink.
    pub open spec fn nothing_failed(&self, before: Self) -> bool {
        &&& crate::common::unfailing(self.buffer().reads_since(before.buffer()))
        &&& !self.buffer().read_too_much(before.buffer())
        &&& forall|i: int|
            0 <= i < self.events_since(before).len() ==> (#[trigger] self.events_since(
                before,
            )[i]).answer() is Ok
    }

    /// A scan answers well where nothing has failed.
    pub proof fn lemma_success_owed(&self, before: Self, r: Result<usize, ScanError>, told: bool)
        requires
            self.read_for(before, r),
            self.sunk_for(before, r, told),
            self.nothing_failed(before),
        ensures
            r is Ok,
    {
        match r {
            Ok(_) => {},
            Err(ScanError::Read(error)) => {
                let reads = self.buffer().reads_since(before.buffer());
                if self.buffer().read_failed(before.buffer(), error) {
                    assert(reads[reads.len() - 1].outcome is Ok);
                }
            },
            Err(ScanError::Print(error)) => {
                let events = self.events_since(before);
                assert(events[events.len() - 1].answer() is Ok);
            },
        }
    }

    /// Of a source that knew, when the scan began at its first byte, the `L`
    /// bytes that it had to deliver, with a worker that reads a value from
    /// every window of its `C` bytes, `C <= L`, a steady filter that accepts
    /// every value and a sink that did not fail, the scan answers `L - C + 1`,
    /// has read all `L` bytes, and its sink has taken the reports on the
    /// windows at the offsets from 0 to `L - C`, one each, in that order.
    pub proof fn lemma_every_window_reported(
        &self,
        before: Self,
        r: Result<usize, ScanError>,
        told: bool,
        bytes: Seq<u8>,
    )
        requires
            before.wf(),
            before.buffer()@.stream.len() == 0,
            before.buffer()@.position == 0,
            !before.buffer()@.reached_eof,
            before.buffer().block_size() > 0,
            before.buffer().source().ahead() == Some(bytes),
            before.width() <= bytes.len() <= usize::MAX,
            forall|window: Seq<u8>|
                window.len() == before.width() ==> #[trigger] before.worker().produces(window)
                    is Some,
            before.sieve().steady(),
            forall|value: T| before.sieve().accepts(value),
            self.scanned_from(before),
            r matches Ok(total) ==> self.scanned_all(before, total as nat),
            self.read_for(before, r),
            self.sunk_for(before, r, told),
            self.buffer().foreseen(before.buffer()),
            forall|i: int|
                0 <= i < self.events_since(before).len() ==> (#[trigger] self.events_since(
                    before,
                )[i]).answer() is Ok,
        ensures
            r matches Ok(total) && total == bytes.len() - before.width() + 1,
            self.buffer()@.stream == bytes,
            taken(self.sink().events()) == taken(before.sink().events()) + matches(
                before.worker(),
                before.sieve(),
                self.path(),
                bytes,
                before.width(),
                0,
                (bytes.len() - before.width() + 1) as nat,
            ),
            matches(
                before.worker(),
                before.sieve(),
                self.path(),
                bytes,
                before.width(),
                0,
                (bytes.len() - before.width() + 1) as nat,
            ).len() == bytes.len() - before.width() + 1,
            forall|offset: nat|
                offset <= bytes.len() - before.width() ==> #[trigger] matches(
                    before.worker(),
                    before.sieve(),
                    self.path(),
                    bytes,
                    before.width(),
                    0,
                    (bytes.len() - before.width() + 1) as nat,
                )[offset as int] == report(
                    before.worker(),
                    self.path(),
                    bytes,
                    before.width(),
                    offset,
                ),
    {
        let width = before.width();
        let stream = self.buffer()@.stream;
        let reads = self.buffer().reads_since(before.buffer());
        let brought = delivered(reads);
        assert(Seq::<u8>::empty() + brought =~= brought);
        assert(before.buffer()@.stream =~= Seq::<u8>::empty());
        // No read failed, and no block was too much.
        if self.buffer().read_too_much(before.buffer()) {
            crate::filebuffer::lemma_one_more_read(reads.drop_last(), reads.last());
            assert(reads.drop_last().push(reads.last()) =~= reads);
            assert(Seq::<u8>::empty() + delivered(reads.drop_last()) =~= delivered(
                reads.drop_last(),
            ));
        }
        self.lemma_success_owed(before, r, told);
        let total = r->Ok_0 as nat;
        // The scan went on to the end of the source.
        lemma_scan_end_is_first(before.worker(), stream, width, 0);
        if total + width <= stream.len() {
            assert(window(stream, total, width).len() == width);
        }
        assert(bytes.take(bytes.len() as int) =~= bytes);
        assert(stream == bytes);
        lemma_accept_all_matches_every_window(
            before.worker(),
            before.sieve(),
            self.path(),
            bytes,
            width,
        );
    }

    /// The calls made of the sink since `before`.
    pub open spec fn events_since(&self, before: Self) -> Seq<Event<T>> {
        self.sink().events().skip(before.sink().events().len() as int)
    }

    /// How a scan that answers `r` stands to the calls it made of its sink.
    ///
    /// The sink took every report it was handed, but for the last where the
    /// scan broke off because the sink failed: that was the report on the
    /// window at which the scan broke off, whose value the filter accepted,
    /// and the scan answers with what the sink answered. Where the sink is `told` of the end, that is the
    /// last call, made once every report was taken, and where the sink
    /// fails over it, the scan answers with what the sink answered.
    pub open spec fn sunk_for(&self, before: Self, r: Result<usize, ScanError>, told: bool) -> bool {
        let events = self.events_since(before);
        let failed_over = report(
            before.worker(),
            self.path(),
            self.buffer()@.stream,
            self.width(),
            self.buffer()@.position,
        );
        &&& before.sink().events().is_prefix_of(self.sink().events())
        &&& match r {
            Err(ScanError::Print(error)) => {
                &&& events.len() > 0
                &&& all_taken(events.drop_last())
                &&& {
                    ||| {
                        &&& events.last() == (Event::Fed {
                            report: failed_over,
                            answer: Err::<(), PrintError>(error),
                        })
                        &&& readable(
                            before.worker(),
                            self.buffer()@.stream,
                            self.width(),
                            self.buffer()@.position,
                        )
                        &&& before.sieve().accepts_after(
                            joined(
                                self.buffer()@.stream,
                                self.width(),
                                before.buffer()@.position,
                                self.buffer()@.position + 1,
                            ),
                            failed_over.value,
                        )
                    }
                    ||| told && events.last() == (Event::<T>::Ended {
                        answer: Err::<(), PrintError>(error),
                    })
                }
            },
            Err(ScanError::Read(_)) => all_taken(events),
            Ok(_) => if told {
                &&& events.len() > 0
                &&& all_taken(events.drop_last())
                &&& events.last().closed()
            } else {
                all_taken(events)
            },
        }
    }

    /// How a scan that answers `r` stands to the reads made of the source
    /// since `before`: none of them went wrong, unless the scan broke off
    /// because the last one did.
    pub open spec fn read_for(&self, before: Self, r: Result<usize, ScanError>) -> bool {
        match r {
            Err(ScanError::Read(error)) => self.buffer().read_for(
                before.buffer(),
                Err::<(), ReadError>(error),
            ),
            _ => self.buffer().read_well(before.buffer()),
        }
    }

    /// How a scan that answers `r` stands to what its filter has been shown
    /// since `before`: every window at which the scan has read a value, and
    /// nothing else, in the order of the offsets. A scan that broke off
    /// because a match could not be reported may have shown the filter the
    /// window at which it broke off.
    pub open spec fn shown_for(&self, before: Self, r: Result<usize, ScanError>) -> bool {
        let stream = self.buffer()@.stream;
        let from = before.buffer()@.position;
        let upto = self.buffer()@.position;
        let shown = self.sieve().shown();
        let shown_before = before.sieve().shown();
        &&& self.sieve().steady() == before.sieve().steady()
        &&& {
            ||| forall|more: Seq<u8>, value: T| #[trigger]
                self.sieve().accepts_after(more, value) == before.sieve().accepts_after(
                    joined(stream, self.width(), from, upto) + more,
                    value,
                )
            ||| {
                &&& r matches Err(ScanError::Print(_))
                &&& readable(before.worker(), stream, self.width(), upto)
                &&& forall|more: Seq<u8>, value: T| #[trigger]
                    self.sieve().accepts_after(more, value) == before.sieve().accepts_after(
                        joined(stream, self.width(), from, upto + 1) + more,
                        value,
                    )
            }
        }
        &&& !before.sieve().steady() ==> {
            ||| shown == shown_before + joined(stream, self.width(), from, upto)
            ||| {
                &&& r matches Err(ScanError::Print(_))
                &&& readable(before.worker(), stream, self.width(), upto)
                &&& shown == shown_before + joined(stream, self.width(), from, upto + 1)
            }
        }
    }

    /// What a scan, finished or broken off, has done since `before`.
    ///
    /// The scan has read on and moved on; at every offset that it has
    /// passed, a value could be read. What the sink has taken since are
    /// faithful reports, in the order of their offsets: the reports on
    /// exactly the windows passed whose value the filter accepted once it
    /// had been shown the windows up to that one. Where the filter is
    /// steady, that is to say the windows whose value the filter accepts.
    pub open spec fn scanned_from(&self, before: Self) -> bool {
        let stream = self.buffer()@.stream;
        let from = before.buffer()@.position;
        let upto = self.buffer()@.position;
        let fed = taken(self.sink().events());
        let fed_before = taken(before.sink().events());
        &&& self.wf()
        &&& self.path() == before.path()
        &&& self.width() == before.width()
        &&& before.buffer()@.stream.is_prefix_of(stream)
        &&& from <= upto
        &&& forall|offset: nat|
            from <= offset < upto ==> #[trigger] readable(
                before.worker(),
                stream,
                self.width(),
                offset,
            )
        &&& fed_before.is_prefix_of(fed)
        &&& faithful(
            fed.skip(fed_before.len() as int),
            before.worker(),
            self.path(),
            stream,
            self.width(),
            from,
            upto,
        )
        &&& fed == fed_before + matches_after(
            before.worker(),
            before.sieve(),
            self.path(),
            stream,
            self.width(),
            from,
            upto,
        )
        &&& before.sieve().steady() ==> fed == fed_before + matches(
            before.worker(),
            before.sieve(),
            self.path(),
            stream,
            self.width(),
            from,
            upto,
        )
    }

    /// What a scan that has finished with `total` has done since `before`,
    /// over and above `scanned_from`: it went as far as values could be
    /// read, and `total` is the offset at which it ended. Where it ended for
    /// want of bytes, the source had ended.
    pub open spec fn scanned_all(&self, before: Self, total: nat) -> bool {
        let stream = self.buffer()@.stream;
        &&& total == self.buffer()@.position
        &&& total == scan_end(
            before.worker(),
            stream,
            self.width(),
            before.buffer()@.position,
        )
        &&& total + self.width() > stream.len() ==> self.buffer()@.reached_eof
    }

    /// Scans from the current offset on: at each offset, the window is
    /// decoded, shown to the filter, and reported where the filter accepts
    /// its value; then the scan moves on by one byte. It ends, with the
    /// offset reached, at the first offset at which no value can be read.
    pub fn scan_buffer(&mut self) -> (r: Result<usize, ScanError>)
        requires
            old(self).wf(),
            !told(old(self).sink().events()),
        ensures
            final(self).scanned_from(*old(self)),
            !told(final(self).sink().events()),
            r matches Ok(total) ==> final(self).scanned_all(*old(self), total as nat),
            final(self).read_for(*old(self), r),
            final(self).shown_for(*old(self), r),
            final(self).sunk_for(*old(self), r, false),
            final(self).nothing_failed(*old(self)) ==> r is Ok,
            final(self).buffer().foreseen(old(self).buffer()),
            final(self).buffer().read_before_end(old(self).buffer()),
    {
        let chunk_size: usize = self.processor.chunk_size().unwrap();
        let ghost from = self.filebuffer@.position;
        let ghost width = chunk_size as nat;
        let ghost worker = self.processor;
        let ghost sieve = self.filter;
        let ghost path = self.file_path@;
        let ghost fed_before = taken(self.printer.events());
        proof {
            assert(taken(self.printer.events()).skip(fed_before.len() as int) =~= Seq::<
                OutputView<T>,
            >::empty());
            assert(fed_before + Seq::<OutputView<T>>::empty() =~= fed_before);
            self.filebuffer.lemma_nothing_read();
            assert forall|more: Seq<u8>, value: T| #[trigger]
                self.filter.accepts_after(more, value) == sieve.accepts_after(
                    joined(self.filebuffer@.stream, width, from, from) + more,
                    value,
                ) by {
                assert(Seq::<u8>::empty() + more =~= more);
            }
        }
        loop
            invariant
                self.wf(),
                self.file_path@ == path,
                path == old(self).path(),
                self.width() == width,
                width == chunk_size,
                self.processor.chunk() == worker.chunk(),
                forall|bytes: Seq<u8>| #[trigger] self.processor.takes(bytes) == worker.takes(bytes),
                forall|bytes: Seq<u8>| #[trigger]
                    self.processor.produces(bytes) == worker.produces(bytes),
                worker == old(self).worker(),
                sieve == old(self).sieve(),
                fed_before == taken(old(self).sink().events()),
                from == old(self).buffer()@.position,
                old(self).buffer()@.stream.is_prefix_of(self.filebuffer@.stream),
                self.filebuffer.read_well(old(self).buffer()),
                self.filebuffer.foreseen(old(self).buffer()),
                self.filebuffer.read_before_end(old(self).buffer()),
                self.filebuffer.block_size() == old(self).buffer().block_size(),
                from <= self.filebuffer@.position,
                !told(self.printer.events()),
                old(self).sink().events().is_prefix_of(self.printer.events()),
                all_taken(self.printer.events().skip(old(self).sink().events().len() as int)),
                forall|offset: nat|
                    from <= offset < self.filebuffer@.position ==> #[trigger] readable(
                        worker,
                        self.filebuffer@.stream,
                        width,
                        offset,
                    ),
                fed_before.is_prefix_of(taken(self.printer.events())),
                faithful(
                    taken(self.printer.events()).skip(fed_before.len() as int),
                    worker,
                    path,
                    self.filebuffer@.stream,
                    width,
                    from,
                    self.filebuffer@.position,
                ),
                self.filter.steady() == sieve.steady(),
                !sieve.steady() ==> self.filter.shown() == sieve.shown() + joined(
                    self.filebuffer@.stream,
                    width,
                    from,
                    self.filebuffer@.position,
                ),
                sieve.steady() ==> forall|value: T|
                    self.filter.accepts(value) == sieve.accepts(value),
                forall|more: Seq<u8>, value: T| #[trigger]
                    self.filter.accepts_after(more, value) == sieve.accepts_after(
                        joined(self.filebuffer@.stream, width, from, self.filebuffer@.position)
                            + more,
                        value,
                    ),
                taken(self.printer.events()) == fed_before + matches_after(
                    worker,
                    sieve,
                    path,
                    self.filebuffer@.stream,
                    width,
                    from,
                    self.filebuffer@.position,
                ),
                sieve.steady() ==> taken(self.printer.events()) == fed_before + matches(
                    worker,
                    sieve,
                    path,
                    self.filebuffer@.stream,
                    width,
                    from,
                    self.filebuffer@.position,
                ),
            ensures
                self.scanned_from(*old(self)),
                forall|more: Seq<u8>, value: T| #[trigger]
                    self.filter.accepts_after(more, value) == sieve.accepts_after(
                        joined(self.filebuffer@.stream, width, from, self.filebuffer@.position)
                            + more,
                        value,
                    ),
                !told(self.printer.events()),
                old(self).sink().events().is_prefix_of(self.printer.events()),
                all_taken(self.printer.events().skip(old(self).sink().events().len() as int)),
                self.filebuffer.foreseen(old(self).buffer()),
                self.filebuffer.read_before_end(old(self).buffer()),
                self.filebuffer.read_well(old(self).buffer()),
                self.filter.steady() == sieve.steady(),
                !sieve.steady() ==> self.filter.shown() == sieve.shown() + joined(
                    self.filebuffer@.stream,
                    width,
                    from,
                    self.filebuffer@.position,
                ),
                self.scanned_all(*old(self), self.filebuffer@.position),
            decreases usize::MAX - self.filebuffer@.position,
        {
            let ghost before = self.filebuffer@;
            let ghost buffer_before = self.filebuffer;
            let ghost fed_so_far = taken(self.printer.events());
            let cur_pos: usize = self.filebuffer.position();
            let data = match self.filebuffer.peek(chunk_size) {
                Ok(data) => data,
                Err(e) => {
                    proof {
                        self.filebuffer.lemma_read_on(
                            buffer_before,
                            old(self).buffer(),
                            Err::<(), ReadError>(e),
                        );
                        self.filebuffer.lemma_foreseen_twice(buffer_before, old(self).buffer());
                        self.filebuffer.lemma_needed_before_end(buffer_before, width);
                        self.filebuffer.lemma_read_before_end_twice(buffer_before, old(self).buffer());
                        lemma_grown(
                            worker,
                            sieve,
                            path,
                            before.stream,
                            self.filebuffer@.stream,
                            width,
                            from,
                            before.position,
                            taken(self.printer.events()).skip(fed_before.len() as int),
                        );
                    }
                    return Err(ScanError::Read(e));
                },
            };
            let ghost bytes = data@;
            if data.len() < chunk_size {
                proof {
                    let now = self.filebuffer@;
                    self.filebuffer.lemma_read_on(
                        buffer_before,
                        old(self).buffer(),
                        Ok::<(), ReadError>(()),
                    );
                    self.filebuffer.lemma_foreseen_twice(buffer_before, old(self).buffer());
                    self.filebuffer.lemma_needed_before_end(buffer_before, width);
                    self.filebuffer.lemma_read_before_end_twice(buffer_before, old(self).buffer());
                    lemma_grown(
                        worker,
                        sieve,
                        path,
                        before.stream,
                        now.stream,
                        width,
                        from,
                        before.position,
                        taken(self.printer.events()).skip(fed_before.len() as int),
                    );
                    lemma_scan_end(worker, now.stream, width, from, now.position);
                }
                break ;
            }
            let result = self.processor.consume(data);
            let value = match result {
                Some(value) => value,
                None => {
                    proof {
                        let now = self.filebuffer@;
                        self.filebuffer.lemma_read_on(
                        buffer_before,
                        old(self).buffer(),
                        Ok::<(), ReadError>(()),
                    );
                        self.filebuffer.lemma_foreseen_twice(buffer_before, old(self).buffer());
                        self.filebuffer.lemma_needed_before_end(buffer_before, width);
                        self.filebuffer.lemma_read_before_end_twice(buffer_before, old(self).buffer());
                        self.filebuffer.lemma_view();
                        assert(bytes =~= window(now.stream, now.position, width));
                        lemma_grown(
                            worker,
                            sieve,
                            path,
                            before.stream,
                            now.stream,
                            width,
                            from,
                            before.position,
                            taken(self.printer.events()).skip(fed_before.len() as int),
                        );
                        lemma_scan_end(worker, now.stream, width, from, now.position);
                    }
                    break ;
                },
            };
            let ghost shown_so_far = self.filter.shown();
            let ghost sieve_so_far = self.filter;
            self.filter.observe(data);
            let accepted = self.filter.includes(value);
            if accepted {
                let output = Output::new(
                    self.file_path.as_str(),
                    value,
                    T::data_type(),
                    DataContext::new(vstd::slice::slice_to_vec(data), cur_pos),
                );
                let ghost said = output@;
                let ghost events = self.printer.events();
                let answer = self.printer.feed(output);
                proof {
                    lemma_one_more_event(events, Event::Fed { report: said, answer });
                    let base = old(self).sink().events().len() as int;
                    assert(self.printer.events().skip(base) =~= events.skip(base).push(
                        Event::Fed { report: said, answer },
                    ));
                    assert(self.printer.events().skip(base).drop_last() =~= events.skip(base));
                }
                if let Err(e) = answer {
                    proof {
                        let now = self.filebuffer@;
                        self.filebuffer.lemma_read_on(
                            buffer_before,
                            old(self).buffer(),
                            Ok::<(), ReadError>(()),
                        );
                        self.filebuffer.lemma_foreseen_twice(buffer_before, old(self).buffer());
                        self.filebuffer.lemma_needed_before_end(buffer_before, width);
                        self.filebuffer.lemma_read_before_end_twice(buffer_before, old(self).buffer());
                        self.filebuffer.lemma_view();
                        assert(bytes =~= window(now.stream, now.position, width));
                        assert(readable(worker, now.stream, width, now.position));
                        lemma_grown(
                            worker,
                            sieve,
                            path,
                            before.stream,
                            now.stream,
                            width,
                            from,
                            before.position,
                            taken(self.printer.events()).skip(fed_before.len() as int),
                        );
                        {
                            let so_far = joined(now.stream, width, from, now.position);
                            let shown = joined(now.stream, width, from, now.position + 1);
                            assert(shown == so_far + bytes);
                            assert(so_far + (bytes + Seq::<u8>::empty()) =~= shown);
                            assert(sieve_so_far.accepts_after(bytes + Seq::<u8>::empty(), value)
                                == sieve.accepts_after(
                                so_far + (bytes + Seq::<u8>::empty()),
                                value,
                            ));
                            assert(sieve.accepts_after(shown, value));
                            assert forall|more: Seq<u8>, value: T| #[trigger]
                                self.filter.accepts_after(more, value) == sieve.accepts_after(
                                    shown + more,
                                    value,
                                ) by {
                                assert(so_far + (bytes + more) =~= shown + more);
                                assert(sieve_so_far.accepts_after(bytes + more, value)
                                    == sieve.accepts_after(so_far + (bytes + more), value));
                            }
                        }
                        if !sieve.steady() {
                            let so_far = joined(now.stream, width, from, now.position);
                            assert(shown_so_far == sieve.shown() + so_far);
                            assert(self.filter.shown() == shown_so_far + bytes);
                            assert(self.filter.shown() =~= sieve.shown() + (so_far + bytes));
                        }
                    }
                    return Err(ScanError::Print(e));
                }
            }
            let ghost filled = self.filebuffer@;
            let ghost buffer_filled = self.filebuffer;
            // move the caret to the next byte
            if let Err(e) = self.filebuffer.pop_drop(1) {
                return Err(ScanError::Read(e));
            }
            proof {
                let now = self.filebuffer@;
                let found = report(worker, path, now.stream, width, before.position);
                buffer_filled.lemma_read_on(
                    buffer_before,
                    old(self).buffer(),
                    Ok::<(), ReadError>(()),
                );
                buffer_filled.lemma_foreseen_twice(buffer_before, old(self).buffer());
                buffer_filled.lemma_needed_before_end(buffer_before, width);
                buffer_filled.lemma_read_before_end_twice(buffer_before, old(self).buffer());
                self.filebuffer.lemma_read_on(
                    buffer_filled,
                    old(self).buffer(),
                    Ok::<(), ReadError>(()),
                );
                self.filebuffer.lemma_foreseen_twice(buffer_filled, old(self).buffer());
                self.filebuffer.lemma_needed_before_end(buffer_filled, 1);
                self.filebuffer.lemma_read_before_end_twice(buffer_filled, old(self).buffer());
                self.filebuffer.lemma_view();
                assert(filled.buffered().len() >= width);
                assert(bytes =~= window(filled.stream, before.position, width));
                assert(now.stream == filled.stream);
                assert(now.position == before.position + 1);
                assert(readable(worker, now.stream, width, before.position));
                lemma_grown(
                    worker,
                    sieve,
                    path,
                    before.stream,
                    now.stream,
                    width,
                    from,
                    before.position,
                    fed_so_far.skip(fed_before.len() as int),
                );
                if taken(self.printer.events()) == fed_so_far {
                } else {
                    assert(taken(self.printer.events()) == fed_so_far.push(found));
                    assert(taken(self.printer.events()).skip(fed_before.len() as int) =~= fed_so_far.skip(
                        fed_before.len() as int,
                    ).push(found));
                }
                if sieve.steady() {
                    assert(taken(self.printer.events()) =~= fed_before + matches(
                        worker,
                        sieve,
                        path,
                        now.stream,
                        width,
                        from,
                        now.position,
                    ));
                }
                let so_far = joined(now.stream, width, from, before.position);
                let shown = joined(now.stream, width, from, now.position);
                assert(shown == so_far + bytes);
                assert forall|more: Seq<u8>, value: T| #[trigger]
                    self.filter.accepts_after(more, value) == sieve.accepts_after(
                        shown + more,
                        value,
                    ) by {
                    assert(so_far + (bytes + more) =~= shown + more);
                    assert(sieve_so_far.accepts_after(bytes + more, value) == sieve.accepts_after(
                        so_far + (bytes + more),
                        value,
                    ));
                }
                assert(shown + Seq::<u8>::empty() =~= shown);
                assert(accepted == sieve.accepts_after(shown, found.value));
                assert(taken(self.printer.events()) =~= fed_before + matches_after(
                    worker,
                    sieve,
                    path,
                    now.stream,
                    width,
                    from,
                    now.position,
                ));
            }
        }
        Ok(self.filebuffer.position())
    }
}

/// Of a stream of `L` bytes, read in windows of `C` bytes with `C <= L` by a
/// worker that reads a value from every whole window, a filter that accepts
/// every value lets `L - C + 1` reports through: for each offset from 0 to
/// `L - C` the report on the window there, in that order. The scan ends at
/// offset `L - C + 1`.
pub proof fn lemma_accept_all_matches_every_window<T: BitType, D: Processor<T>, F: Filter<T>>(
    processor: D,
    filter: F,
    path: Seq<char>,
    stream: Seq<u8>,
    width: nat,
)
    requires
        0 < width <= stream.len(),
        forall|bytes: Seq<u8>| bytes.len() == width ==> #[trigger] processor.produces(bytes) is Some,
        forall|value: T| filter.accepts(value),
    ensures
        scan_end(processor, stream, width, 0) == stream.len() - width + 1,
        matches(
            processor,
            filter,
            path,
            stream,
            width,
            0,
            (stream.len() - width + 1) as nat,
        ).len() == stream.len() - width + 1,
        forall|offset: nat|
            offset <= stream.len() - width ==> #[trigger] matches(
                processor,
                filter,
                path,
                stream,
                width,
                0,
                (stream.len() - width + 1) as nat,
            )[offset as int] == report(processor, path, stream, width, offset),
{
    let count = (stream.len() - width + 1) as nat;
    assert forall|offset: nat| offset < count implies #[trigger] readable(
        processor,
        stream,
        width,
        offset,
    ) by {
        assert(window(stream, offset, width).len() == width);
    }
    assert(!readable(processor, stream, width, count));
    lemma_scan_end(processor, stream, width, 0, count);
    lemma_matches_all(processor, filter, path, stream, width, count);
}

/// Of a stream of `L` bytes, scanned for a numeric type of `C` bytes with
/// `C <= L` in either byte order, a filter that accepts every value lets
/// `L - C + 1` reports through: for each offset from 0 to `L - C` the report
/// on the window there, in that order. The scan ends at offset `L - C + 1`.
pub proof fn lemma_accept_all_matches_every_number<T: BitType, F: Filter<T>>(
    processor: NativeProcessor<T>,
    filter: F,
    path: Seq<char>,
    stream: Seq<u8>,
)
    requires
        T::spec_width() <= stream.len(),
        forall|value: T| filter.accepts(value),
    ensures
        scan_end(processor, stream, T::spec_width(), 0) == stream.len() - T::spec_width() + 1,
        matches(
            processor,
            filter,
            path,
            stream,
            T::spec_width(),
            0,
            (stream.len() - T::spec_width() + 1) as nat,
        ).len() == stream.len() - T::spec_width() + 1,
        forall|offset: nat|
            offset <= stream.len() - T::spec_width() ==> #[trigger] matches(
                processor,
                filter,
                path,
                stream,
                T::spec_width(),
                0,
                (stream.len() - T::spec_width() + 1) as nat,
            )[offset as int] == report(processor, path, stream, T::spec_width(), offset),
{
    T::lemma_widths();
    lemma_accept_all_matches_every_window(processor, filter, path, stream, T::spec_width());
}

/// Where a value can be read at every offset below `upto` and the filter
/// accepts every value, the matches from 0 up to `upto` are the reports on
/// every offset below `upto`.
proof fn lemma_matches_all<T: BitType, D: Processor<T>, F: Filter<T>>(
    processor: D,
    filter: F,
    path: Seq<char>,
    stream: Seq<u8>,
    width: nat,
    upto: nat,
)
    requires
        forall|offset: nat| offset < upto ==> #[trigger] readable(processor, stream, width, offset),
        forall|value: T| filter.accepts(value),
    ensures
        matches(processor, filter, path, stream, width, 0, upto).len() == upto,
        forall|offset: nat|
            offset < upto ==> #[trigger] matches(processor, filter, path, stream, width, 0, upto)[offset as int]
                == report(processor, path, stream, width, offset),
    decreases upto,
{
    if upto > 0 {
        let last = (upto - 1) as nat;
        lemma_matches_all(processor, filter, path, stream, width, last);
        assert(readable(processor, stream, width, last));
        let before = matches(processor, filter, path, stream, width, 0, last);
        let all = matches(processor, filter, path, stream, width, 0, upto);
        assert(all == before.push(report(processor, path, stream, width, last)));
        assert forall|offset: nat| offset < upto implies #[trigger] all[offset as int] == report(
            processor,
            path,
            stream,
            width,
            offset,
        ) by {
            if offset < last {
                assert(before[offset as int] == report(processor, path, stream, width, offset));
            }
        }
    }
}

/// More bytes behind a stream change nothing about the windows that it
/// held whole.
pub proof fn lemma_grown<T: BitType, D: Processor<T>, F: Filter<T>>(
    processor: D,
    filter: F,
    path: Seq<char>,
    stream: Seq<u8>,
    longer: Seq<u8>,
    width: nat,
    from: nat,
    upto: nat,
    reports: Seq<OutputView<T>>,
)
    requires
        stream.is_prefix_of(longer),
        forall|offset: nat|
            from <= offset < upto ==> #[trigger] readable(processor, stream, width, offset),
    ensures
        forall|offset: nat|
            from <= offset < upto ==> #[trigger] readable(processor, longer, width, offset),
        matches(processor, filter, path, longer, width, from, upto) == matches(
            processor,
            filter,
            path,
            stream,
            width,
            from,
            upto,
        ),
        faithful(reports, processor, path, stream, width, from, upto) ==> faithful(
            reports,
            processor,
            path,
            longer,
            width,
            from,
            upto,
        ),
        joined(longer, width, from, upto) == joined(stream, width, from, upto),
        matches_after(processor, filter, path, longer, width, from, upto) == matches_after(
            processor,
            filter,
            path,
            stream,
            width,
            from,
            upto,
        ),
    decreases upto,
{
    assert forall|offset: nat| from <= offset < upto implies window(longer, offset, width)
        == window(stream, offset, width) by {
        assert(readable(processor, stream, width, offset));
        assert(window(longer, offset, width) =~= window(stream, offset, width));
    }
    assert forall|offset: nat| from <= offset < upto implies #[trigger] readable(
        processor,
        longer,
        width,
        offset,
    ) by {
        assert(readable(processor, stream, width, offset));
    }
    if upto > from {
        lemma_grown(
            processor,
            filter,
            path,
            stream,
            longer,
            width,
            from,
            (upto - 1) as nat,
            Seq::<OutputView<T>>::empty(),
        );
        assert(readable(processor, stream, width, (upto - 1) as nat));
    }
    if faithful(reports, processor, path, stream, width, from, upto) {
        assert forall|k: int| 0 <= k < reports.len() implies {
            &&& from <= (#[trigger] reports[k]).offset < upto
            &&& readable(processor, longer, width, reports[k].offset)
            &&& reports[k] == report(processor, path, longer, width, reports[k].offset)
        } by {
            assert(readable(processor, stream, width, reports[k].offset));
        }
    }
}

/// A sink that took every report it was handed in the course of `events` has
/// taken as many reports more as there are events.
pub proof fn lemma_all_taken<T>(before: Seq<Event<T>>, events: Seq<Event<T>>)
    requires
        all_taken(events),
    ensures
        taken(before + events).len() == taken(before).len() + events.len(),
    decreases events.len(),
{
    if events.len() == 0 {
        assert(before + events =~= before);
    } else {
        assert(all_taken(events.drop_last())) by {
            assert forall|i: int| 0 <= i < events.drop_last().len() implies (
            #[trigger] events.drop_last()[i]).took() by {
                assert(events[i].took());
            }
        }
        lemma_all_taken(before, events.drop_last());
        assert(before + events =~= (before + events.drop_last()).push(events.last()));
        assert(events.last().took());
        lemma_one_more_event(before + events.drop_last(), events.last());
    }
}

/// A filter that accepts no value, whatever it is shown, lets no report
/// through.
pub proof fn lemma_reject_all_matches_nothing<T: BitType, D: Processor<T>, F: Filter<T>>(
    processor: D,
    filter: F,
    path: Seq<char>,
    stream: Seq<u8>,
    width: nat,
    from: nat,
    upto: nat,
)
    requires
        forall|more: Seq<u8>, value: T| !#[trigger] filter.accepts_after(more, value),
    ensures
        matches_after(processor, filter, path, stream, width, from, upto) == Seq::<
            OutputView<T>,
        >::empty(),
    decreases upto,
{
    if upto > from {
        lemma_reject_all_matches_nothing(
            processor,
            filter,
            path,
            stream,
            width,
            from,
            (upto - 1) as nat,
        );
    }
}

/// Where a scan ends, no value can be read; at every offset before that, one
/// can.
pub proof fn lemma_scan_end_is_first<T, D: Processor<T>>(
    processor: D,
    stream: Seq<u8>,
    width: nat,
    from: nat,
)
    requires
        width > 0,
    ensures
        from <= scan_end(processor, stream, width, from),
        !readable(processor, stream, width, scan_end(processor, stream, width, from)),
        forall|offset: nat|
            from <= offset < scan_end(processor, stream, width, from) ==> #[trigger] readable(
                processor,
                stream,
                width,
                offset,
            ),
    decreases stream.len() - from,
{
    if from < stream.len() && readable(processor, stream, width, from) {
        lemma_scan_end_is_first(processor, stream, width, (from + 1) as nat);
    }
}

/// A scan that could read a value at every offset from `from` up to `upto`,
/// and none at `upto`, ends at `upto`.
pub proof fn lemma_scan_end<T, D: Processor<T>>(
    processor: D,
    stream: Seq<u8>,
    width: nat,
    from: nat,
    upto: nat,
)
    requires
        width > 0,
        from <= upto,
        forall|offset: nat|
            from <= offset < upto ==> #[trigger] readable(processor, stream, width, offset),
        !readable(processor, stream, width, upto),
    ensures
        scan_end(processor, stream, width, from) == upto,
    decreases upto - from,
{
    if from < upto {
        assert(readable(processor, stream, width, from));
        lemma_scan_end(processor, stream, width, (from + 1) as nat, upto);
    }
}

} // verus!
