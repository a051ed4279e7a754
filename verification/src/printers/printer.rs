//! The sink of a scan's reports.
use vstd::prelude::*;
use crate::printers::output::{Output, OutputView};

verus! {

/// Why a report could not be delivered.
#[derive(Debug, Clone, PartialEq, Eq)]
pub struct PrintError {
    /// The sink's own account of the failure.
    pub message: String,
}

/// A sink for the matches of a scan.
///
/// Nothing is promised of how a sink answers. The one thing promised is the
/// record: every call, with what was handed over and what the sink answered,
/// is added to `events`.
///
/// What a sink has come to hold is read off the record: [`taken`] gives the
/// reports that it took, in the order in which it took them, and [`told`]
/// says whether it has been told that nothing more will come.
pub trait Printer<T> {
    /// The calls made of the sink so far, in order, those that failed
    /// among them. A sink that does not say leaves it open.
    open spec fn events(&self) -> Seq<Event<T>> {
        arbitrary()
    }

    /// Hands the sink a report, and answers as the sink does. A sink that
    /// fails has not taken the report.
    ///
    /// A sink that has been told that nothing more will come must not be
    /// handed anything.
    fn feed(&mut self, output: Output<T>) -> (r: Result<(), PrintError>)
        requires
            !told(old(self).events()),
        ensures
            final(self).events() == old(self).events().push(
                Event::Fed { report: output@, answer: r },
            ),
    ;

    /// Tells the sink that nothing more will come, so that it can write what
    /// it has held back, and answers as the sink does.
    fn end(&mut self) -> (r: Result<(), PrintError>)
        ensures
            final(self).events() == old(self).events().push(Event::Ended { answer: r }),
    ;
}

/// A boxed sink is the sink in the box: each call is a call of that sink,
/// and is answered as that sink answers it.
impl<T, P: Printer<T> + ?Sized> Printer<T> for Box<P> {
    open spec fn events(&self) -> Seq<Event<T>> {
        (**self).events()
    }

    fn feed(&mut self, output: Output<T>) -> (r: Result<(), PrintError>) {
        (**self).feed(output)
    }

    fn end(&mut self) -> (r: Result<(), PrintError>) {
        (**self).end()
    }
}

/// One call of a sink, with what the sink answered.
pub enum Event<T> {
    /// The sink was handed a report.
    Fed { report: OutputView<T>, answer: Result<(), PrintError> },
    /// The sink was told that nothing more will come.
    Ended { answer: Result<(), PrintError> },
}

impl<T> Event<T> {
    /// What the sink answered.
    pub open spec fn answer(self) -> Result<(), PrintError> {
        match self {
            Event::Fed { answer, .. } => answer,
            Event::Ended { answer } => answer,
        }
    }

    /// Whether the call handed the sink a report that the sink took.
    pub open spec fn took(self) -> bool {
        self matches Event::Fed { answer, .. } && answer is Ok
    }

    /// Whether the call told the sink that nothing more will come, and the
    /// sink made no objection.
    pub open spec fn closed(self) -> bool {
        self matches Event::Ended { answer } && answer is Ok
    }
}

/// The reports that a sink has taken in the course of `events`, in the order
/// in which it took them. A report over which the sink failed is not among
/// them.
pub open spec fn taken<T>(events: Seq<Event<T>>) -> Seq<OutputView<T>>
    decreases events.len(),
{
    if events.len() == 0 {
        Seq::empty()
    } else if events.last().took() {
        taken(events.drop_last()).push(events.last()->report)
    } else {
        taken(events.drop_last())
    }
}

/// Whether a sink has, in the course of `events`, been told that nothing
/// more will come, and made no objection.
pub open spec fn told<T>(events: Seq<Event<T>>) -> bool {
    exists|i: int| 0 <= i < events.len() && (#[trigger] events[i]).closed()
}

/// What one more call adds: the report, where the sink took one, and the
/// end, where the sink was told of it and made no objection.
pub proof fn lemma_one_more_event<T>(events: Seq<Event<T>>, last: Event<T>)
    ensures
        taken(events.push(last)) == (if last.took() {
            taken(events).push(last->report)
        } else {
            taken(events)
        }),
        told(events.push(last)) == (told(events) || last.closed()),
{
    let more = events.push(last);
    assert(more.drop_last() =~= events);
    if told(events) {
        let i = choose|i: int| 0 <= i < events.len() && (#[trigger] events[i]).closed();
        assert(more[i].closed());
    }
    if last.closed() {
        assert(more[events.len() as int].closed());
    }
    if told(more) {
        let i = choose|i: int| 0 <= i < more.len() && (#[trigger] more[i]).closed();
        if i < events.len() {
            assert(events[i].closed());
        }
    }
}

/// A sink that keeps every report it is handed.
pub struct Collector<T> {
    outputs: Vec<Output<T>>,
    finished: bool,
    /// How often the sink was told of the end after the first time.
    again: Ghost<nat>,
}

/// The events of a sink that took each of `reports` and was then told of
/// the end `ends` times, and never failed.
pub open spec fn plain_events<T>(reports: Seq<OutputView<T>>, ends: nat) -> Seq<Event<T>> {
    Seq::new(reports.len(), |i: int| Event::Fed { report: reports[i], answer: Ok(()) })
        + Seq::new(ends, |i: int| Event::Ended { answer: Ok(()) })
}

/// A sink that never failed has taken every report it was handed, and has
/// been told of the end if it was told at all.
pub proof fn lemma_plain_events<T>(reports: Seq<OutputView<T>>, ends: nat)
    ensures
        taken(plain_events(reports, ends)) == reports,
        told(plain_events(reports, ends)) == (ends > 0),
    decreases reports.len() + ends,
{
    let events = plain_events(reports, ends);
    if ends > 0 {
        let fewer = plain_events(reports, (ends - 1) as nat);
        lemma_plain_events(reports, (ends - 1) as nat);
        assert(events =~= fewer.push(Event::Ended { answer: Ok(()) }));
        lemma_one_more_event(fewer, Event::Ended { answer: Ok(()) });
    } else if reports.len() > 0 {
        let fewer = plain_events(reports.drop_last(), 0);
        lemma_plain_events(reports.drop_last(), 0);
        assert(events =~= fewer.push(Event::Fed { report: reports.last(), answer: Ok(()) }));
        lemma_one_more_event(fewer, Event::Fed { report: reports.last(), answer: Ok(()) });
        assert(reports.drop_last().push(reports.last()) =~= reports);
    } else {
        assert(events =~= Seq::<Event<T>>::empty());
        assert(!told(events));
    }
}

impl<T> Collector<T> {
    /// The reports held, as what they say.
    pub closed spec fn held(&self) -> Seq<OutputView<T>> {
        Seq::new(self.outputs@.len(), |i: int| self.outputs@[i]@)
    }

    /// How often the sink has been told of the end.
    pub closed spec fn ends(&self) -> nat {
        if self.finished {
            1 + self.again@
        } else {
            0
        }
    }

    /// The sink has never failed.
    pub proof fn lemma_never_failed(&self)
        ensures
            forall|i: int|
                0 <= i < self.events().len() ==> (#[trigger] self.events()[i]).answer() is Ok,
    {
    }

    /// A sink that has taken nothing yet.
    pub fn new() -> (r: Self)
        ensures
            r.events() == Seq::<Event<T>>::empty(),
    {
        let r = Collector { outputs: Vec::new(), finished: false, again: Ghost(0) };
        assert(r.events() =~= Seq::<Event<T>>::empty());
        r
    }

    /// The reports taken, in order.
    pub fn outputs(&self) -> (r: &Vec<Output<T>>)
        ensures
            r@.len() == taken(self.events()).len(),
            forall|i: int| 0 <= i < r@.len() ==> (#[trigger] r@[i])@ == taken(self.events())[i],
    {
        proof {
            lemma_plain_events(self.held(), self.ends());
        }
        &self.outputs
    }

    /// Whether `end` has been called.
    pub fn is_finished(&self) -> (r: bool)
        ensures
            r == told(self.events()),
    {
        proof {
            lemma_plain_events(self.held(), self.ends());
        }
        self.finished
    }
}

impl<T> Printer<T> for Collector<T> {
    /// Every report held was handed over and taken; the sink was told of
    /// the end as often as it was, behind the reports; nothing ever failed.
    closed spec fn events(&self) -> Seq<Event<T>> {
        plain_events(self.held(), self.ends())
    }

    /// Never fails: the report is taken.
    fn feed(&mut self, output: Output<T>) -> (r: Result<(), PrintError>)
        ensures
            r is Ok,
            taken(final(self).events()) == taken(old(self).events()).push(output@),
            !told(final(self).events()),
    {
        proof {
            lemma_plain_events(self.held(), self.ends());
            lemma_one_more_event(
                self.events(),
                Event::Fed { report: output@, answer: Ok(()) },
            );
        }
        self.outputs.push(output);
        assert(self.events() =~= old(self).events().push(
            Event::Fed { report: output@, answer: Ok(()) },
        ));
        Ok(())
    }

    /// Never fails: the sink has been told.
    fn end(&mut self) -> (r: Result<(), PrintError>)
        ensures
            r is Ok,
            taken(final(self).events()) == taken(old(self).events()),
            told(final(self).events()),
    {
        proof {
            lemma_one_more_event(self.events(), Event::Ended { answer: Ok(()) });
        }
        if self.finished {
            self.again = Ghost(self.again@ + 1);
        } else {
            self.finished = true;
            self.again = Ghost(0);
        }
        assert(self.events() =~= old(self).events().push(Event::Ended { answer: Ok(()) }));
        Ok(())
    }
}

} // verus!
