//! The stream of events: frames are accumulated, read and handed out one
//! by one, and fragments are asked for only when no frame is left.
//!
//! [`EventStream`] decides and never waits: [`EventStream::poll`] says
//! whether an item is ready, a fragment is needed or the stream is over,
//! and the caller reports what the source gave. [`string_chunks`] drives
//! it over a source that is already at hand.

use crate::error::{StreamError, StreamErrorView};
use crate::event::{extract, extract_spec, outcome_view, Event, EventView};
use crate::fragment::{fragment_bytes, fragment_view};
use crate::framing::{
    delimiter_free, frames, frames_view, lemma_delimiter_free, lemma_frames_append,
    lemma_remainder_delimiter_free, remainder, Delimiter, FrameAccumulator,
};
use vstd::prelude::*;
use vstd::string::StringSliceAdditionalSpecFns;
use vstd::utf8::encode_utf8;

verus! {

/// One item of the stream as plain values: a payload's text or an error.
pub type ItemView = Result<Seq<char>, StreamErrorView>;

/// One thing that the source hands over as plain values: a fragment's
/// bytes or what the transport reported when it failed.
pub type ArrivalView = Result<Seq<u8>, Seq<char>>;

/// What is known of the source of fragments.
pub enum Source {
    /// More fragments may come.
    Open,
    /// The source has ended.
    Exhausted,
    /// The source has failed; carries what the transport reported.
    Failed(String),
}

/// What a [`Source`] holds, as plain values.
pub enum SourceView {
    Open,
    Exhausted,
    Failed(Seq<char>),
}

impl View for Source {
    type V = SourceView;

    open spec fn view(&self) -> SourceView {
        match self {
            Source::Open => SourceView::Open,
            Source::Exhausted => SourceView::Exhausted,
            Source::Failed(message) => SourceView::Failed(message@),
        }
    }
}

/// What [`EventStream::poll`] found.
#[derive(Debug, PartialEq, Eq)]
pub enum Step {
    /// The next item of the stream.
    Item(Result<String, StreamError>),
    /// No frame is left: the caller fetches the next fragment and reports
    /// it, or reports that the source ended or failed.
    NeedFragment,
    /// The stream is over.
    Done,
}

/// What a [`Step`] holds, as plain values.
pub enum StepView {
    Item(ItemView),
    NeedFragment,
    Done,
}

/// What an item holds, as plain values.
pub open spec fn item_view(item: Result<String, StreamError>) -> ItemView {
    match item {
        Ok(payload) => Ok(payload@),
        Err(error) => Err(error@),
    }
}

impl View for Step {
    type V = StepView;

    open spec fn view(&self) -> StepView {
        match self {
            Step::Item(item) => StepView::Item(item_view(*item)),
            Step::NeedFragment => StepView::NeedFragment,
            Step::Done => StepView::Done,
        }
    }
}

/// The state of a stream as plain values.
pub struct StreamState {
    /// Complete frames not yet read, oldest first.
    pub queued: Seq<Seq<u8>>,
    /// Bytes of the frame that is not complete yet.
    pub buffered: Seq<u8>,
    /// The delimiter that ends a frame.
    pub delimiter: Seq<u8>,
    /// What is known of the source.
    pub source: SourceView,
    /// Whether the stream is over.
    pub ended: bool,
}

impl StreamState {
    /// The state of a stream before anything has arrived.
    pub open spec fn initial(delimiter: Seq<u8>) -> StreamState {
        StreamState {
            queued: Seq::empty(),
            buffered: Seq::empty(),
            delimiter,
            source: SourceView::Open,
            ended: false,
        }
    }

    /// The state of a stream that is over: nothing is kept.
    pub open spec fn over(self) -> StreamState {
        StreamState { queued: Seq::empty(), buffered: Seq::empty(), ended: true, ..self }
    }

    /// The delimiter is not empty and does not occur in the buffer.
    pub open spec fn wf(self) -> bool {
        &&& self.delimiter.len() > 0
        &&& delimiter_free(self.buffered, self.delimiter)
    }

    /// What the source's end leaves to say: nothing where no byte is
    /// buffered or the buffered bytes read as the sentinel, and else that
    /// a frame was cut short.
    pub open spec fn closing(buffered: Seq<u8>) -> Seq<ItemView> {
        if buffered.len() == 0 || extract_spec(buffered) == Ok::<EventView, StreamErrorView>(
            EventView::Sentinel,
        ) {
            Seq::empty()
        } else {
            seq![Err(StreamErrorView::IncompleteFrame)]
        }
    }

    /// One pull: the state after it and what it found.
    ///
    /// A stream that is over stays over. A queued frame is read: a payload
    /// is the next item, the sentinel ends the stream, and bytes that are
    /// no text end it with an error. With no frame queued the source
    /// decides: while it is open a fragment is needed, its failure is the
    /// last item, and its end closes the stream.
    pub open spec fn poll(self) -> (StreamState, StepView) {
        if self.ended {
            (self, StepView::Done)
        } else if self.queued.len() > 0 {
            match extract_spec(self.queued.first()) {
                Ok(EventView::Payload(text)) => (
                    StreamState { queued: self.queued.drop_first(), ..self },
                    StepView::Item(Ok(text)),
                ),
                Ok(EventView::Sentinel) => (self.over(), StepView::Done),
                Err(error) => (self.over(), StepView::Item(Err(error))),
            }
        } else {
            match self.source {
                SourceView::Open => (self, StepView::NeedFragment),
                SourceView::Failed(message) => (
                    self.over(),
                    StepView::Item(Err(StreamErrorView::TransportError(message))),
                ),
                SourceView::Exhausted => if Self::closing(self.buffered).len() == 0 {
                    (self.over(), StepView::Done)
                } else {
                    (self.over(), StepView::Item(Err(StreamErrorView::IncompleteFrame)))
                },
            }
        }
    }

    /// Whether what the source gives is still taken in.
    pub open spec fn listening(self) -> bool {
        !self.ended && self.source is Open
    }

    /// The state after a fragment has arrived: its complete frames join
    /// the queue and the rest stays buffered.
    pub open spec fn supply(self, fragment: Seq<u8>) -> StreamState {
        if self.listening() {
            StreamState {
                queued: self.queued + frames(self.buffered + fragment, self.delimiter),
                buffered: remainder(self.buffered + fragment, self.delimiter),
                ..self
            }
        } else {
            self
        }
    }

    /// The state after the source has ended.
    pub open spec fn exhaust(self) -> StreamState {
        if self.listening() {
            StreamState { source: SourceView::Exhausted, ..self }
        } else {
            self
        }
    }

    /// The state after the source has failed.
    pub open spec fn fail(self, message: Seq<char>) -> StreamState {
        if self.listening() {
            StreamState { source: SourceView::Failed(message), ..self }
        } else {
            self
        }
    }

    /// The state after the source has handed over `arrival`.
    pub open spec fn arrive(self, arrival: ArrivalView) -> StreamState {
        match arrival {
            Ok(fragment) => self.supply(fragment),
            Err(message) => self.fail(message),
        }
    }

    /// How far a run is from its end, first part: what the source can
    /// still give.
    pub open spec fn fuel(self, arrivals: Seq<ArrivalView>) -> nat {
        if self.ended {
            0
        } else if self.source is Open {
            arrivals.len() + 1
        } else {
            0
        }
    }

    /// How far a run is from its end, second part: what is queued.
    pub open spec fn backlog(self) -> nat {
        if self.ended {
            0
        } else {
            self.queued.len() + 1
        }
    }

    /// The items that a stream in this state yields when it is pulled to
    /// its end, the source handing over `arrivals` one by one when asked
    /// and ending after the last.
    pub open spec fn run(self, arrivals: Seq<ArrivalView>) -> Seq<ItemView>
        decreases self.fuel(arrivals), self.backlog(),
    {
        let (next, step) = self.poll();
        match step {
            StepView::Done => Seq::empty(),
            StepView::Item(item) => seq![item] + next.run(arrivals),
            StepView::NeedFragment => if arrivals.len() > 0 {
                next.arrive(arrivals.first()).run(arrivals.drop_first())
            } else {
                next.exhaust().run(arrivals)
            },
        }
    }
}

/// A stream of events over fragments that arrive one by one.
///
/// The stream owns its buffer and its queue of frames; nothing is shared
/// between two streams.
pub struct EventStream {
    accumulator: FrameAccumulator,
    pending: Vec<Vec<u8>>,
    cursor: usize,
    source: Source,
    ended: bool,
}

impl View for EventStream {
    type V = StreamState;

    closed spec fn view(&self) -> StreamState {
        StreamState {
            queued: frames_view(self.pending).skip(self.cursor as int),
            buffered: self.accumulator.buffered(),
            delimiter: self.accumulator.delimiter(),
            source: self.source@,
            ended: self.ended,
        }
    }
}

impl EventStream {
    /// The stream's parts fit together, and its state is well formed.
    pub closed spec fn wf(&self) -> bool {
        &&& self.cursor <= self.pending@.len()
        &&& self.accumulator.wf()
    }

    /// Between two calls the buffer of a stream holds no delimiter: every
    /// complete frame has left it, and at most one unfinished frame stays.
    pub proof fn lemma_wf_state(&self)
        requires
            self.wf(),
        ensures
            self@.wf(),
    {
    }

    /// A stream for the given delimiter before anything has arrived, or
    /// `None` for an empty delimiter.
    pub fn new(delimiter: &[u8]) -> (made: Option<EventStream>)
        ensures
            made is Some <==> delimiter@.len() > 0,
            made matches Some(stream) ==> stream.wf() && stream@ == StreamState::initial(
                delimiter@,
            ),
    {
        match FrameAccumulator::new(delimiter) {
            Some(accumulator) => {
                let stream = EventStream {
                    accumulator,
                    pending: Vec::new(),
                    cursor: 0,
                    source: Source::Open,
                    ended: false,
                };
                assert(stream@.queued =~= Seq::<Seq<u8>>::empty());
                Some(stream)
            },
            None => None,
        }
    }

    /// A stream for one of the two conventions before anything has
    /// arrived.
    pub fn with_convention(convention: Delimiter) -> (stream: EventStream)
        ensures
            stream.wf(),
            stream@ == StreamState::initial(convention.spec_bytes()),
    {
        let stream = EventStream {
            accumulator: FrameAccumulator::with_convention(convention),
            pending: Vec::new(),
            cursor: 0,
            source: Source::Open,
            ended: false,
        };
        assert(stream@.queued =~= Seq::<Seq<u8>>::empty());
        stream
    }

    /// Ends the stream and drops what it kept.
    fn close(&mut self)
        requires
            old(self).wf(),
        ensures
            final(self).wf(),
            final(self)@ == old(self)@.over(),
    {
        let _ = self.accumulator.finish();
        self.pending = Vec::new();
        self.cursor = 0;
        self.ended = true;
        assert(self@.queued =~= Seq::<Seq<u8>>::empty());
    }

    /// Whether the stream is over.
    pub fn is_ended(&self) -> (ended: bool)
        ensures
            ended == self@.ended,
    {
        self.ended
    }

    /// One pull. Returns the next item, or says that a fragment is needed
    /// or that the stream is over; see [`StreamState::poll`].
    pub fn poll(&mut self) -> (step: Step)
        requires
            old(self).wf(),
        ensures
            final(self).wf(),
            final(self)@ == old(self)@.poll().0,
            step@ == old(self)@.poll().1,
    {
        if self.ended {
            return Step::Done;
        }
        if self.cursor < self.pending.len() {
            let ghost queue = self@.queued;
            assert(queue.first() == self.pending@[self.cursor as int]@);
            let outcome = extract(self.pending[self.cursor].as_slice());
            match outcome {
                Ok(Event::Payload(text)) => {
                    self.cursor += 1;
                    assert(self@.queued =~= queue.drop_first());
                    Step::Item(Ok(text))
                },
                Ok(Event::Sentinel) => {
                    self.close();
                    Step::Done
                },
                Err(error) => {
                    self.close();
                    Step::Item(Err(error))
                },
            }
        } else {
            assert(self@.queued.len() == 0);
            match &self.source {
                Source::Open => Step::NeedFragment,
                Source::Failed(message) => {
                    let message = message.clone();
                    self.close();
                    Step::Item(Err(StreamError::TransportError(message)))
                },
                Source::Exhausted => {
                    let unfinished = self.accumulator.finish();
                    self.close();
                    match unfinished {
                        None => Step::Done,
                        Some(bytes) => match extract(bytes.as_slice()) {
                            Ok(Event::Sentinel) => Step::Done,
                            _ => Step::Item(Err(StreamError::IncompleteFrame)),
                        },
                    }
                },
            }
        }
    }

    /// Takes in a fragment: its complete frames join the queue, and the
    /// rest stays buffered. A stream that is over, or whose source has
    /// ended or failed, drops the fragment.
    pub fn supply(&mut self, fragment: &[u8])
        requires
            old(self).wf(),
        ensures
            final(self).wf(),
            final(self)@ == old(self)@.supply(fragment@),
    {
        if self.ended {
            return ;
        }
        match &self.source {
            Source::Open => {},
            _ => {
                return ;
            },
        }
        let ghost queue = self@.queued;
        let mut emitted = self.accumulator.feed(fragment);
        let ghost added = frames_view(emitted);
        if self.cursor == self.pending.len() {
            self.pending = emitted;
            self.cursor = 0;
        } else {
            self.pending.append(&mut emitted);
        }
        assert(self@.queued =~= queue + added);
    }

    /// Notes that the source has ended. Has no effect on a stream that is
    /// over or whose source has ended or failed before.
    pub fn exhaust(&mut self)
        requires
            old(self).wf(),
        ensures
            final(self).wf(),
            final(self)@ == old(self)@.exhaust(),
    {
        if self.ended {
            return ;
        }
        match &self.source {
            Source::Open => {},
            _ => {
                return ;
            },
        }
        self.source = Source::Exhausted;
    }

    /// Notes that the source has failed, with what the transport
    /// reported. Has no effect on a stream that is over or whose source
    /// has ended or failed before.
    pub fn fail(&mut self, message: String)
        requires
            old(self).wf(),
        ensures
            final(self).wf(),
            final(self)@ == old(self)@.fail(message@),
    {
        if self.ended {
            return ;
        }
        match &self.source {
            Source::Open => {},
            _ => {
                return ;
            },
        }
        self.source = Source::Failed(message);
    }
}

/// The items of frames read in order, up to the frame that ends the
/// stream: a payload is an item, the sentinel ends the stream silently,
/// and bytes that are no text end it with an error.
pub open spec fn emitted(queue: Seq<Seq<u8>>) -> Seq<ItemView>
    decreases queue.len(),
{
    if queue.len() == 0 {
        Seq::empty()
    } else {
        match extract_spec(queue.first()) {
            Ok(EventView::Payload(text)) => seq![Ok(text)] + emitted(queue.drop_first()),
            Ok(EventView::Sentinel) => Seq::empty(),
            Err(error) => seq![Err(error)],
        }
    }
}

/// Whether one of the frames ends the stream.
pub open spec fn stops(queue: Seq<Seq<u8>>) -> bool
    decreases queue.len(),
{
    queue.len() > 0 && match extract_spec(queue.first()) {
        Ok(EventView::Payload(_)) => stops(queue.drop_first()),
        _ => true,
    }
}

/// The items of a whole body: those of its complete frames and, unless
/// one of them ends the stream, what its unfinished rest leaves to say.
pub open spec fn decode_bytes(body: Seq<u8>, delimiter: Seq<u8>) -> Seq<ItemView> {
    let complete = frames(body, delimiter);
    if stops(complete) {
        emitted(complete)
    } else {
        emitted(complete) + StreamState::closing(remainder(body, delimiter))
    }
}

/// Fragments as arrivals of a source that does not fail.
pub open spec fn delivered(fragments: Seq<Seq<u8>>) -> Seq<ArrivalView> {
    Seq::new(fragments.len(), |i: int| Ok(fragments[i]))
}

/// Reading two runs of frames one after the other gives the items of the
/// first and, unless it ends the stream, those of the second.
pub proof fn lemma_emitted_concat(first: Seq<Seq<u8>>, second: Seq<Seq<u8>>)
    ensures
        stops(first + second) == (stops(first) || stops(second)),
        emitted(first + second) == if stops(first) {
            emitted(first)
        } else {
            emitted(first) + emitted(second)
        },
    decreases first.len(),
{
    if first.len() == 0 {
        assert(first + second =~= second);
        assert(emitted(first) + emitted(second) =~= emitted(second));
    } else {
        assert((first + second).first() == first.first());
        assert((first + second).drop_first() =~= first.drop_first() + second);
        lemma_emitted_concat(first.drop_first(), second);
        match extract_spec(first.first()) {
            Ok(EventView::Payload(text)) => {
                assert(seq![Ok::<Seq<char>, StreamErrorView>(text)] + (emitted(first.drop_first())
                    + emitted(second)) =~= (seq![Ok::<Seq<char>, StreamErrorView>(text)]
                    + emitted(first.drop_first())) + emitted(second));
            },
            _ => {},
        }
    }
}

/// A running stream first yields the items of its queued frames; unless
/// one of them ends it, it then goes on as a stream with an empty queue.
pub proof fn lemma_run_drains_queue(state: StreamState, arrivals: Seq<ArrivalView>)
    requires
        !state.ended,
    ensures
        state.run(arrivals) == if stops(state.queued) {
            emitted(state.queued)
        } else {
            emitted(state.queued) + (StreamState { queued: Seq::empty(), ..state }).run(arrivals)
        },
    decreases state.queued.len(),
{
    let drained = StreamState { queued: Seq::empty(), ..state };
    if state.queued.len() == 0 {
        assert(state.queued =~= Seq::<Seq<u8>>::empty());
        assert(drained == state);
        assert(emitted(state.queued) + state.run(arrivals) =~= state.run(arrivals));
    } else {
        let (next, step) = state.poll();
        match extract_spec(state.queued.first()) {
            Ok(EventView::Payload(text)) => {
                lemma_run_drains_queue(next, arrivals);
                assert(StreamState { queued: Seq::empty(), ..next } == drained);
                assert(seq![Ok::<Seq<char>, StreamErrorView>(text)] + (emitted(next.queued)
                    + drained.run(arrivals)) =~= (seq![Ok::<Seq<char>, StreamErrorView>(text)]
                    + emitted(next.queued)) + drained.run(arrivals));
            },
            Ok(EventView::Sentinel) => {},
            Err(error) => {
                assert(next.run(arrivals) =~= Seq::<ItemView>::empty());
                assert(seq![Err::<Seq<char>, StreamErrorView>(error)] + next.run(arrivals)
                    =~= seq![Err::<Seq<char>, StreamErrorView>(error)]);
            },
        }
    }
}

/// A stream that listens with an empty queue and `buffered` bytes yields,
/// over fragments that arrive without failure, the items of the body
/// that the buffered bytes and the fragments make up.
pub proof fn lemma_run_from_buffer(
    buffered: Seq<u8>,
    fragments: Seq<Seq<u8>>,
    delimiter: Seq<u8>,
)
    requires
        delimiter.len() > 0,
        delimiter_free(buffered, delimiter),
    ensures
        (StreamState { buffered, ..StreamState::initial(delimiter) }).run(delivered(fragments))
            == decode_bytes(buffered + fragments.flatten(), delimiter),
    decreases fragments.len(),
{
    let state = StreamState { buffered, ..StreamState::initial(delimiter) };
    let arrivals = delivered(fragments);
    lemma_delimiter_free(buffered, delimiter);
    if fragments.len() == 0 {
        assert(buffered + fragments.flatten() =~= buffered);
        let closed = state.exhaust();
        let (last, step) = closed.poll();
        assert(state.run(arrivals) == closed.run(arrivals));
        assert(last.run(arrivals) =~= Seq::<ItemView>::empty());
        assert(closed.run(arrivals) =~= StreamState::closing(buffered));
        assert(emitted(frames(buffered, delimiter)) + StreamState::closing(buffered)
            =~= StreamState::closing(buffered));
    } else {
        let fragment = fragments.first();
        let rest = fragments.drop_first();
        let whole = buffered + fragment;
        let complete = frames(whole, delimiter);
        let kept = remainder(whole, delimiter);
        let fed = state.supply(fragment);
        let drained = StreamState { buffered: kept, ..StreamState::initial(delimiter) };
        assert(arrivals.first() == Ok::<Seq<u8>, Seq<char>>(fragment));
        assert(arrivals.drop_first() =~= delivered(rest));
        assert(state.run(arrivals) == fed.run(delivered(rest)));
        assert(fed.queued =~= complete);
        lemma_run_drains_queue(fed, delivered(rest));
        assert(StreamState { queued: Seq::empty(), ..fed } == drained);
        lemma_remainder_delimiter_free(whole, delimiter);
        lemma_run_from_buffer(kept, rest, delimiter);
        let more = rest.flatten();
        assert(buffered + fragments.flatten() =~= whole + more);
        lemma_frames_append(whole, more, delimiter);
        lemma_emitted_concat(complete, frames(kept + more, delimiter));
        if !stops(complete) {
            let later = frames(kept + more, delimiter);
            if !stops(later) {
                assert(emitted(complete) + (emitted(later) + StreamState::closing(
                    remainder(kept + more, delimiter),
                )) =~= (emitted(complete) + emitted(later)) + StreamState::closing(
                    remainder(kept + more, delimiter),
                ));
            }
        }
    }
}

/// A stream that listens with an empty queue and `buffered` bytes, and
/// whose source fails after some fragments, yields the items of the
/// frames that were complete by then and, unless one of them ends the
/// stream, the failure as its last item. The unfinished rest and what the
/// source may give afterwards do not count.
pub proof fn lemma_run_until_failure(
    buffered: Seq<u8>,
    fragments: Seq<Seq<u8>>,
    message: Seq<char>,
    later: Seq<ArrivalView>,
    delimiter: Seq<u8>,
)
    requires
        delimiter.len() > 0,
        delimiter_free(buffered, delimiter),
    ensures
        (StreamState { buffered, ..StreamState::initial(delimiter) }).run(
            delivered(fragments) + seq![Err::<Seq<u8>, Seq<char>>(message)] + later,
        ) == ({
            let complete = frames(buffered + fragments.flatten(), delimiter);
            if stops(complete) {
                emitted(complete)
            } else {
                emitted(complete) + seq![
                    Err::<Seq<char>, StreamErrorView>(StreamErrorView::TransportError(message)),
                ]
            }
        }),
    decreases fragments.len(),
{
    let state = StreamState { buffered, ..StreamState::initial(delimiter) };
    let failure = Err::<Seq<u8>, Seq<char>>(message);
    let arrivals = delivered(fragments) + seq![failure] + later;
    let last = seq![Err::<Seq<char>, StreamErrorView>(StreamErrorView::TransportError(message))];
    lemma_delimiter_free(buffered, delimiter);
    if fragments.len() == 0 {
        assert(buffered + fragments.flatten() =~= buffered);
        assert(arrivals.first() == failure);
        let failed = state.fail(message);
        let (over, step) = failed.poll();
        assert(state.run(arrivals) == failed.run(arrivals.drop_first()));
        assert(over.run(arrivals.drop_first()) =~= Seq::<ItemView>::empty());
        assert(failed.run(arrivals.drop_first()) =~= last);
        assert(emitted(frames(buffered, delimiter)) + last =~= last);
    } else {
        let fragment = fragments.first();
        let rest = fragments.drop_first();
        let whole = buffered + fragment;
        let complete = frames(whole, delimiter);
        let kept = remainder(whole, delimiter);
        let fed = state.supply(fragment);
        let drained = StreamState { buffered: kept, ..StreamState::initial(delimiter) };
        let after = delivered(rest) + seq![failure] + later;
        assert(arrivals.first() == Ok::<Seq<u8>, Seq<char>>(fragment));
        assert(arrivals.drop_first() =~= after);
        assert(state.run(arrivals) == fed.run(after));
        assert(fed.queued =~= complete);
        lemma_run_drains_queue(fed, after);
        assert(StreamState { queued: Seq::empty(), ..fed } == drained);
        lemma_remainder_delimiter_free(whole, delimiter);
        lemma_run_until_failure(kept, rest, message, later, delimiter);
        let more = rest.flatten();
        assert(buffered + fragments.flatten() =~= whole + more);
        lemma_frames_append(whole, more, delimiter);
        lemma_emitted_concat(complete, frames(kept + more, delimiter));
        if !stops(complete) {
            let next = frames(kept + more, delimiter);
            if !stops(next) {
                assert(emitted(complete) + (emitted(next) + last) =~= (emitted(complete)
                    + emitted(next)) + last);
            }
        }
    }
}

/// An error ends the run: only the last item of a run can be an error,
/// and it is never the error of a payload that failed to parse.
pub proof fn lemma_error_ends_run(state: StreamState, arrivals: Seq<ArrivalView>, index: int)
    requires
        0 <= index < state.run(arrivals).len(),
        state.run(arrivals)[index] is Err,
    ensures
        index == state.run(arrivals).len() - 1,
        !(state.run(arrivals)[index]->Err_0 is JsonDecodeError),
    decreases state.fuel(arrivals), state.backlog(),
{
    let (next, step) = state.poll();
    match step {
        StepView::Done => {},
        StepView::Item(item) => {
            if index == 0 {
                if item is Err {
                    assert(next.ended);
                    assert(next.run(arrivals) =~= Seq::<ItemView>::empty());
                }
            } else {
                lemma_error_ends_run(next, arrivals, index - 1);
            }
        },
        StepView::NeedFragment => {
            if arrivals.len() > 0 {
                lemma_error_ends_run(next.arrive(arrivals.first()), arrivals.drop_first(), index);
            } else {
                lemma_error_ends_run(next.exhaust(), arrivals, index);
            }
        },
    }
}

/// The fragments that arrive before the source fails or ends.
pub open spec fn received(arrivals: Seq<ArrivalView>) -> Seq<Seq<u8>>
    decreases arrivals.len(),
{
    if arrivals.len() == 0 {
        Seq::empty()
    } else {
        match arrivals.first() {
            Ok(fragment) => seq![fragment] + received(arrivals.drop_first()),
            Err(_) => Seq::empty(),
        }
    }
}

/// What the transport reported when the source failed, if it did.
pub open spec fn failure(arrivals: Seq<ArrivalView>) -> Option<Seq<char>>
    decreases arrivals.len(),
{
    if arrivals.len() == 0 {
        None
    } else {
        match arrivals.first() {
            Ok(_) => failure(arrivals.drop_first()),
            Err(message) => Some(message),
        }
    }
}

/// The items of a stream over a source, said at once: the body is what
/// arrived before the source failed or ended. The items are those of the
/// body's complete frames and, unless one of them ends the stream, the
/// failure of the source or else what the unfinished rest leaves to say.
pub open spec fn stream_items(arrivals: Seq<ArrivalView>, delimiter: Seq<u8>) -> Seq<ItemView> {
    let body = received(arrivals).flatten();
    let complete = frames(body, delimiter);
    if stops(complete) {
        emitted(complete)
    } else {
        emitted(complete) + match failure(arrivals) {
            Some(message) => seq![Err(StreamErrorView::TransportError(message))],
            None => StreamState::closing(remainder(body, delimiter)),
        }
    }
}

/// A source is the fragments it delivers and then, where it fails, the
/// failure and what it might have given afterwards.
pub proof fn lemma_arrivals_split(arrivals: Seq<ArrivalView>)
    ensures
        received(arrivals).len() <= arrivals.len(),
        match failure(arrivals) {
            None => arrivals == delivered(received(arrivals)),
            Some(message) => received(arrivals).len() < arrivals.len() && arrivals == delivered(
                received(arrivals),
            ) + seq![Err::<Seq<u8>, Seq<char>>(message)] + arrivals.skip(
                received(arrivals).len() as int + 1,
            ),
        },
    decreases arrivals.len(),
{
    if arrivals.len() == 0 {
        assert(arrivals =~= delivered(received(arrivals)));
    } else {
        let rest = arrivals.drop_first();
        match arrivals.first() {
            Ok(fragment) => {
                lemma_arrivals_split(rest);
                let first = seq![Ok::<Seq<u8>, Seq<char>>(fragment)];
                assert(arrivals =~= first + rest);
                assert(delivered(received(arrivals)) =~= first + delivered(received(rest)));
                match failure(arrivals) {
                    None => {},
                    Some(message) => {
                        assert(arrivals.skip(received(arrivals).len() as int + 1) =~= rest.skip(
                            received(rest).len() as int + 1,
                        ));
                        assert(arrivals =~= delivered(received(arrivals)) + seq![
                            Err::<Seq<u8>, Seq<char>>(message),
                        ] + arrivals.skip(received(arrivals).len() as int + 1));
                    },
                }
            },
            Err(message) => {
                assert(arrivals =~= delivered(received(arrivals)) + seq![
                    Err::<Seq<u8>, Seq<char>>(message),
                ] + arrivals.skip(1));
            },
        }
    }
}

/// Pulled to its end, a fresh stream yields what `stream_items` says.
pub proof fn lemma_run_is_stream_items(arrivals: Seq<ArrivalView>, delimiter: Seq<u8>)
    requires
        delimiter.len() > 0,
    ensures
        StreamState::initial(delimiter).run(arrivals) == stream_items(arrivals, delimiter),
{
    let state = StreamState::initial(delimiter);
    let fragments = received(arrivals);
    assert(StreamState { buffered: Seq::<u8>::empty(), ..state } == state);
    assert(Seq::<u8>::empty() + fragments.flatten() =~= fragments.flatten());
    lemma_arrivals_split(arrivals);
    match failure(arrivals) {
        None => {
            lemma_run_from_buffer(Seq::empty(), fragments, delimiter);
        },
        Some(message) => {
            lemma_run_until_failure(
                Seq::empty(),
                fragments,
                message,
                arrivals.skip(fragments.len() as int + 1),
                delimiter,
            );
        },
    }
}

/// The fragments of a source that does not fail all arrive.
pub proof fn lemma_delivered_received(fragments: Seq<Seq<u8>>)
    ensures
        received(delivered(fragments)) == fragments,
        failure(delivered(fragments)) is None,
    decreases fragments.len(),
{
    if fragments.len() == 0 {
        assert(received(delivered(fragments)) =~= fragments);
    } else {
        lemma_delivered_received(fragments.drop_first());
        assert(delivered(fragments).drop_first() =~= delivered(fragments.drop_first()));
        assert(seq![fragments.first()] + fragments.drop_first() =~= fragments);
    }
}

/// However a body is cut into fragments, the stream yields the items of
/// the whole body.
pub proof fn lemma_run_decodes_body(fragments: Seq<Seq<u8>>, delimiter: Seq<u8>)
    requires
        delimiter.len() > 0,
    ensures
        StreamState::initial(delimiter).run(delivered(fragments)) == decode_bytes(
            fragments.flatten(),
            delimiter,
        ),
{
    let state = StreamState::initial(delimiter);
    assert(StreamState { buffered: Seq::<u8>::empty(), ..state } == state);
    assert(Seq::<u8>::empty() + fragments.flatten() =~= fragments.flatten());
    lemma_run_from_buffer(Seq::empty(), fragments, delimiter);
}

/// Two ways of cutting the same body into fragments, the delimiter itself
/// cut or not, yield the same items in the same order; so does the body
/// handed over in one piece.
pub proof fn lemma_fragmentation_invariance(
    first: Seq<Seq<u8>>,
    second: Seq<Seq<u8>>,
    delimiter: Seq<u8>,
)
    requires
        delimiter.len() > 0,
        first.flatten() == second.flatten(),
    ensures
        StreamState::initial(delimiter).run(delivered(first)) == StreamState::initial(
            delimiter,
        ).run(delivered(second)),
        StreamState::initial(delimiter).run(delivered(first)) == StreamState::initial(
            delimiter,
        ).run(delivered(seq![first.flatten()])),
        stream_items(delivered(first), delimiter) == stream_items(delivered(second), delimiter),
        stream_items(delivered(first), delimiter) == stream_items(
            delivered(seq![first.flatten()]),
            delimiter,
        ),
{
    lemma_run_decodes_body(first, delimiter);
    lemma_run_decodes_body(second, delimiter);
    let whole = seq![first.flatten()];
    whole.lemma_flatten_one_element();
    lemma_run_decodes_body(whole, delimiter);
    lemma_run_is_stream_items(delivered(first), delimiter);
    lemma_run_is_stream_items(delivered(second), delimiter);
    lemma_run_is_stream_items(delivered(whole), delimiter);
}

/// What a source at hand holds, as plain values.
pub open spec fn arrivals_view(source: Seq<Result<bytes::Bytes, String>>) -> Seq<ArrivalView> {
    Seq::new(
        source.len(),
        |i: int|
            match source[i] {
                Ok(fragment) => Ok(fragment_view(fragment)),
                Err(message) => Err(message@),
            },
    )
}

/// What a list of items holds, as plain values.
pub open spec fn items_view(items: Seq<Result<String, StreamError>>) -> Seq<ItemView> {
    Seq::new(items.len(), |i: int| item_view(items[i]))
}

/// Cuts a response body that is at hand into the payloads of its events.
///
/// `source` is what the transport gave, in order: fragments, and at most
/// one failure that counts. The result is what a stream with the given
/// delimiter yields when it is pulled to its end: each payload, stripped
/// of its `data:` prefix and trimmed, up to the sentinel; or up to the
/// error that ends it. An empty delimiter gives `None`.
pub fn string_chunks(source: Vec<Result<bytes::Bytes, String>>, stream_event_delimiter: &str) -> (items:
    Option<Vec<Result<String, StreamError>>>)
    ensures
        items is Some <==> encode_utf8(stream_event_delimiter@).len() > 0,
        items matches Some(list) ==> items_view(list@) == stream_items(
            arrivals_view(source@),
            encode_utf8(stream_event_delimiter@),
        ),
        items matches Some(list) ==> items_view(list@) == StreamState::initial(
            encode_utf8(stream_event_delimiter@),
        ).run(arrivals_view(source@)),
{
    let mut stream = match EventStream::new(stream_event_delimiter.as_bytes()) {
        Some(stream) => stream,
        None => {
            return None;
        },
    };
    let ghost arrivals = arrivals_view(source@);
    let ghost total = stream@.run(arrivals);
    proof {
        lemma_run_is_stream_items(arrivals, encode_utf8(stream_event_delimiter@));
    }
    let mut items: Vec<Result<String, StreamError>> = Vec::new();
    let mut taken: usize = 0;
    let mut running = true;
    assert(arrivals.skip(0) =~= arrivals);
    assert(items_view(items@) + total =~= total);
    while running
        invariant
            stream.wf(),
            taken <= source@.len(),
            arrivals == arrivals_view(source@),
            running ==> total == items_view(items@) + stream@.run(arrivals.skip(taken as int)),
            !running ==> total == items_view(items@),
        decreases
                (if running {
                    1int
                } else {
                    0int
                }),
                stream@.fuel(arrivals.skip(taken as int)),
                stream@.backlog(),
    {
        let ghost before = stream@;
        let ghost rest = arrivals.skip(taken as int);
        let ghost seen = items_view(items@);
        match stream.poll() {
            Step::Done => {
                assert(seen + before.run(rest) =~= seen);
                running = false;
            },
            Step::Item(item) => {
                items.push(item);
                assert(items_view(items@) =~= seen.push(item_view(item)));
                assert(seen + (seq![item_view(item)] + stream@.run(rest)) =~= seen.push(
                    item_view(item),
                ) + stream@.run(rest));
            },
            Step::NeedFragment => {
                if taken < source.len() {
                    assert(rest.first() == arrivals[taken as int]);
                    assert(rest.drop_first() =~= arrivals.skip(taken + 1));
                    match &source[taken] {
                        Ok(fragment) => {
                            stream.supply(fragment_bytes(fragment));
                        },
                        Err(message) => {
                            stream.fail(message.clone());
                        },
                    }
                    taken += 1;
                } else {
                    assert(rest.len() == 0);
                    stream.exhaust();
                }
            },
        }
    }
    Some(items)
}

/// Opens streams of chat completion events for one delimiter convention.
pub struct ChatCompletionStreamHandler {
    stream_event_delimiter: String,
}

impl ChatCompletionStreamHandler {
    /// The delimiter that ends an event, as text.
    pub closed spec fn delimiter(&self) -> Seq<char> {
        self.stream_event_delimiter@
    }

    /// A handler for events that end with `stream_event_delimiter`.
    pub fn new(stream_event_delimiter: &str) -> (handler: ChatCompletionStreamHandler)
        ensures
            handler.delimiter() == stream_event_delimiter@,
    {
        ChatCompletionStreamHandler { stream_event_delimiter: stream_event_delimiter.to_owned() }
    }

    /// The delimiter that ends an event.
    pub fn stream_event_delimiter(&self) -> (delimiter: &str)
        ensures
            delimiter@ == self.delimiter(),
    {
        self.stream_event_delimiter.as_str()
    }

    /// A stream for this handler's delimiter before anything has arrived,
    /// or `None` where the delimiter is empty.
    pub fn open(&self) -> (made: Option<EventStream>)
        ensures
            made is Some <==> encode_utf8(self.delimiter()).len() > 0,
            made matches Some(stream) ==> stream.wf() && stream@ == StreamState::initial(
                encode_utf8(self.delimiter()),
            ),
    {
        EventStream::new(self.stream_event_delimiter.as_str().as_bytes())
    }
}

} // verus!
