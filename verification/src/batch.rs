//! Batches: requests that wait are gathered, answered together and told one by one.
use vstd::prelude::*;

use crate::classifier::{
    error_texts, lengths_of, max_length, rows_of, ClassifierError, GenderClassifier,
};
use crate::scores::{GenderResponse, ResponseView};

verus! {

/// A request: its samples, as the bits of 32-bit floats, and a handle by which it is told the
/// answer.
pub struct BatchRequest<H> {
    pub samples: Vec<u32>,
    pub response: H,
}

/// What the worker is about.
#[derive(Clone, Copy, Debug, PartialEq, Eq, Structural)]
pub enum Phase {
    /// There is no request yet.
    Waiting,
    /// There is a first request, and others are given time to come.
    Delaying,
    /// Others that have come are taken in.
    Filling,
    /// No other has come.
    Ready,
    /// No request will come any more.
    Closed,
}

/// What has to be done next.
#[derive(Clone, Copy, Debug, PartialEq, Eq, Structural)]
pub enum Action {
    /// Wait for a request.
    Receive,
    /// Wait for a while.
    Sleep,
    /// Look whether there is another request.
    Poll,
    /// Answer the batch.
    Run,
    /// End.
    Stop,
}

/// What the worker is about, and the requests that it holds.
#[verifier::ext_equal]
#[verifier::reject_recursive_types(H)]
pub struct BatchState<H> {
    pub phase: Phase,
    pub batch: Seq<BatchRequest<H>>,
}

/// What may happen to the worker.
#[verifier::reject_recursive_types(H)]
pub enum Event<H> {
    /// A request has come.
    Received { request: BatchRequest<H> },
    /// No request will come any more.
    Closed,
    /// The while is over.
    Slept,
    /// There is no other request.
    NothingWaiting,
    /// The batch has been taken away to be answered.
    Taken,
}

/// The greatest number of requests in a batch. The first request is always in it.
pub open spec fn batch_limit(max_batch_size: usize) -> nat {
    if max_batch_size == 0 {
        1
    } else {
        max_batch_size as nat
    }
}

impl<H> BatchState<H> {
    /// The state at the start.
    pub open spec fn start() -> BatchState<H> {
        BatchState { phase: Phase::Waiting, batch: Seq::empty() }
    }

    /// What has to be done next.
    pub open spec fn action(self, max_batch_size: usize) -> Action {
        match self.phase {
            Phase::Waiting => Action::Receive,
            Phase::Delaying => Action::Sleep,
            Phase::Filling => if self.batch.len() < max_batch_size {
                Action::Poll
            } else {
                Action::Run
            },
            Phase::Ready => Action::Run,
            Phase::Closed => Action::Stop,
        }
    }

    /// There are requests exactly while a batch is made, and no more than may be in it.
    pub open spec fn wf(self, max_batch_size: usize) -> bool {
        match self.phase {
            Phase::Waiting => self.batch.len() == 0,
            Phase::Delaying => self.batch.len() == 1,
            Phase::Filling => 1 <= self.batch.len() <= batch_limit(max_batch_size),
            Phase::Ready => 1 <= self.batch.len() <= batch_limit(max_batch_size),
            Phase::Closed => self.batch.len() == 0,
        }
    }

    /// Whether this may happen, as the outcome of what has to be done next.
    pub open spec fn allows(self, max_batch_size: usize, event: Event<H>) -> bool {
        match event {
            Event::Received { .. } => self.action(max_batch_size) == Action::Receive
                || self.action(max_batch_size) == Action::Poll,
            Event::Closed => self.action(max_batch_size) == Action::Receive,
            Event::Slept => self.action(max_batch_size) == Action::Sleep,
            Event::NothingWaiting => self.action(max_batch_size) == Action::Poll,
            Event::Taken => self.action(max_batch_size) == Action::Run,
        }
    }

    /// The state after something has happened.
    pub open spec fn after(self, event: Event<H>) -> BatchState<H> {
        match event {
            Event::Received { request } => BatchState {
                phase: if self.phase == Phase::Waiting {
                    Phase::Delaying
                } else {
                    self.phase
                },
                batch: self.batch.push(request),
            },
            Event::Closed => BatchState { phase: Phase::Closed, batch: self.batch },
            Event::Slept => BatchState { phase: Phase::Filling, batch: self.batch },
            Event::NothingWaiting => BatchState { phase: Phase::Ready, batch: self.batch },
            Event::Taken => BatchState { phase: Phase::Waiting, batch: Seq::empty() },
        }
    }
}

/// The requests that have come.
pub open spec fn received<H>(events: Seq<Event<H>>) -> Seq<BatchRequest<H>>
    decreases events.len(),
{
    if events.len() == 0 {
        Seq::empty()
    } else {
        let before = received(events.drop_last());
        match events.last() {
            Event::Received { request } => before.push(request),
            _ => before,
        }
    }
}

/// The state after all this has happened.
pub open spec fn state_after<H>(events: Seq<Event<H>>) -> BatchState<H>
    decreases events.len(),
{
    if events.len() == 0 {
        BatchState::start()
    } else {
        state_after(events.drop_last()).after(events.last())
    }
}

/// The batches that have been taken away.
pub open spec fn batches<H>(events: Seq<Event<H>>) -> Seq<Seq<BatchRequest<H>>>
    decreases events.len(),
{
    if events.len() == 0 {
        Seq::empty()
    } else {
        let before = batches(events.drop_last());
        match events.last() {
            Event::Taken => before.push(state_after(events.drop_last()).batch),
            _ => before,
        }
    }
}

/// Everything has happened as the outcome of what had to be done.
pub open spec fn allowed<H>(max_batch_size: usize, events: Seq<Event<H>>) -> bool
    decreases events.len(),
{
    events.len() == 0 || (allowed(max_batch_size, events.drop_last()) && state_after(
        events.drop_last(),
    ).allows(max_batch_size, events.last()))
}

/// The state stays well-formed whatever happens.
pub proof fn state_stays_well_formed<H>(max_batch_size: usize, events: Seq<Event<H>>)
    requires
        allowed(max_batch_size, events),
    ensures
        state_after(events).wf(max_batch_size),
    decreases events.len(),
{
    if events.len() > 0 {
        state_stays_well_formed(max_batch_size, events.drop_last());
    }
}

/// No request is lost, none is answered twice, and all keep their order: the batches, one
/// behind the other, and then the requests that are held are those that have come.
pub proof fn no_request_is_lost<H>(max_batch_size: usize, events: Seq<Event<H>>)
    requires
        allowed(max_batch_size, events),
    ensures
        batches(events).flatten() + state_after(events).batch == received(events),
    decreases events.len(),
{
    if events.len() > 0 {
        let before = events.drop_last();
        no_request_is_lost(max_batch_size, before);
        let held = state_after(before).batch;
        match events.last() {
            Event::Received { request } => {
                assert(batches(before).flatten() + held.push(request) =~= (batches(
                    before,
                ).flatten() + held).push(request));
            },
            Event::Taken => {
                batches(before).lemma_flatten_push(held);
                assert(batches(events).flatten() + state_after(events).batch =~= batches(
                    before,
                ).flatten() + held);
            },
            _ => {},
        }
    }
}

/// Every batch has a request, and none has more than it may.
pub proof fn batches_keep_to_the_limit<H>(max_batch_size: usize, events: Seq<Event<H>>)
    requires
        allowed(max_batch_size, events),
    ensures
        forall|i: int|
            0 <= i < batches(events).len() ==> 1 <= (#[trigger] batches(events)[i]).len()
                <= batch_limit(max_batch_size),
    decreases events.len(),
{
    if events.len() > 0 {
        let before = events.drop_last();
        batches_keep_to_the_limit(max_batch_size, before);
        state_stays_well_formed(max_batch_size, before);
        assert forall|i: int| 0 <= i < batches(events).len() implies 1 <= (#[trigger] batches(
            events,
        )[i]).len() <= batch_limit(max_batch_size) by {
            if i < batches(before).len() {
                assert(batches(events)[i] == batches(before)[i]);
            } else {
                assert(batches(events)[i] == state_after(before).batch);
            }
        }
    }
}

/// What happens to the worker changes the requests that it holds, that have come and that have
/// been taken away in no other way than this: one that comes is held behind the others, and all
/// that are held are taken away at once.
pub proof fn requests_go_step_by_step<H>(events: Seq<Event<H>>, request: BatchRequest<H>)
    ensures
        state_after(Seq::<Event<H>>::empty()).batch.len() == 0,
        batches(Seq::<Event<H>>::empty()).len() == 0,
        received(Seq::<Event<H>>::empty()).len() == 0,
        state_after(events.push(Event::Received { request })).batch == state_after(
            events,
        ).batch.push(request),
        state_after(events.push(Event::Slept)).batch == state_after(events).batch,
        state_after(events.push(Event::NothingWaiting)).batch == state_after(events).batch,
        state_after(events.push(Event::Closed)).batch == state_after(events).batch,
        state_after(events.push(Event::Taken)).batch.len() == 0,
        received(events.push(Event::Received { request })) == received(events).push(request),
        received(events.push(Event::Slept)) == received(events),
        received(events.push(Event::NothingWaiting)) == received(events),
        received(events.push(Event::Closed)) == received(events),
        received(events.push(Event::Taken)) == received(events),
        batches(events.push(Event::Received { request })) == batches(events),
        batches(events.push(Event::Slept)) == batches(events),
        batches(events.push(Event::NothingWaiting)) == batches(events),
        batches(events.push(Event::Closed)) == batches(events),
        batches(events.push(Event::Taken)) == batches(events).push(state_after(events).batch),
{
    assert(events.push(Event::Received { request }).drop_last() =~= events);
    assert(events.push(Event::Slept).drop_last() =~= events);
    assert(events.push(Event::NothingWaiting).drop_last() =~= events);
    assert(events.push(Event::Closed).drop_last() =~= events);
    assert(events.push(Event::Taken).drop_last() =~= events);
}

/// What has to be done next follows from what has happened last and from how many requests are
/// held: a first request is given time to be joined; then others are looked for exactly while
/// there is room and none has been found missing; then the batch is run, and the next request is
/// waited for. The worker stops only when no request will come any more.
pub proof fn action_follows_from_what_happened<H>(max_batch_size: usize, events: Seq<Event<H>>)
    requires
        allowed(max_batch_size, events),
    ensures
        events.len() == 0 ==> state_after(events).action(max_batch_size) == Action::Receive,
        events.len() > 0 ==> {
            let held = state_after(events).batch.len();
            let action = state_after(events).action(max_batch_size);
            match events.last() {
                Event::Received { .. } => action == if held == 1 {
                    Action::Sleep
                } else if held < max_batch_size {
                    Action::Poll
                } else {
                    Action::Run
                },
                Event::Slept => action == if held < max_batch_size {
                    Action::Poll
                } else {
                    Action::Run
                },
                Event::NothingWaiting => action == Action::Run,
                Event::Taken => action == Action::Receive,
                Event::Closed => action == Action::Stop,
            }
        },
{
    if events.len() > 0 {
        state_stays_well_formed(max_batch_size, events.drop_last());
    }
}

/// While requests are held, the worker neither stops nor waits for a first request, and while none
/// is held, there is nothing to run.
pub proof fn held_requests_are_run<H>(max_batch_size: usize, events: Seq<Event<H>>)
    requires
        allowed(max_batch_size, events),
    ensures
        state_after(events).batch.len() > 0 ==> {
            let action = state_after(events).action(max_batch_size);
            action == Action::Sleep || action == Action::Poll || action == Action::Run
        },
        state_after(events).batch.len() == 0 ==> {
            let action = state_after(events).action(max_batch_size);
            action == Action::Receive || action == Action::Stop
        },
        state_after(events).action(max_batch_size) == Action::Stop <==> events.len() > 0
            && events.last() is Closed,
{
    state_stays_well_formed(max_batch_size, events);
    if events.len() > 0 {
        state_stays_well_formed(max_batch_size, events.drop_last());
    }
}

/// Nothing may happen but the outcome of what has to be done next, and every outcome of it may:
/// a request or the end where one is waited for, a request or none where one is looked for, the
/// end of the while, and the batch taken away.
pub proof fn only_outcomes_may_happen<H>(
    max_batch_size: usize,
    events: Seq<Event<H>>,
    request: BatchRequest<H>,
)
    requires
        allowed(max_batch_size, events),
    ensures
        ({
            let action = state_after(events).action(max_batch_size);
            &&& allowed(max_batch_size, events.push(Event::Received { request })) <==> action
                == Action::Receive || action == Action::Poll
            &&& allowed(max_batch_size, events.push(Event::Closed)) <==> action == Action::Receive
            &&& allowed(max_batch_size, events.push(Event::Slept)) <==> action == Action::Sleep
            &&& allowed(max_batch_size, events.push(Event::NothingWaiting)) <==> action
                == Action::Poll
            &&& allowed(max_batch_size, events.push(Event::Taken)) <==> action == Action::Run
        }),
        allowed(max_batch_size, Seq::<Event<H>>::empty()),
{
    assert(events.push(Event::Received { request }).drop_last() =~= events);
    assert(events.push(Event::Slept).drop_last() =~= events);
    assert(events.push(Event::NothingWaiting).drop_last() =~= events);
    assert(events.push(Event::Closed).drop_last() =~= events);
    assert(events.push(Event::Taken).drop_last() =~= events);
}

/// Whatever has happened, requests that are held are taken away, all of them and in their order,
/// at most three steps later if no other comes.
pub proof fn held_requests_are_taken_soon<H>(max_batch_size: usize, events: Seq<Event<H>>) -> (
    more: Seq<Event<H>>)
    requires
        allowed(max_batch_size, events),
        state_after(events).batch.len() > 0,
    ensures
        more.len() <= 3,
        allowed(max_batch_size, events + more),
        batches(events + more) == batches(events).push(state_after(events).batch),
        state_after(events + more).batch.len() == 0,
{
    held_requests_are_run(max_batch_size, events);
    if state_after(events).action(max_batch_size) == Action::Sleep {
        let next = events.push(Event::Slept);
        assert(next.drop_last() =~= events);
        held_requests_are_run(max_batch_size, next);
        let rest = held_requests_are_found_and_taken(max_batch_size, next);
        let more = seq![Event::<H>::Slept] + rest;
        assert(events + more =~= next + rest);
        more
    } else {
        held_requests_are_found_and_taken(max_batch_size, events)
    }
}

/// After the while, requests that are held are taken away at most two steps later if no other
/// comes.
proof fn held_requests_are_found_and_taken<H>(max_batch_size: usize, events: Seq<Event<H>>) -> (
    more: Seq<Event<H>>)
    requires
        allowed(max_batch_size, events),
        state_after(events).batch.len() > 0,
        state_after(events).action(max_batch_size) == Action::Poll || state_after(events).action(
            max_batch_size,
        ) == Action::Run,
    ensures
        more.len() <= 2,
        allowed(max_batch_size, events + more),
        batches(events + more) == batches(events).push(state_after(events).batch),
        state_after(events + more).batch.len() == 0,
{
    let taken = seq![Event::<H>::Taken];
    if state_after(events).action(max_batch_size) == Action::Run {
        assert(events + taken =~= events.push(Event::Taken));
        assert(events.push(Event::Taken).drop_last() =~= events);
        taken
    } else {
        let next = events.push(Event::NothingWaiting);
        assert(next.drop_last() =~= events);
        assert(allowed(max_batch_size, next));
        assert(batches(next) == batches(events));
        let more = seq![Event::<H>::NothingWaiting] + taken;
        assert(events + more =~= next.push(Event::Taken));
        assert(next.push(Event::Taken).drop_last() =~= next);
        more
    }
}

/// The worker that gathers requests.
pub struct BatchWorker<H> {
    pub batch: Vec<BatchRequest<H>>,
    pub phase: Phase,
    pub max_batch_size: usize,
}

impl<H> View for BatchWorker<H> {
    type V = BatchState<H>;

    open spec fn view(&self) -> BatchState<H> {
        BatchState { phase: self.phase, batch: self.batch@ }
    }
}

impl<H> BatchWorker<H> {
    /// The state is well-formed.
    pub open spec fn wf(&self) -> bool {
        self@.wf(self.max_batch_size)
    }

    /// A worker without requests.
    pub fn new(max_batch_size: usize) -> (worker: BatchWorker<H>)
        ensures
            worker@ == BatchState::<H>::start(),
            worker.batch@.len() == 0,
            worker.max_batch_size == max_batch_size,
            worker.wf(),
    {
        BatchWorker { batch: Vec::new(), phase: Phase::Waiting, max_batch_size }
    }

    /// What has to be done next.
    pub fn action(&self) -> (action: Action)
        ensures
            action == self@.action(self.max_batch_size),
            self.wf() && self.batch@.len() > 0 ==> action == Action::Sleep || action == Action::Poll
                || action == Action::Run,
            self.wf() && self.batch@.len() == 0 ==> action == Action::Receive || action
                == Action::Stop,
            action == Action::Poll ==> self.batch@.len() < self.max_batch_size,
    {
        match self.phase {
            Phase::Waiting => Action::Receive,
            Phase::Delaying => Action::Sleep,
            Phase::Filling => if self.batch.len() < self.max_batch_size {
                Action::Poll
            } else {
                Action::Run
            },
            Phase::Ready => Action::Run,
            Phase::Closed => Action::Stop,
        }
    }

    /// A request has come.
    pub fn receive(&mut self, request: BatchRequest<H>)
        requires
            old(self).wf(),
            old(self)@.allows(old(self).max_batch_size, Event::Received { request }),
        ensures
            final(self)@ == old(self)@.after(Event::Received { request }),
            final(self).batch@ == old(self).batch@.push(request),
            final(self).max_batch_size == old(self).max_batch_size,
            final(self).wf(),
    {
        self.batch.push(request);
        if matches!(self.phase, Phase::Waiting) {
            self.phase = Phase::Delaying;
        }
    }

    /// No request will come any more.
    pub fn close(&mut self)
        requires
            old(self).wf(),
            old(self)@.allows(old(self).max_batch_size, Event::Closed),
        ensures
            final(self)@ == old(self)@.after(Event::Closed),
            final(self).batch@ == old(self).batch@,
            final(self).max_batch_size == old(self).max_batch_size,
            final(self).wf(),
    {
        self.phase = Phase::Closed;
    }

    /// The while is over in which others were given time to come.
    pub fn wake(&mut self)
        requires
            old(self).wf(),
            old(self)@.allows(old(self).max_batch_size, Event::Slept),
        ensures
            final(self)@ == old(self)@.after(Event::Slept),
            final(self).batch@ == old(self).batch@,
            final(self).max_batch_size == old(self).max_batch_size,
            final(self).wf(),
    {
        self.phase = Phase::Filling;
    }

    /// There is no other request.
    pub fn settle(&mut self)
        requires
            old(self).wf(),
            old(self)@.allows(old(self).max_batch_size, Event::NothingWaiting),
        ensures
            final(self)@ == old(self)@.after(Event::NothingWaiting),
            final(self).batch@ == old(self).batch@,
            final(self).max_batch_size == old(self).max_batch_size,
            final(self).wf(),
    {
        self.phase = Phase::Ready;
    }

    /// The batch, to be answered. The worker starts over.
    pub fn take(&mut self) -> (batch: Vec<BatchRequest<H>>)
        requires
            old(self).wf(),
            old(self)@.allows(old(self).max_batch_size, Event::Taken),
        ensures
            batch@ == old(self)@.batch,
            batch@ == old(self).batch@,
            final(self).batch@.len() == 0,
            1 <= batch@.len() <= batch_limit(old(self).max_batch_size),
            final(self)@ == old(self)@.after(Event::Taken),
            final(self).max_batch_size == old(self).max_batch_size,
            final(self).wf(),
    {
        let mut batch: Vec<BatchRequest<H>> = Vec::new();
        batch.append(&mut self.batch);
        self.phase = Phase::Waiting;
        assert(self.batch@ =~= Seq::<BatchRequest<H>>::empty());
        batch
    }
}

/// What the requests of a batch are told: that a request was too short, where one was; or each
/// the answer to its own samples; or all one text of an error of candle, which a classifier that
/// is ready never tells.
pub open spec fn is_told(
    classifier: GenderClassifier,
    samples: Seq<Seq<u32>>,
    replies: Seq<Result<GenderResponse, String>>,
) -> bool {
    &&& replies.len() == samples.len()
    &&& samples.len() > 0 ==> if classifier.has_short(samples) {
        all_told(replies, "audio is too short for Wav2Vec2 feature extraction"@)
    } else {
        ||| exists|answers: Seq<ResponseView>| #[trigger]
            classifier.answers(samples, answers) && all_answered(replies, answers)
        ||| !classifier.is_ready() && exists|err: ClassifierError, text: Seq<char>| #[trigger]
            err.is_text(text) && err is Model && all_told(replies, text)
    }
}

/// Each reply is an error with this text.
pub open spec fn all_told(replies: Seq<Result<GenderResponse, String>>, text: Seq<char>) -> bool {
    forall|i: int| 0 <= i < replies.len() ==> #[trigger] is_error(replies[i], text)
}

/// Each reply is the answer that stands at its place.
pub open spec fn all_answered(
    replies: Seq<Result<GenderResponse, String>>,
    answers: Seq<ResponseView>,
) -> bool {
    &&& answers.len() == replies.len()
    &&& forall|i: int| 0 <= i < replies.len() ==> #[trigger] is_reply(replies[i], answers[i])
}

/// The reply is this answer.
pub open spec fn is_reply(reply: Result<GenderResponse, String>, answer: ResponseView) -> bool {
    reply matches Ok(response) && response@ == answer
}

/// The reply is an error with this text.
pub open spec fn is_error(reply: Result<GenderResponse, String>, text: Seq<char>) -> bool {
    reply matches Err(message) && message@ == text
}

/// What each of `count` requests is told of an outcome: its own answer, as far as there are
/// answers, or the text of the error.
pub fn replies(count: usize, outcome: Result<Vec<GenderResponse>, ClassifierError>) -> (out: Vec<
    Result<GenderResponse, String>,
>)
    ensures
        match outcome {
            Ok(responses) => {
                &&& out@.len() == if responses@.len() < count {
                    responses@.len()
                } else {
                    count as nat
                }
                &&& forall|i: int|
                    0 <= i < out@.len() ==> (#[trigger] out@[i]) == Ok::<GenderResponse, String>(
                        responses@[i],
                    )
            },
            Err(err) => {
                &&& out@.len() == count
                &&& exists|text: Seq<char>| #[trigger] all_told(out@, text) && err.is_text(text)
                &&& forall|i: int|
                    0 <= i < count ==> (#[trigger] out@[i]) is Err && match err {
                        ClassifierError::TooShort => out@[i]->Err_0@
                            == "audio is too short for Wav2Vec2 feature extraction"@,
                        ClassifierError::Model(cause) => error_texts(cause).contains(
                            out@[i]->Err_0@,
                        ),
                    }
                &&& forall|i: int, j: int|
                    0 <= i < count && 0 <= j < count ==> (#[trigger] out@[i])->Err_0@ == (
                    #[trigger] out@[j])->Err_0@
            },
        },
{
    let mut out: Vec<Result<GenderResponse, String>> = Vec::new();
    match outcome {
        Ok(responses) => {
            for response in it: responses.into_iter()
                invariant
                    it.seq() == responses@,
                    out@.len() == if it.index() < count {
                        it.index() as nat
                    } else {
                        count as nat
                    },
                    forall|i: int|
                        0 <= i < out@.len() ==> (#[trigger] out@[i]) == Ok::<
                            GenderResponse,
                            String,
                        >(responses@[i]),
            {
                if out.len() < count {
                    out.push(Ok(response));
                }
            }
        },
        Err(err) => {
            let message = err.message();
            let mut i: usize = 0;
            while i < count
                invariant
                    i <= count,
                    out@.len() == i,
                    forall|j: int| 0 <= j < i ==> #[trigger] is_error(out@[j], message@),
                decreases count - i,
            {
                out.push(Err(message.clone()));
                i = i + 1;
            }
            assert(all_told(out@, message@));
            assert forall|i: int| 0 <= i < count implies (#[trigger] out@[i]) is Err
                && out@[i]->Err_0@ == message@ by {
                assert(is_error(out@[i], message@));
            }
        },
    }
    out
}

/// The samples of each request.
pub open spec fn samples_of<H>(batch: Seq<BatchRequest<H>>) -> Seq<Seq<u32>> {
    batch.map_values(|request: BatchRequest<H>| request.samples@)
}

/// Whether the samples of a batch and their frames can be counted.
pub fn is_countable<H>(classifier: &GenderClassifier, batch: &Vec<BatchRequest<H>>) -> (b: bool)
    requires
        classifier.wf(),
    ensures
        b == classifier.countable(samples_of(batch@)),
{
    let mut lengths: Vec<usize> = Vec::new();
    let mut i: usize = 0;
    while i < batch.len()
        invariant
            i <= batch.len(),
            lengths@.len() == i,
            forall|j: int| 0 <= j < i ==> (#[trigger] lengths@[j]) == batch@[j].samples@.len(),
        decreases batch.len() - i,
    {
        lengths.push(batch[i].samples.len());
        i = i + 1;
    }
    assert(lengths@ =~= lengths_of(samples_of(batch@)));
    let max_len = max_length(&lengths);
    let frames = classifier.model.feature_output_len(max_len);
    max_len <= usize::MAX / 2 && product_fits(batch.len(), max_len, 1) && product_fits(
        batch.len(),
        frames,
        classifier.config.hidden_size,
    ) && product_fits(batch.len(), frames, classifier.config.num_attention_heads)
}

/// Whether the product of three numbers can be counted.
fn product_fits(a: usize, b: usize, c: usize) -> (fits: bool)
    ensures
        fits == (a * (b * c) <= usize::MAX),
{
    proof {
        assert(a == 0 ==> a * (b * c) == 0) by (nonlinear_arith);
        assert(a >= 1 ==> b * c <= a * (b * c)) by (nonlinear_arith)
            requires
                b >= 0,
                c >= 0,
        ;
    }
    if a == 0 {
        return true;
    }
    match b.checked_mul(c) {
        Some(inner) => a.checked_mul(inner).is_some(),
        None => false,
    }
}

/// Where one request of a batch is too short, every request of the batch is told so.
pub proof fn one_short_request_fails_the_batch(
    classifier: GenderClassifier,
    samples: Seq<Seq<u32>>,
    replies: Seq<Result<GenderResponse, String>>,
    short: int,
    i: int,
)
    requires
        is_told(classifier, samples, replies),
        0 <= short < samples.len(),
        classifier.model.frame_count(samples[short].len() as usize) == 0,
        0 <= i < samples.len(),
    ensures
        is_error(replies[i], "audio is too short for Wav2Vec2 feature extraction"@),
{
    assert(classifier.has_short(samples));
}

/// Every request of a batch is told something. Where one is too short, all are told so. Where none
/// is, and the classifier is ready, each is told its own answer; otherwise each is told its own
/// answer, or all one text of an error of candle.
pub proof fn each_request_is_told_its_own(
    classifier: GenderClassifier,
    samples: Seq<Seq<u32>>,
    replies: Seq<Result<GenderResponse, String>>,
)
    requires
        is_told(classifier, samples, replies),
        samples.len() > 0,
    ensures
        replies.len() == samples.len(),
        (exists|k: int|
            0 <= k < samples.len() && classifier.model.frame_count(
                (#[trigger] samples[k]).len() as usize,
            ) == 0) ==> forall|i: int|
            0 <= i < replies.len() ==> (#[trigger] replies[i]) is Err && replies[i]->Err_0@
                == "audio is too short for Wav2Vec2 feature extraction"@,
        (forall|k: int|
            0 <= k < samples.len() ==> classifier.model.frame_count(
                (#[trigger] samples[k]).len() as usize,
            ) != 0) ==> {
            ||| exists|answers: Seq<ResponseView>| #[trigger]
                classifier.answers(samples, answers) && answers.len() == replies.len() && forall|
                    i: int,
                |
                    0 <= i < replies.len() ==> (#[trigger] replies[i]) is Ok && replies[i]->Ok_0@
                        == answers[i]
            ||| !classifier.is_ready() && exists|cause: candle_core::Error, text: Seq<char>|
                #[trigger] error_texts(cause).contains(text) && forall|i: int|
                    0 <= i < replies.len() ==> (#[trigger] replies[i]) is Err && replies[i]->Err_0@
                        == text
        },
{
    if forall|k: int|
        0 <= k < samples.len() ==> classifier.model.frame_count(
            (#[trigger] samples[k]).len() as usize,
        ) != 0 {
        assert(!classifier.has_short(samples));
        if exists|answers: Seq<ResponseView>| #[trigger]
            classifier.answers(samples, answers) && all_answered(replies, answers) {
            let answers = choose|answers: Seq<ResponseView>| #[trigger]
                classifier.answers(samples, answers) && all_answered(replies, answers);
            assert forall|i: int| 0 <= i < replies.len() implies (#[trigger] replies[i]) is Ok
                && replies[i]->Ok_0@ == answers[i] by {
                assert(is_reply(replies[i], answers[i]));
            }
        } else {
            let (err, text) = choose|err: ClassifierError, text: Seq<char>| #[trigger]
                err.is_text(text) && err is Model && all_told(replies, text);
            let cause = err->Model_0;
            assert(error_texts(cause).contains(text));
            assert forall|i: int| 0 <= i < replies.len() implies (#[trigger] replies[i]) is Err
                && replies[i]->Err_0@ == text by {
                assert(is_error(replies[i], text));
            }
        }
    } else {
        assert(classifier.has_short(samples));
        assert forall|i: int| 0 <= i < replies.len() implies (#[trigger] replies[i]) is Err
            && replies[i]->Err_0@ == "audio is too short for Wav2Vec2 feature extraction"@ by {
            assert(is_error(replies[i], "audio is too short for Wav2Vec2 feature extraction"@));
        }
    }
}

/// The samples of the requests of a batch are those that they hold, and the worker is seen with all
/// that it holds.
pub proof fn requests_are_seen_whole<H>(batch: Seq<BatchRequest<H>>, worker: BatchWorker<H>)
    ensures
        samples_of(batch).len() == batch.len(),
        forall|i: int|
            0 <= i < batch.len() ==> (#[trigger] samples_of(batch)[i]) == batch[i].samples@,
        worker@.batch == worker.batch@,
        worker@.phase == worker.phase,
{
}

/// The requests of a batch with what each is told.
pub struct Told<H> {
    pub responses: Vec<H>,
    pub replies: Vec<Result<GenderResponse, String>>,
}

/// The handles of the requests of a batch, in their order, and what each is told.
pub fn answer_batch<H>(classifier: &GenderClassifier, batch: Vec<BatchRequest<H>>) -> (told: Told<
    H,
>)
    requires
        classifier.wf(),
        classifier.countable(samples_of(batch@)),
    ensures
        told.responses@ == batch@.map_values(|request: BatchRequest<H>| request.response),
        is_told(*classifier, samples_of(batch@), told.replies@),
{
    let count = batch.len();
    let mut samples: Vec<Vec<u32>> = Vec::new();
    let mut responses: Vec<H> = Vec::new();
    for request in it: batch.into_iter()
        invariant
            it.seq() == batch@,
            samples@.len() == it.index(),
            responses@.len() == it.index(),
            forall|i: int| 0 <= i < it.index() ==> (#[trigger] samples@[i]) == batch@[i].samples,
            forall|i: int|
                0 <= i < it.index() ==> (#[trigger] responses@[i]) == batch@[i].response,
    {
        samples.push(request.samples);
        responses.push(request.response);
    }
    proof {
        assert(rows_of(samples@) =~= samples_of(batch@));
        assert(responses@ =~= batch@.map_values(|request: BatchRequest<H>| request.response));
    }
    let ghost rows = rows_of(samples@);
    let outcome = classifier.predict_batch(samples);
    let ghost answers = outcome->Ok_0@.map_values(|response: GenderResponse| response@);
    let replies = replies(count, outcome);
    proof {
        if rows.len() > 0 {
            if outcome is Ok {
                assert(classifier.answers(rows, answers) && all_answered(replies@, answers));
            } else {
                let text = choose|text: Seq<char>| #[trigger]
                    all_told(replies@, text) && outcome->Err_0.is_text(text);
                assert(outcome->Err_0.is_text(text));
            }
        }
    }
    Told { responses, replies }
}

/// How many requests may wait in the queue: sixteen batches of them.
pub fn queue_capacity(max_batch_size: usize) -> (capacity: usize)
    requires
        max_batch_size * 16 <= usize::MAX,
    ensures
        capacity == max_batch_size * 16,
{
    max_batch_size * 16
}

} // verus!
