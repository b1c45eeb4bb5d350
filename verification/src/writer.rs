//! The writer: the one task that writes to the database while a job is sent.
//!
//! Results are buffered and written in batches. A request to stage more items waits until
//! everything that came before it has been written.

use vstd::prelude::*;
use crate::worker::{ResultView, SendResult};

verus! {

/// As many results as are written at once.
pub const WRITE_BUFFER_SIZE: usize = 100;

/// What the writer turns to when a batch has been written.
#[derive(Clone, Copy, Debug)]
pub enum Next {
    /// Wait for the next event.
    Wait,
    /// Stage up to so many items.
    Stage(i64),
    /// Finish.
    Finish,
}

/// Where the writer is.
#[derive(Clone, Copy, Debug)]
pub enum Phase {
    /// Waiting for a result or a request.
    Idle,
    /// Writing so many results.
    Writing { count: u64, next: Next },
    /// Finished.
    Finished,
}

/// What happens to the writer.
#[derive(Debug)]
pub enum WriterEvent {
    /// More items are asked for, up to so many.
    StageRequested(i64),
    /// A result came in.
    Received(SendResult),
    /// Nothing will come in any more.
    Closed,
    /// The batch was written; so many of its items were put back for another try.
    Written { requeued: u64 },
    /// The batch could not be written.
    WriteFailed,
}

/// What the writer asks for.
#[derive(Debug)]
pub enum WriterAction {
    /// Wait for the next event.
    Wait,
    /// Write these results.
    Write(Vec<SendResult>),
    /// Stage up to so many items and hand them over.
    Stage(i64),
    /// Stop.
    Finish,
}

/// What a [`WriterEvent`] stands for.
pub enum EventView {
    StageRequested(i64),
    Received(ResultView),
    Closed,
    Written { requeued: u64 },
    WriteFailed,
}

/// What a [`WriterAction`] stands for.
pub enum ActionView {
    Wait,
    Write(Seq<ResultView>),
    Stage(i64),
    Finish,
}

impl View for WriterEvent {
    type V = EventView;

    open spec fn view(&self) -> EventView {
        match *self {
            WriterEvent::StageRequested(limit) => EventView::StageRequested(limit),
            WriterEvent::Received(result) => EventView::Received(result@),
            WriterEvent::Closed => EventView::Closed,
            WriterEvent::Written { requeued } => EventView::Written { requeued },
            WriterEvent::WriteFailed => EventView::WriteFailed,
        }
    }
}

impl View for WriterAction {
    type V = ActionView;

    open spec fn view(&self) -> ActionView {
        match *self {
            WriterAction::Wait => ActionView::Wait,
            WriterAction::Write(batch) => ActionView::Write(batch.deep_view()),
            WriterAction::Stage(limit) => ActionView::Stage(limit),
            WriterAction::Finish => ActionView::Finish,
        }
    }
}

/// The state of the writer.
pub struct WriterView {
    /// The results that wait to be written.
    pub buffer: Seq<ResultView>,
    /// How many items are done with.
    pub completed: nat,
    /// How many times an item was put back for another try.
    pub requeued: nat,
    pub phase: Phase,
}

impl WriterView {
    /// The writer before anything happened.
    pub open spec fn start() -> WriterView {
        WriterView { buffer: Seq::empty(), completed: 0, requeued: 0, phase: Phase::Idle }
    }

    /// The buffer never fills up, and is empty while a batch is being written and at the end.
    pub open spec fn wf(self) -> bool {
        &&& self.buffer.len() < WRITE_BUFFER_SIZE
        &&& !(self.phase is Idle) ==> self.buffer.len() == 0
    }

    /// Whether the writer can be told of an event.
    pub open spec fn accepts(self, event: EventView) -> bool {
        match self.phase {
            Phase::Idle => match event {
                EventView::StageRequested(_) | EventView::Received(_) | EventView::Closed => true,
                _ => false,
            },
            Phase::Writing { count, .. } => match event {
                EventView::Written { requeued } => requeued <= count,
                EventView::WriteFailed => true,
                _ => false,
            },
            Phase::Finished => false,
        }
    }

    /// Hands the buffer out to be written.
    pub open spec fn write(self, next: Next) -> (WriterView, ActionView) {
        (
            WriterView {
                buffer: Seq::empty(),
                phase: Phase::Writing { count: self.buffer.len() as u64, next },
                ..self
            },
            ActionView::Write(self.buffer),
        )
    }

    /// Turns to what comes next.
    pub open spec fn turn(self, next: Next) -> (WriterView, ActionView) {
        match next {
            Next::Wait => (WriterView { phase: Phase::Idle, ..self }, ActionView::Wait),
            Next::Stage(limit) => (
                WriterView { phase: Phase::Idle, ..self },
                ActionView::Stage(limit),
            ),
            Next::Finish => (WriterView { phase: Phase::Finished, ..self }, ActionView::Finish),
        }
    }

    /// Writes what is buffered, if anything is, and then turns to what comes next.
    pub open spec fn write_then(self, next: Next) -> (WriterView, ActionView) {
        if self.buffer.len() == 0 {
            self.turn(next)
        } else {
            self.write(next)
        }
    }

    /// What an event leads to.
    pub open spec fn step(self, event: EventView) -> (WriterView, ActionView) {
        match event {
            EventView::StageRequested(limit) => self.write_then(Next::Stage(limit)),
            EventView::Received(result) => {
                let filled = WriterView { buffer: self.buffer.push(result), ..self };
                if filled.buffer.len() >= WRITE_BUFFER_SIZE {
                    filled.write(Next::Wait)
                } else {
                    (filled, ActionView::Wait)
                }
            },
            EventView::Closed => self.write_then(Next::Finish),
            EventView::Written { requeued } => WriterView {
                completed: (self.completed + self.phase->count - requeued) as nat,
                requeued: self.requeued + requeued as nat,
                ..self
            }.turn(self.phase->next),
            EventView::WriteFailed => self.turn(self.phase->next),
        }
    }
}

/// The writer.
pub struct Writer {
    buffer: Vec<SendResult>,
    completed: u64,
    requeued: u64,
    phase: Phase,
}

impl View for Writer {
    type V = WriterView;

    closed spec fn view(&self) -> WriterView {
        WriterView {
            buffer: self.buffer.deep_view(),
            completed: self.completed as nat,
            requeued: self.requeued as nat,
            phase: self.phase,
        }
    }
}

impl Writer {
    /// Starts with an empty buffer.
    pub fn new() -> (r: Self)
        ensures
            r@ == WriterView::start(),
            r@.wf(),
    {
        let r = Writer { buffer: Vec::new(), completed: 0, requeued: 0, phase: Phase::Idle };
        assert(r@.buffer =~= Seq::empty());
        r
    }

    /// How many items are done with.
    pub fn completed(&self) -> (r: u64)
        ensures
            r == self@.completed,
    {
        self.completed
    }

    /// How many times an item was put back for another try.
    pub fn requeued(&self) -> (r: u64)
        ensures
            r == self@.requeued,
    {
        self.requeued
    }

    fn turn(&mut self, next: Next) -> (r: WriterAction)
        ensures
            (final(self)@, r@) == old(self)@.turn(next),
    {
        match next {
            Next::Wait => {
                self.phase = Phase::Idle;
                WriterAction::Wait
            },
            Next::Stage(limit) => {
                self.phase = Phase::Idle;
                WriterAction::Stage(limit)
            },
            Next::Finish => {
                self.phase = Phase::Finished;
                WriterAction::Finish
            },
        }
    }

    fn write(&mut self, next: Next) -> (r: WriterAction)
        ensures
            (final(self)@, r@) == old(self)@.write(next),
    {
        let count: u64 = self.buffer.len() as u64;
        let mut batch: Vec<SendResult> = Vec::new();
        batch.append(&mut self.buffer);
        self.phase = Phase::Writing { count, next };
        assert(batch.deep_view() =~= old(self)@.buffer);
        assert(self@.buffer =~= Seq::empty());
        WriterAction::Write(batch)
    }

    fn write_then(&mut self, next: Next) -> (r: WriterAction)
        ensures
            (final(self)@, r@) == old(self)@.write_then(next),
    {
        if self.buffer.len() == 0 {
            self.turn(next)
        } else {
            self.write(next)
        }
    }

    /// Takes an event in and says what to do.
    pub fn step(&mut self, event: WriterEvent) -> (r: WriterAction)
        requires
            old(self)@.wf(),
            old(self)@.accepts(event@),
            event is Written ==> old(self)@.completed + old(self)@.requeued
                + old(self)@.phase->count <= u64::MAX,
        ensures
            (final(self)@, r@) == old(self)@.step(event@),
            final(self)@.wf(),
    {
        match event {
            WriterEvent::StageRequested(limit) => self.write_then(Next::Stage(limit)),
            WriterEvent::Received(result) => {
                self.buffer.push(result);
                assert(self@.buffer =~= old(self)@.buffer.push(result@));
                if self.buffer.len() >= WRITE_BUFFER_SIZE {
                    self.write(Next::Wait)
                } else {
                    WriterAction::Wait
                }
            },
            WriterEvent::Closed => self.write_then(Next::Finish),
            WriterEvent::Written { requeued } => {
                if let Phase::Writing { count, next } = self.phase {
                    self.completed = self.completed + (count - requeued);
                    self.requeued = self.requeued + requeued;
                    self.turn(next)
                } else {
                    WriterAction::Wait
                }
            },
            WriterEvent::WriteFailed => {
                if let Phase::Writing { next, .. } = self.phase {
                    self.turn(next)
                } else {
                    WriterAction::Wait
                }
            },
        }
    }
}

/// The state of the writer after the events `events`, and what it asked for on the way.
pub open spec fn writer_run(events: Seq<EventView>) -> (WriterView, Seq<ActionView>)
    decreases events.len(),
{
    if events.len() == 0 {
        (WriterView::start(), Seq::empty())
    } else {
        let (state, actions) = writer_run(events.drop_last());
        let (after, action) = state.step(events.last());
        (after, actions.push(action))
    }
}

/// Whether every event of `events` came when the writer could take it.
pub open spec fn writer_accepts(events: Seq<EventView>) -> bool
    decreases events.len(),
{
    if events.len() == 0 {
        true
    } else {
        &&& writer_accepts(events.drop_last())
        &&& writer_run(events.drop_last()).0.accepts(events.last())
    }
}

/// The results that came in, in order.
pub open spec fn received(events: Seq<EventView>) -> Seq<ResultView>
    decreases events.len(),
{
    if events.len() == 0 {
        Seq::empty()
    } else {
        match events.last() {
            EventView::Received(result) => received(events.drop_last()).push(result),
            _ => received(events.drop_last()),
        }
    }
}

/// The results that were handed out to be written, in order.
pub open spec fn handed_out(actions: Seq<ActionView>) -> Seq<ResultView>
    decreases actions.len(),
{
    if actions.len() == 0 {
        Seq::empty()
    } else {
        match actions.last() {
            ActionView::Write(batch) => handed_out(actions.drop_last()) + batch,
            _ => handed_out(actions.drop_last()),
        }
    }
}

proof fn lemma_handed_out_push(actions: Seq<ActionView>, action: ActionView)
    ensures
        handed_out(actions.push(action)) == match action {
            ActionView::Write(batch) => handed_out(actions) + batch,
            _ => handed_out(actions),
        },
{
    assert(actions.push(action).drop_last() =~= actions);
}

/// No result is lost, written twice or moved: what was handed out to be written, followed by what
/// is still buffered, is what came in. The buffer holds fewer results than are written at once.
pub proof fn writer_loses_nothing(events: Seq<EventView>)
    requires
        writer_accepts(events),
    ensures
        writer_run(events).0.wf(),
        handed_out(writer_run(events).1) + writer_run(events).0.buffer == received(events),
    decreases events.len(),
{
    let (after, actions) = writer_run(events);
    if events.len() == 0 {
        assert(handed_out(actions) + after.buffer =~= received(events));
    } else {
        let fewer = events.drop_last();
        writer_loses_nothing(fewer);
        let (state, before) = writer_run(fewer);
        let (_, action) = state.step(events.last());
        lemma_handed_out_push(before, action);
        assert(handed_out(actions) + after.buffer =~= received(events)) by {
            match events.last() {
                EventView::Received(result) => {
                    assert(handed_out(before) + state.buffer.push(result) =~= (handed_out(before)
                        + state.buffer).push(result));
                },
                _ => {},
            }
        }
    }
}

/// When the writer stages items, and when it finishes, every result that came in before has been
/// handed out to be written.
pub proof fn writer_is_caught_up(events: Seq<EventView>)
    requires
        writer_accepts(events),
        events.len() > 0,
        writer_run(events).1.last() is Stage || writer_run(events).1.last() is Finish,
    ensures
        handed_out(writer_run(events).1) == received(events),
{
    writer_loses_nothing(events);
    writer_loses_nothing(events.drop_last());
    let (after, actions) = writer_run(events);
    assert(after.buffer.len() == 0);
    assert(handed_out(actions) + after.buffer =~= handed_out(actions));
}

/// How many results stand in batches that could not be written.
pub open spec fn unwritten(events: Seq<EventView>) -> nat
    decreases events.len(),
{
    if events.len() == 0 {
        0
    } else {
        let before = unwritten(events.drop_last());
        match events.last() {
            EventView::WriteFailed => before + writer_run(
                events.drop_last(),
            ).0.phase->count as nat,
            _ => before,
        }
    }
}

/// How many results are being written.
pub open spec fn in_flight(phase: Phase) -> nat {
    match phase {
        Phase::Writing { count, .. } => count as nat,
        _ => 0,
    }
}

/// Every result that was handed out is counted once: as done with, as put back for another try,
/// as part of a batch that could not be written, or as being written.
pub proof fn writer_counts_everything(events: Seq<EventView>)
    requires
        writer_accepts(events),
    ensures
        ({
            let (state, actions) = writer_run(events);
            state.completed + state.requeued + unwritten(events) + in_flight(state.phase)
                == handed_out(actions).len()
        }),
    decreases events.len(),
{
    if events.len() > 0 {
        let fewer = events.drop_last();
        writer_counts_everything(fewer);
        writer_loses_nothing(fewer);
        let (state, before) = writer_run(fewer);
        let (_, action) = state.step(events.last());
        lemma_handed_out_push(before, action);
    }
}

/// How many items were put back, as the writes tell.
pub open spec fn told_put_back(events: Seq<EventView>) -> nat
    decreases events.len(),
{
    if events.len() == 0 {
        0
    } else {
        told_put_back(events.drop_last()) + match events.last() {
            EventView::Written { requeued } => requeued as nat,
            _ => 0,
        }
    }
}

/// The writer counts as put back exactly what the writes tell, and so as done with all else that was
/// written.
pub proof fn the_writer_counts_what_was_put_back(events: Seq<EventView>)
    requires
        writer_accepts(events),
    ensures
        writer_run(events).0.requeued == told_put_back(events),
        writer_run(events).0.completed + told_put_back(events) + unwritten(events) + in_flight(
            writer_run(events).0.phase,
        ) == handed_out(writer_run(events).1).len(),
    decreases events.len(),
{
    writer_counts_everything(events);
    lemma_put_back(events);
}

proof fn lemma_put_back(events: Seq<EventView>)
    ensures
        writer_run(events).0.requeued == told_put_back(events),
    decreases events.len(),
{
    if events.len() > 0 {
        lemma_put_back(events.drop_last());
    }
}

/// The requests for more items, in order.
pub open spec fn stages_asked(events: Seq<EventView>) -> Seq<i64>
    decreases events.len(),
{
    if events.len() == 0 {
        Seq::empty()
    } else {
        match events.last() {
            EventView::StageRequested(limit) => stages_asked(events.drop_last()).push(limit),
            _ => stages_asked(events.drop_last()),
        }
    }
}

/// The requests that were met, in order.
pub open spec fn stages_met(actions: Seq<ActionView>) -> Seq<i64>
    decreases actions.len(),
{
    if actions.len() == 0 {
        Seq::empty()
    } else {
        match actions.last() {
            ActionView::Stage(limit) => stages_met(actions.drop_last()).push(limit),
            _ => stages_met(actions.drop_last()),
        }
    }
}

/// Every request for more items is met, in order and with its own number, at once or when what came
/// before it has been written; none is met twice. The writer finishes once nothing comes in any more,
/// and not before.
pub proof fn every_request_is_met(events: Seq<EventView>)
    requires
        writer_accepts(events),
    ensures
        ({
            let (state, actions) = writer_run(events);
            let closed = exists|i: int| 0 <= i < events.len() && #[trigger] events[i] is Closed;
            &&& match state.phase {
                Phase::Writing { next: Next::Stage(limit), .. } => stages_met(actions).push(limit)
                    == stages_asked(events),
                _ => stages_met(actions) == stages_asked(events),
            }
            &&& closed <==> match state.phase {
                Phase::Writing { next: Next::Finish, .. } => true,
                Phase::Finished => true,
                _ => false,
            }
            &&& events.len() > 0 ==> (actions.last() is Finish <==> state.phase is Finished)
        }),
    decreases events.len(),
{
    if events.len() > 0 {
        let fewer = events.drop_last();
        every_request_is_met(fewer);
        let (state, actions) = writer_run(events);
        let (before, past) = writer_run(fewer);
        assert(actions.drop_last() =~= past);
        if events.last() is Closed {
            assert(events[events.len() - 1] is Closed);
        }
        if exists|i: int| 0 <= i < fewer.len() && #[trigger] fewer[i] is Closed {
            let i = choose|i: int| 0 <= i < fewer.len() && #[trigger] fewer[i] is Closed;
            assert(events[i] is Closed);
        }
        if exists|i: int| 0 <= i < events.len() && #[trigger] events[i] is Closed {
            let i = choose|i: int| 0 <= i < events.len() && #[trigger] events[i] is Closed;
            if i < fewer.len() {
                assert(fewer[i] is Closed);
            }
        }
    }
}

/// Results are written a hundred at a time, or as many as there are where more items are asked for
/// or nothing comes in any more. Nothing is written where nothing waits.
pub proof fn results_wait_until_a_hundred_are_there(state: WriterView, event: EventView)
    requires
        state.wf(),
        state.accepts(event),
    ensures
        ({
            let (after, action) = state.step(event);
            match event {
                EventView::Received(result) => {
                    let held = state.buffer.push(result);
                    &&& held.len() < 100 ==> action is Wait && after.buffer == held
                    &&& held.len() == 100 ==> action == ActionView::Write(held)
                        && after.buffer.len() == 0
                },
                EventView::StageRequested(limit) => {
                    &&& state.buffer.len() > 0 ==> action == ActionView::Write(state.buffer)
                    &&& state.buffer.len() == 0 ==> action == ActionView::Stage(limit)
                },
                EventView::Closed => {
                    &&& state.buffer.len() > 0 ==> action == ActionView::Write(state.buffer)
                    &&& state.buffer.len() == 0 ==> action is Finish
                },
                EventView::Written { .. } | EventView::WriteFailed => action == match state.phase {
                    Phase::Writing { next: Next::Stage(limit), .. } => ActionView::Stage(limit),
                    Phase::Writing { next: Next::Finish, .. } => ActionView::Finish,
                    _ => ActionView::Wait,
                },
            }
        }),
{
}

/// What happens to the writer, and what it asks for, stand for all that they hold.
pub proof fn requests_stand_for_all_they_hold(event: WriterEvent, action: WriterAction)
    ensures
        event matches WriterEvent::StageRequested(n) ==> event@ == EventView::StageRequested(n),
        event matches WriterEvent::Received(result) ==> event@ == EventView::Received(result@),
        event is Closed <==> event@ is Closed,
        event matches WriterEvent::Written { requeued } ==> event@ == (EventView::Written {
            requeued,
        }),
        event is WriteFailed <==> event@ is WriteFailed,
        action is Wait <==> action@ is Wait,
        action matches WriterAction::Write(batch) ==> (action@ matches ActionView::Write(views) && {
            &&& views.len() == batch@.len()
            &&& forall|i: int| 0 <= i < batch@.len() ==> #[trigger] views[i] == batch@[i]@
        }),
        action matches WriterAction::Stage(n) ==> action@ == ActionView::Stage(n),
        action is Finish <==> action@ is Finish,
{
}

} // verus!
