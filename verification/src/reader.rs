//! Reading lines: what the task does that reads lines and hands them over.

use vstd::prelude::*;

verus! {

/// What happens to the task.
#[derive(Debug)]
pub enum ReadEvent {
    /// A line was read, without its line break.
    Line(String),
    /// The input is at its end.
    End,
    /// The input could not be read, for this reason.
    Failed(String),
    /// The line was handed over.
    Sent,
    /// Nobody takes lines any more.
    ReceiverGone,
}

/// What the task does next.
#[derive(Debug)]
pub enum ReadAction {
    /// Read the next line.
    Read,
    /// Hand this line over.
    Send(String),
    /// Stop; all is well.
    Finish,
    /// Stop, and report this reason.
    Fail(String),
}

/// What a [`ReadEvent`] stands for.
pub enum ReadEventView {
    Line(Seq<char>),
    End,
    Failed(Seq<char>),
    Sent,
    ReceiverGone,
}

/// What a [`ReadAction`] stands for.
pub enum ReadActionView {
    Read,
    Send(Seq<char>),
    Finish,
    Fail(Seq<char>),
}

impl View for ReadEvent {
    type V = ReadEventView;

    open spec fn view(&self) -> ReadEventView {
        match *self {
            ReadEvent::Line(line) => ReadEventView::Line(line@),
            ReadEvent::End => ReadEventView::End,
            ReadEvent::Failed(reason) => ReadEventView::Failed(reason@),
            ReadEvent::Sent => ReadEventView::Sent,
            ReadEvent::ReceiverGone => ReadEventView::ReceiverGone,
        }
    }
}

impl View for ReadAction {
    type V = ReadActionView;

    open spec fn view(&self) -> ReadActionView {
        match *self {
            ReadAction::Read => ReadActionView::Read,
            ReadAction::Send(line) => ReadActionView::Send(line@),
            ReadAction::Finish => ReadActionView::Finish,
            ReadAction::Fail(reason) => ReadActionView::Fail(reason@),
        }
    }
}

/// What an event leads to.
pub open spec fn read_step(event: ReadEventView) -> ReadActionView {
    match event {
        ReadEventView::Line(line) => ReadActionView::Send(line),
        ReadEventView::Sent => ReadActionView::Read,
        ReadEventView::End | ReadEventView::ReceiverGone => ReadActionView::Finish,
        ReadEventView::Failed(reason) => ReadActionView::Fail(reason),
    }
}

/// Takes an event in and says what to do.
pub fn next_read(event: ReadEvent) -> (r: ReadAction)
    ensures
        r@ == read_step(event@),
{
    match event {
        ReadEvent::Line(line) => ReadAction::Send(line),
        ReadEvent::Sent => ReadAction::Read,
        ReadEvent::End => ReadAction::Finish,
        ReadEvent::ReceiverGone => ReadAction::Finish,
        ReadEvent::Failed(reason) => ReadAction::Fail(reason),
    }
}

/// Whether `event` can follow when the task was told to do `action`.
pub open spec fn follows(action: ReadActionView, event: ReadEventView) -> bool {
    match action {
        ReadActionView::Read => event is Line || event is End || event is Failed,
        ReadActionView::Send(_) => event is Sent || event is ReceiverGone,
        ReadActionView::Finish | ReadActionView::Fail(_) => false,
    }
}

/// What the task is doing after `events`.
pub open spec fn doing(events: Seq<ReadEventView>) -> ReadActionView {
    if events.len() == 0 {
        ReadActionView::Read
    } else {
        read_step(events.last())
    }
}

/// Whether each of `events` followed from what the task was doing.
pub open spec fn is_reading(events: Seq<ReadEventView>) -> bool
    decreases events.len(),
{
    if events.len() == 0 {
        true
    } else {
        is_reading(events.drop_last()) && follows(doing(events.drop_last()), events.last())
    }
}

/// The lines that were read, in order.
pub open spec fn lines_read(events: Seq<ReadEventView>) -> Seq<Seq<char>>
    decreases events.len(),
{
    if events.len() == 0 {
        Seq::empty()
    } else {
        match events.last() {
            ReadEventView::Line(line) => lines_read(events.drop_last()).push(line),
            _ => lines_read(events.drop_last()),
        }
    }
}

/// The lines that were handed over, in order.
pub open spec fn lines_sent(events: Seq<ReadEventView>) -> Seq<Seq<char>>
    decreases events.len(),
{
    if events.len() == 0 {
        Seq::empty()
    } else {
        match (events.last(), doing(events.drop_last())) {
            (ReadEventView::Sent, ReadActionView::Send(line)) => lines_sent(
                events.drop_last(),
            ).push(line),
            _ => lines_sent(events.drop_last()),
        }
    }
}

/// Every line that was read is handed over, in order and as it stands, but for the one that is on
/// its way and the one that nobody took.
pub proof fn every_line_is_handed_over(events: Seq<ReadEventView>)
    requires
        is_reading(events),
    ensures
        match doing(events) {
            ReadActionView::Read | ReadActionView::Fail(_) => lines_sent(events) == lines_read(
                events,
            ),
            ReadActionView::Send(line) => lines_sent(events).push(line) == lines_read(events),
            ReadActionView::Finish => match events.last() {
                ReadEventView::End => lines_sent(events) == lines_read(events),
                _ => lines_sent(events) == lines_read(events).drop_last(),
            },
        },
    decreases events.len(),
{
    if events.len() > 0 {
        let fewer = events.drop_last();
        every_line_is_handed_over(fewer);
        match doing(fewer) {
            ReadActionView::Send(line) => {
                assert(lines_sent(fewer).push(line).drop_last() =~= lines_sent(fewer));
            },
            _ => {},
        }
    }
}

/// The task stops at the end of the input, where nobody takes lines any more, and where the input
/// cannot be read. It reports a reason in the last case alone, and that very one.
pub proof fn a_failure_is_reported(events: Seq<ReadEventView>)
    requires
        is_reading(events),
    ensures
        forall|reason: Seq<char>|
            doing(events) == ReadActionView::Fail(reason) <==> events.len() > 0 && events.last()
                == ReadEventView::Failed(reason),
        doing(events) is Finish <==> events.len() > 0 && (events.last() is End || events.last()
            is ReceiverGone),
{
}

/// What happens to the task, and what it does next, stand for all that they hold.
pub proof fn lines_stand_for_all_they_hold(event: ReadEvent, action: ReadAction)
    ensures
        event matches ReadEvent::Line(line) ==> event@ == ReadEventView::Line(line@),
        event is End <==> event@ is End,
        event matches ReadEvent::Failed(reason) ==> event@ == ReadEventView::Failed(reason@),
        event is Sent <==> event@ is Sent,
        event is ReceiverGone <==> event@ is ReceiverGone,
        action is Read <==> action@ is Read,
        action matches ReadAction::Send(line) ==> action@ == ReadActionView::Send(line@),
        action is Finish <==> action@ is Finish,
        action matches ReadAction::Fail(reason) ==> action@ == ReadActionView::Fail(reason@),
{
}

/// A line that was read is handed over as it stands, and the next is read once it was.
pub proof fn one_line_is_handed_over_at_a_time(line: Seq<char>, reason: Seq<char>)
    ensures
        read_step(ReadEventView::Line(line)) == ReadActionView::Send(line),
        read_step(ReadEventView::Sent) == ReadActionView::Read,
        read_step(ReadEventView::End) == ReadActionView::Finish,
        read_step(ReadEventView::ReceiverGone) == ReadActionView::Finish,
        read_step(ReadEventView::Failed(reason)) == ReadActionView::Fail(reason),
{
}

} // verus!
