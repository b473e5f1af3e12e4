use vstd::prelude::*;

verus! {

/// What the reader of a connection saw next.
#[derive(Clone, Copy, Debug, PartialEq, Eq, Structural)]
pub enum ReaderEvent {
    /// A frame that decoded into a message.
    Decoded,
    /// A frame that did not decode.
    Malformed,
    /// The stream ended or failed.
    StreamEnded,
    /// Shutdown was requested.
    Cancelled,
}

/// What the reader does about an event.
#[derive(Clone, Copy, Debug, PartialEq, Eq, Structural)]
pub enum ReaderAction {
    /// Hand the message to the message handler and wait for it.
    Dispatch,
    /// Drop the frame and read on.
    Skip,
    /// Stop reading and run the disconnect handler.
    Disconnect,
    /// Nothing more to do: the reader has stopped.
    Stopped,
}

/// What the writer of a connection saw next.
#[derive(Clone, Copy, Debug, PartialEq, Eq, Structural)]
pub enum WriterEvent {
    /// A message was taken from the outbound queue.
    Queued,
    /// The outbound queue was closed.
    QueueClosed,
    /// Shutdown was requested.
    Cancelled,
    /// Writing the last message to the stream failed.
    WriteFailed,
}

/// What the writer does about an event.
#[derive(Clone, Copy, Debug, PartialEq, Eq, Structural)]
pub enum WriterAction {
    /// Write the message to the stream.
    Write,
    /// Stop writing.
    Stop,
}

/// The shared state of one connection's reader and writer: whether
/// shutdown was requested, and whether the disconnect handler has run.
#[derive(Clone, Copy, Debug, PartialEq, Eq, Structural)]
pub struct PumpState {
    pub cancelled: bool,
    pub disconnected: bool,
}

/// The reader's next state and action.
pub open spec fn reader_next(s: PumpState, e: ReaderEvent) -> (PumpState, ReaderAction) {
    if s.disconnected {
        (s, ReaderAction::Stopped)
    } else if s.cancelled {
        (PumpState { disconnected: true, ..s }, ReaderAction::Disconnect)
    } else {
        match e {
            ReaderEvent::Decoded => (s, ReaderAction::Dispatch),
            ReaderEvent::Malformed => (s, ReaderAction::Skip),
            ReaderEvent::StreamEnded => (
                PumpState { cancelled: true, disconnected: true },
                ReaderAction::Disconnect,
            ),
            ReaderEvent::Cancelled => (
                PumpState { cancelled: true, disconnected: true },
                ReaderAction::Disconnect,
            ),
        }
    }
}

/// The writer's next state and action.
pub open spec fn writer_next(s: PumpState, e: WriterEvent) -> (PumpState, WriterAction) {
    if s.cancelled {
        (s, WriterAction::Stop)
    } else {
        match e {
            WriterEvent::Queued => (s, WriterAction::Write),
            WriterEvent::QueueClosed => (s, WriterAction::Stop),
            WriterEvent::Cancelled => (PumpState { cancelled: true, ..s }, WriterAction::Stop),
            WriterEvent::WriteFailed => (PumpState { cancelled: true, ..s }, WriterAction::Stop),
        }
    }
}

/// One step of either side of a connection, or a request to close it.
pub enum PumpStep {
    Read(ReaderEvent),
    Write(WriterEvent),
    Close,
}

pub open spec fn step_next(s: PumpState, step: PumpStep) -> PumpState {
    match step {
        PumpStep::Read(e) => reader_next(s, e).0,
        PumpStep::Write(e) => writer_next(s, e).0,
        PumpStep::Close => PumpState { cancelled: true, ..s },
    }
}

/// How many times the disconnect handler runs over the steps.
pub open spec fn disconnects(s: PumpState, steps: Seq<PumpStep>) -> nat
    decreases steps.len(),
{
    if steps.len() == 0 {
        0
    } else {
        let fired: nat = match steps[0] {
            PumpStep::Read(e) => if reader_next(s, e).1 == ReaderAction::Disconnect {
                1
            } else {
                0
            },
            _ => 0,
        };
        fired + disconnects(step_next(s, steps[0]), steps.subrange(1, steps.len() as int))
    }
}

impl PumpState {
    /// A connection that has just opened.
    pub fn new() -> (r: Self)
        ensures
            !r.cancelled,
            !r.disconnected,
    {
        PumpState { cancelled: false, disconnected: false }
    }

    /// Requests shutdown; doing so again changes nothing.
    pub fn close(&mut self)
        ensures
            *final(self) == step_next(*old(self), PumpStep::Close),
    {
        self.cancelled = true;
    }

    /// Whether a message may still be queued for sending.
    pub fn accepts_sends(&self) -> (r: bool)
        ensures
            r == !self.cancelled,
    {
        !self.cancelled
    }

    /// Decides what the reader does with what it saw.
    pub fn reader_step(&mut self, event: ReaderEvent) -> (r: ReaderAction)
        ensures
            (*final(self), r) == reader_next(*old(self), event),
    {
        if self.disconnected {
            return ReaderAction::Stopped;
        }
        if self.cancelled {
            self.disconnected = true;
            return ReaderAction::Disconnect;
        }
        match event {
            ReaderEvent::Decoded => ReaderAction::Dispatch,
            ReaderEvent::Malformed => ReaderAction::Skip,
            ReaderEvent::StreamEnded | ReaderEvent::Cancelled => {
                self.cancelled = true;
                self.disconnected = true;
                ReaderAction::Disconnect
            },
        }
    }

    /// Decides what the writer does with what it saw.
    pub fn writer_step(&mut self, event: WriterEvent) -> (r: WriterAction)
        ensures
            (*final(self), r) == writer_next(*old(self), event),
    {
        if self.cancelled {
            return WriterAction::Stop;
        }
        match event {
            WriterEvent::Queued => WriterAction::Write,
            WriterEvent::QueueClosed => WriterAction::Stop,
            WriterEvent::Cancelled | WriterEvent::WriteFailed => {
                self.cancelled = true;
                WriterAction::Stop
            },
        }
    }
}

/// Whatever the reader sees, whatever the writer does and however often the
/// connection is closed, the disconnect handler runs at most once, and never
/// again once it has run.
pub proof fn lemma_disconnect_at_most_once(s: PumpState, steps: Seq<PumpStep>)
    ensures
        disconnects(s, steps) <= 1,
        s.disconnected ==> disconnects(s, steps) == 0,
    decreases steps.len(),
{
    if steps.len() > 0 {
        let next = step_next(s, steps[0]);
        lemma_disconnect_at_most_once(next, steps.subrange(1, steps.len() as int));
        match steps[0] {
            PumpStep::Read(e) => {
                if reader_next(s, e).1 == ReaderAction::Disconnect {
                    assert(next.disconnected);
                }
            },
            _ => {},
        }
    }
}

/// The state after the steps.
pub open spec fn run(s: PumpState, steps: Seq<PumpStep>) -> PumpState
    decreases steps.len(),
{
    if steps.len() == 0 {
        s
    } else {
        run(step_next(s, steps[0]), steps.subrange(1, steps.len() as int))
    }
}

/// Once the disconnect handler has run, the reader stays stopped: whatever
/// happens next, no message is dispatched any more.
pub proof fn lemma_stopped_after_disconnect(s: PumpState, steps: Seq<PumpStep>, e: ReaderEvent)
    requires
        s.disconnected,
    ensures
        run(s, steps).disconnected,
        reader_next(run(s, steps), e).1 == ReaderAction::Stopped,
    decreases steps.len(),
{
    if steps.len() > 0 {
        lemma_stopped_after_disconnect(step_next(s, steps[0]), steps.subrange(1, steps.len() as int), e);
    }
}

/// When the stream ends, whatever the reader, the writer and any number of
/// closes did before and do after, the disconnect handler runs exactly once.
pub proof fn lemma_disconnect_once_when_stream_ends(
    s: PumpState,
    before: Seq<PumpStep>,
    after: Seq<PumpStep>,
)
    requires
        !s.disconnected,
    ensures
        disconnects(s, before + seq![PumpStep::Read(ReaderEvent::StreamEnded)] + after) == 1,
    decreases before.len(),
{
    let all = before + seq![PumpStep::Read(ReaderEvent::StreamEnded)] + after;
    let rest = all.subrange(1, all.len() as int);
    let next = step_next(s, all[0]);
    if before.len() == 0 {
        assert(all[0] == PumpStep::Read(ReaderEvent::StreamEnded));
        lemma_disconnect_at_most_once(next, rest);
    } else {
        let tail = before.subrange(1, before.len() as int);
        assert(rest =~= tail + seq![PumpStep::Read(ReaderEvent::StreamEnded)] + after);
        assert(all[0] == before[0]);
        match before[0] {
            PumpStep::Read(e) => {
                if reader_next(s, e).1 == ReaderAction::Disconnect {
                    lemma_disconnect_at_most_once(next, rest);
                } else {
                    lemma_disconnect_once_when_stream_ends(next, tail, after);
                }
            },
            _ => {
                lemma_disconnect_once_when_stream_ends(next, tail, after);
            },
        }
    }
}

} // verus!
