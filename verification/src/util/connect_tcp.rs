//! Joining two streams: what is read from one is written to the other, in
//! both directions, until both directions have ended.

use vstd::prelude::*;

verus! {

/// The two streams of a pipe.
#[derive(Clone, Copy, Debug, PartialEq, Eq, Structural)]
pub enum Side {
    A,
    B,
}

impl Side {
    /// The other stream.
    pub open spec fn other(self) -> Side {
        match self {
            Side::A => Side::B,
            Side::B => Side::A,
        }
    }

    /// The other stream.
    pub fn opposite(self) -> (r: Side)
        ensures
            r == self.other(),
    {
        match self {
            Side::A => Side::B,
            Side::B => Side::A,
        }
    }
}

/// What happened on one of the streams.
#[derive(Clone, Copy, Debug, PartialEq, Eq, Structural)]
pub enum PipeEvent {
    /// This many bytes were read from the stream.
    Data { from: Side, len: usize },
    /// The stream has no more to read.
    Eof { from: Side },
    /// Reading from the stream, or writing what was read, failed.
    Failed { from: Side },
}

/// What to do next.
#[derive(Clone, Copy, Debug, PartialEq, Eq, Structural)]
pub enum PipeAction {
    /// Write the bytes that were read to this stream.
    Write { to: Side, len: usize },
    /// Close the writing half of this stream, and leave its reading half open.
    Shutdown { to: Side },
    /// Drop what was read.
    Discard,
    /// Stop both directions.
    Abort,
}

/// The pipe: for each direction whether it still copies, and whether
/// anything failed.
#[derive(Clone, Copy, Debug, PartialEq, Eq, Structural)]
pub struct TcpPipe {
    /// Bytes still flow from `A` to `B`.
    pub a_to_b: bool,
    /// Bytes still flow from `B` to `A`.
    pub b_to_a: bool,
    /// A copy failed.
    pub failed: bool,
}

impl TcpPipe {
    /// Whether bytes still flow from the stream `from` to the other one.
    pub open spec fn flows_from(self, from: Side) -> bool {
        !self.failed && match from {
            Side::A => self.a_to_b,
            Side::B => self.b_to_a,
        }
    }

    /// The pipe is done when a copy failed or both directions have ended.
    pub open spec fn done(self) -> bool {
        self.failed || (!self.a_to_b && !self.b_to_a)
    }

    /// The pipe with the direction from `from` ended.
    pub open spec fn with_closed(self, from: Side) -> TcpPipe {
        match from {
            Side::A => TcpPipe { a_to_b: false, ..self },
            Side::B => TcpPipe { b_to_a: false, ..self },
        }
    }

    /// The pipe after an event.
    ///
    /// Data goes to the other stream while its direction is open. The end of
    /// a stream ends its direction, and the other direction goes on. A
    /// failure ends everything.
    pub open spec fn after(self, event: PipeEvent) -> TcpPipe {
        match event {
            PipeEvent::Data { .. } => self,
            PipeEvent::Eof { from } => if self.flows_from(from) {
                self.with_closed(from)
            } else {
                self
            },
            PipeEvent::Failed { .. } => TcpPipe { failed: true, ..self },
        }
    }

    /// What the pipe does with an event.
    pub open spec fn action(self, event: PipeEvent) -> PipeAction {
        match event {
            PipeEvent::Data { from, len } => if self.flows_from(from) {
                PipeAction::Write { to: from.other(), len }
            } else {
                PipeAction::Discard
            },
            PipeEvent::Eof { from } => if self.flows_from(from) {
                PipeAction::Shutdown { to: from.other() }
            } else {
                PipeAction::Discard
            },
            PipeEvent::Failed { .. } => PipeAction::Abort,
        }
    }

    /// A pipe with both directions open.
    pub fn new() -> (r: TcpPipe)
        ensures
            r == (TcpPipe { a_to_b: true, b_to_a: true, failed: false }),
    {
        TcpPipe { a_to_b: true, b_to_a: true, failed: false }
    }

    /// Whether the pipe is done.
    pub fn is_done(&self) -> (r: bool)
        ensures
            r == self.done(),
    {
        self.failed || (!self.a_to_b && !self.b_to_a)
    }

    /// The result of a pipe that is done: an error exactly where a copy failed.
    pub fn succeeded(&self) -> (r: bool)
        ensures
            r == !self.failed,
    {
        !self.failed
    }

    /// Takes an event in and says what to do.
    pub fn on_event(&mut self, event: PipeEvent) -> (r: PipeAction)
        ensures
            *final(self) == old(self).after(event),
            r == old(self).action(event),
    {
        match event {
            PipeEvent::Data { from, len } => {
                if self.is_open(from) {
                    PipeAction::Write { to: from.opposite(), len }
                } else {
                    PipeAction::Discard
                }
            },
            PipeEvent::Eof { from } => {
                if self.is_open(from) {
                    match from {
                        Side::A => {
                            self.a_to_b = false;
                        },
                        Side::B => {
                            self.b_to_a = false;
                        },
                    }
                    PipeAction::Shutdown { to: from.opposite() }
                } else {
                    PipeAction::Discard
                }
            },
            PipeEvent::Failed { from } => {
                self.failed = true;
                PipeAction::Abort
            },
        }
    }

    /// Whether bytes still flow from the stream `from`.
    pub fn is_open(&self, from: Side) -> (r: bool)
        ensures
            r == self.flows_from(from),
    {
        !self.failed && match from {
            Side::A => self.a_to_b,
            Side::B => self.b_to_a,
        }
    }
}

/// When one stream sends and then ends while both directions are open, the
/// other stream gets what was sent and then the end, and what the other
/// stream sends afterwards still arrives: the pipe is not done.
pub proof fn lemma_half_close(pipe: TcpPipe, from: Side, sent: usize, reply: usize)
    requires
        pipe.flows_from(from),
        pipe.flows_from(from.other()),
    ensures
        pipe.action(PipeEvent::Data { from, len: sent }) == (PipeAction::Write { to: from.other(), len: sent }),
        ({
            let after_data = pipe.after(PipeEvent::Data { from, len: sent });
            let after_eof = after_data.after(PipeEvent::Eof { from });
            &&& after_data.action(PipeEvent::Eof { from }) == (PipeAction::Shutdown { to: from.other() })
            &&& !after_eof.done()
            &&& after_eof.action(PipeEvent::Data { from: from.other(), len: reply }) == (PipeAction::Write { to: from, len: reply })
            &&& after_eof.after(PipeEvent::Eof { from: from.other() }).done()
            &&& !after_eof.after(PipeEvent::Eof { from: from.other() }).failed
        }),
{
}

/// The end of one stream never stops the other direction.
pub proof fn lemma_eof_keeps_other_direction(pipe: TcpPipe, from: Side)
    ensures
        pipe.after(PipeEvent::Eof { from }).flows_from(from.other()) == pipe.flows_from(from.other()),
{
}

} // verus!
