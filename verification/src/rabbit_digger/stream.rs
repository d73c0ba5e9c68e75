//! Running from a stream of configurations: what the supervisor does when a
//! configuration arrives, when the stream ends, and when the servers end.

use crate::config::Config;
use crate::error::Error;
use vstd::prelude::*;

verus! {

/// How long the first configuration may take to arrive, in seconds.
pub const FIRST_CONFIG_TIMEOUT_SECS: u64 = 10;

/// Where the supervisor stands with the stream.
#[derive(Clone, Copy, Debug, PartialEq, Eq, Structural)]
pub enum StreamState {
    /// No configuration arrived yet.
    WaitFirst,
    /// The servers of the last configuration run.
    Serving,
    /// The servers ended; the next configuration will start them again.
    Idle,
    /// The supervisor is done.
    Finished,
}

/// What can happen while the supervisor runs from a stream.
#[derive(Debug)]
pub enum StreamEvent {
    /// The time for the first configuration is over.
    Timeout,
    /// The stream gave a configuration.
    Config(Config),
    /// The stream ended.
    StreamEnded,
    /// The stream failed.
    StreamFailed(Error),
    /// The servers ended, well or with an error.
    Joined(Result<(), Error>),
    /// The configuration that was to be started could not be started.
    StartFailed(Error),
}

/// What the supervisor does next.
#[derive(Debug)]
pub enum StreamAction {
    /// Start the configuration.
    Start(Config),
    /// Stop what runs, then start the configuration.
    Restart(Config),
    /// Wait for the next event.
    Wait,
    /// Leave, with this result.
    Exit(Result<(), Error>),
}

/// The supervisor of a stream of configurations.
#[derive(Debug)]
pub struct StartStream {
    pub state: StreamState,
}

/// How one event takes the supervisor from a state to the next state and
/// to an action.
///
/// While the first configuration is awaited, it starts what arrives; a
/// timeout and the end of the stream are errors, and so is a failure of the
/// stream, which is reported with a note in front. Later a new
/// configuration restarts everything; the end of the servers, well or not,
/// leaves the supervisor waiting for the next configuration; the end of the
/// stream ends the supervisor well, a failure of the stream or of a start
/// ends it with that error. A supervisor that is done stays done.
pub open spec fn stream_step(state: StreamState, event: StreamEvent, next: StreamState, action: StreamAction) -> bool {
    match (state, event) {
        (StreamState::Finished, _) => next == StreamState::Finished && action is Wait,
        (StreamState::WaitFirst, StreamEvent::Config(c)) => next == StreamState::Serving && action == StreamAction::Start(c),
        (StreamState::WaitFirst, StreamEvent::Timeout) | (StreamState::WaitFirst, StreamEvent::StreamEnded) => {
            &&& next == StreamState::Finished
            &&& action matches StreamAction::Exit(Err(Error::Other(msg)))
            &&& msg@ == "The config_stream is empty, can not start."@
        },
        (StreamState::WaitFirst, StreamEvent::StreamFailed(e)) => {
            &&& next == StreamState::Finished
            &&& action matches StreamAction::Exit(Err(Error::WithContext(w)))
            &&& w.context@ == "Failed to get first config."@
            &&& *w.error == e
        },
        (StreamState::WaitFirst, StreamEvent::Joined(_)) => next == StreamState::WaitFirst && action is Wait,
        (_, StreamEvent::StartFailed(e)) => next == StreamState::Finished && action == StreamAction::Exit(Err(e)),
        (_, StreamEvent::Config(c)) => next == StreamState::Serving && action == StreamAction::Restart(c),
        (_, StreamEvent::Joined(_)) => next == StreamState::Idle && action is Wait,
        (_, StreamEvent::StreamEnded) => next == StreamState::Finished && action == StreamAction::Exit(Ok(())),
        (_, StreamEvent::StreamFailed(e)) => next == StreamState::Finished && action == StreamAction::Exit(Err(e)),
        (_, StreamEvent::Timeout) => next == state && action is Wait,
    }
}

impl StartStream {
    pub fn new() -> (r: StartStream)
        ensures
            r.state == StreamState::WaitFirst,
    {
        StartStream { state: StreamState::WaitFirst }
    }

    /// Takes one event in and says what to do next.
    pub fn on_event(&mut self, event: StreamEvent) -> (r: StreamAction)
        ensures
            stream_step(old(self).state, event, final(self).state, r),
    {
        match self.state {
            StreamState::Finished => StreamAction::Wait,
            StreamState::WaitFirst => match event {
                StreamEvent::Config(c) => {
                    self.state = StreamState::Serving;
                    StreamAction::Start(c)
                },
                StreamEvent::Timeout | StreamEvent::StreamEnded => {
                    self.state = StreamState::Finished;
                    StreamAction::Exit(Err(Error::Other("The config_stream is empty, can not start.".to_string())))
                },
                StreamEvent::StreamFailed(e) => {
                    self.state = StreamState::Finished;
                    StreamAction::Exit(crate::error::context(Err(e), "Failed to get first config.".to_string()))
                },
                StreamEvent::Joined(_) => StreamAction::Wait,
                StreamEvent::StartFailed(e) => {
                    self.state = StreamState::Finished;
                    StreamAction::Exit(Err(e))
                },
            },
            _ => match event {
                StreamEvent::StartFailed(e) => {
                    self.state = StreamState::Finished;
                    StreamAction::Exit(Err(e))
                },
                StreamEvent::Config(c) => {
                    self.state = StreamState::Serving;
                    StreamAction::Restart(c)
                },
                StreamEvent::Joined(_) => {
                    self.state = StreamState::Idle;
                    StreamAction::Wait
                },
                StreamEvent::StreamEnded => {
                    self.state = StreamState::Finished;
                    StreamAction::Exit(Ok(()))
                },
                StreamEvent::StreamFailed(e) => {
                    self.state = StreamState::Finished;
                    StreamAction::Exit(Err(e))
                },
                StreamEvent::Timeout => StreamAction::Wait,
            },
        }
    }
}

} // verus!
