//! The decisions of a responder that serves one socket until it is told to
//! stop.
//!
//! The responder itself binds the socket, receives, sends and polls the stop
//! signal; after each of these it reports what happened and is told here
//! what to do next. Nothing in this module touches a socket.

use vstd::prelude::*;
use crate::error::Error;

verus! {

/// UDP port on which DNS queries arrive.
pub const DNS_PORT: u16 = 53;

/// Seconds after which a receive gives up, so that a stop request is
/// noticed even when no datagram arrives.
pub const READ_TIMEOUT_SECS: u64 = 1;

/// Where a responder stands.
#[derive(Debug, Clone, Copy, PartialEq, Eq, Structural)]
pub enum State {
    /// The socket is not bound yet.
    Starting,
    /// Between datagrams: receiving, or polling the stop signal.
    Listening,
    /// A datagram is in the buffer and is being answered.
    Processing,
    /// A stop was requested; the socket is being released.
    Stopping,
    /// The responder has ended.
    Stopped,
}

/// What the responder reports.
#[derive(Debug, Clone, Copy, PartialEq, Eq, Structural)]
pub enum Event {
    /// The socket is bound and its receive timeout is set.
    Bound,
    /// The socket could not be bound or set up.
    BindFailed,
    /// A datagram arrived before the timeout.
    Datagram,
    /// No datagram arrived before the timeout.
    Timeout,
    /// The datagram was answered and the response was sent.
    Replied,
    /// The datagram was answered but the response could not be sent.
    SendFailed,
    /// The datagram was refused; no response is sent.
    Ignored(Error),
    /// The stop signal was polled and a stop request was found.
    StopRequested,
    /// The stop signal was polled and nothing was found.
    NoStopRequest,
    /// The socket is released.
    Released,
}

/// What the responder is to do next.
#[derive(Debug, Clone, Copy, PartialEq, Eq, Structural)]
pub enum Action {
    /// Bind the socket and set its receive timeout.
    Bind,
    /// Receive one datagram, or time out.
    Receive,
    /// Turn the datagram into its response and send it to where the
    /// datagram came from.
    Answer,
    /// Poll the stop signal, without blocking.
    PollStop,
    /// Release the socket.
    Release,
    /// End: the responder was stopped.
    Halt,
    /// End with a fatal fault: without the socket nothing can be served.
    Abort,
}

/// What a responder in `state` does when nothing new is known.
pub open spec fn pending(state: State) -> Action {
    match state {
        State::Starting => Action::Bind,
        State::Listening => Action::Receive,
        State::Processing => Action::Answer,
        State::Stopping => Action::Release,
        State::Stopped => Action::Halt,
    }
}

/// The state and the action that follow `event` in `state`. An event that
/// the state does not wait for changes nothing: the state's own action is
/// due again.
pub open spec fn transition(state: State, event: Event) -> (State, Action) {
    match (state, event) {
        (State::Starting, Event::Bound) => (State::Listening, Action::Receive),
        (State::Starting, Event::BindFailed) => (State::Stopped, Action::Abort),
        (State::Listening, Event::Datagram) => (State::Processing, Action::Answer),
        (State::Listening, Event::Timeout) => (State::Listening, Action::PollStop),
        (State::Listening, Event::NoStopRequest) => (State::Listening, Action::Receive),
        (State::Listening, Event::StopRequested) => (State::Stopping, Action::Release),
        (State::Processing, Event::Replied) => (State::Listening, Action::PollStop),
        (State::Processing, Event::SendFailed) => (State::Listening, Action::PollStop),
        (State::Processing, Event::Ignored(_)) => (State::Listening, Action::PollStop),
        (State::Stopping, Event::Released) => (State::Stopped, Action::Halt),
        _ => (state, pending(state)),
    }
}

/// True of the events that report what became of one datagram.
pub open spec fn ends_datagram(event: Event) -> bool {
    event == Event::Replied || event == Event::SendFailed || event is Ignored
}

/// The state in which a responder begins, and its first action.
pub fn start() -> (r: (State, Action))
    ensures
        r == (State::Starting, Action::Bind),
{
    (State::Starting, Action::Bind)
}

/// Decides what follows `event` in `state`.
pub fn step(state: State, event: Event) -> (r: (State, Action))
    ensures
        r == transition(state, event),
{
    match state {
        State::Starting => match event {
            Event::Bound => (State::Listening, Action::Receive),
            Event::BindFailed => (State::Stopped, Action::Abort),
            _ => (State::Starting, Action::Bind),
        },
        State::Listening => match event {
            Event::Datagram => (State::Processing, Action::Answer),
            Event::Timeout => (State::Listening, Action::PollStop),
            Event::NoStopRequest => (State::Listening, Action::Receive),
            Event::StopRequested => (State::Stopping, Action::Release),
            _ => (State::Listening, Action::Receive),
        },
        State::Processing => match event {
            Event::Replied | Event::SendFailed | Event::Ignored(_) => (
                State::Listening,
                Action::PollStop,
            ),
            _ => (State::Processing, Action::Answer),
        },
        State::Stopping => match event {
            Event::Released => (State::Stopped, Action::Halt),
            _ => (State::Stopping, Action::Release),
        },
        State::Stopped => (State::Stopped, Action::Halt),
    }
}

/// No fault of a single datagram ends the responder: whatever became of the
/// datagram, the responder listens again and polls the stop signal next.
pub proof fn datagram_faults_are_recovered(event: Event)
    requires
        ends_datagram(event),
    ensures
        transition(State::Processing, event) == (State::Listening, Action::PollStop),
{
}

/// A stop request is noticed within one receive: after a timeout, and after
/// every datagram, the stop signal is polled before anything is received
/// again, and a request that is found leads to the end by way of releasing
/// the socket.
pub proof fn stop_is_noticed_within_one_receive(outcome: Event)
    requires
        outcome == Event::Timeout || ends_datagram(outcome),
    ensures
        ({
            let state = if outcome == Event::Timeout {
                State::Listening
            } else {
                State::Processing
            };
            let polled = transition(state, outcome);
            let found = transition(polled.0, Event::StopRequested);
            let released = transition(found.0, Event::Released);
            &&& polled == (State::Listening, Action::PollStop)
            &&& found == (State::Stopping, Action::Release)
            &&& released == (State::Stopped, Action::Halt)
        }),
{
}

/// A responder that has ended stays ended, and only a failed bind or a
/// released socket ends one.
pub proof fn stopped_is_final(state: State, event: Event)
    ensures
        transition(State::Stopped, event) == (State::Stopped, Action::Halt),
        transition(state, event).0 == State::Stopped ==> state == State::Stopped || (state
            == State::Starting && event == Event::BindFailed) || (state == State::Stopping && event
            == Event::Released),
        transition(state, event).1 == Action::Abort <==> state == State::Starting && event
            == Event::BindFailed,
{
}

} // verus!
