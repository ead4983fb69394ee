//! The states of a connection, as the protocol defines them.

use vstd::prelude::*;

verus! {

/// Where a connection stands.
#[derive(Clone, Copy, Debug, PartialEq, Eq, Structural)]
pub enum ConnectionState {
    /// No byte stream is open.
    Disconnected,
    /// The handshake is done; the session has not begun.
    Connected,
    /// The server waits for a request.
    Ready,
    /// The server holds a result that has not been pulled or discarded.
    Streaming,
    /// A request failed; the server skips requests until this is
    /// acknowledged or the connection is reset.
    Failed,
    /// The connection is out of use for good.
    Defunct,
}

/// What happens on a connection.
#[derive(Clone, Copy, Debug, PartialEq, Eq, Structural)]
pub enum ConnectionEvent {
    /// The handshake succeeded.
    Opened,
    /// `INIT` was answered with `SUCCESS`.
    InitSucceeded,
    /// `RUN`, `DISCARD_ALL` or `PULL_ALL` was sent.
    Requested,
    /// A result ended with `SUCCESS`.
    StreamEnded,
    /// A request was answered with `FAILURE`.
    RequestFailed,
    /// `ACK_FAILURE` was answered with `SUCCESS`.
    FailureAcknowledged,
    /// `RESET` was answered with `SUCCESS`.
    ResetSucceeded,
    /// The byte stream broke, or the server broke the protocol.
    Broken,
}

/// The state after an event. A connection that is out of use stays so, and
/// one that is not open can only be opened or break; an event that has no
/// meaning in a state leaves the state as it is.
pub open spec fn next_state(state: ConnectionState, event: ConnectionEvent) -> ConnectionState {
    match (state, event) {
        (ConnectionState::Defunct, _) => ConnectionState::Defunct,
        (_, ConnectionEvent::Broken) => ConnectionState::Defunct,
        (ConnectionState::Disconnected, ConnectionEvent::Opened) => ConnectionState::Connected,
        (ConnectionState::Disconnected, _) => ConnectionState::Disconnected,
        (_, ConnectionEvent::RequestFailed) => ConnectionState::Failed,
        (_, ConnectionEvent::ResetSucceeded) => ConnectionState::Ready,
        (ConnectionState::Connected, ConnectionEvent::InitSucceeded) => ConnectionState::Ready,
        (ConnectionState::Ready, ConnectionEvent::Requested) => ConnectionState::Streaming,
        (ConnectionState::Streaming, ConnectionEvent::StreamEnded) => ConnectionState::Ready,
        (ConnectionState::Failed, ConnectionEvent::FailureAcknowledged) => ConnectionState::Ready,
        (s, _) => s,
    }
}

impl ConnectionState {
    /// The state after an event.
    pub fn on(self, event: ConnectionEvent) -> (next: ConnectionState)
        ensures
            next == next_state(self, event),
    {
        match (self, event) {
            (ConnectionState::Defunct, _) => ConnectionState::Defunct,
            (_, ConnectionEvent::Broken) => ConnectionState::Defunct,
            (ConnectionState::Disconnected, ConnectionEvent::Opened) => ConnectionState::Connected,
            (ConnectionState::Disconnected, _) => ConnectionState::Disconnected,
            (_, ConnectionEvent::RequestFailed) => ConnectionState::Failed,
            (_, ConnectionEvent::ResetSucceeded) => ConnectionState::Ready,
            (ConnectionState::Connected, ConnectionEvent::InitSucceeded) => ConnectionState::Ready,
            (ConnectionState::Ready, ConnectionEvent::Requested) => ConnectionState::Streaming,
            (ConnectionState::Streaming, ConnectionEvent::StreamEnded) => ConnectionState::Ready,
            (ConnectionState::Failed, ConnectionEvent::FailureAcknowledged) =>
                ConnectionState::Ready,
            (s, _) => s,
        }
    }

    /// Whether the server serves requests in this state.
    pub fn serves(self) -> (yes: bool)
        ensures
            yes == (self == ConnectionState::Ready || self == ConnectionState::Streaming),
    {
        match self {
            ConnectionState::Ready => true,
            ConnectionState::Streaming => true,
            _ => false,
        }
    }
}

/// After a failure the server serves no request until the failure is
/// acknowledged or the connection is reset, and either of the two makes it
/// ready again.
pub proof fn theorem_failure_then_ack(event: ConnectionEvent)
    ensures
        next_state(ConnectionState::Failed, event) == ConnectionState::Ready <==> (event
            == ConnectionEvent::FailureAcknowledged || event == ConnectionEvent::ResetSucceeded),
        next_state(ConnectionState::Failed, event) == ConnectionState::Ready || next_state(
            ConnectionState::Failed,
            event,
        ) == ConnectionState::Failed || next_state(ConnectionState::Failed, event)
            == ConnectionState::Defunct,
        next_state(ConnectionState::Failed, ConnectionEvent::Requested) == ConnectionState::Failed,
{
}

/// A connection that is out of use stays out of use, and every open
/// connection fails on a failure and breaks on a break.
pub proof fn theorem_states(state: ConnectionState, event: ConnectionEvent)
    ensures
        next_state(ConnectionState::Defunct, event) == ConnectionState::Defunct,
        next_state(state, ConnectionEvent::Broken) == ConnectionState::Defunct,
        state != ConnectionState::Defunct && state != ConnectionState::Disconnected ==> next_state(
            state,
            ConnectionEvent::RequestFailed,
        ) == ConnectionState::Failed && next_state(state, ConnectionEvent::ResetSucceeded)
            == ConnectionState::Ready,
{
}

} // verus!
