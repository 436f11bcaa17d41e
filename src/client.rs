//! The client side of one server: how a failed exchange is reported.

use vstd::prelude::*;
use crate::protocol::ProtocolError;

verus! {

/// Runs one fresh exchange per operation against a configured server; no
/// connection outlives its operation.
pub struct McpClient;

impl McpClient {
    pub fn new() -> McpClient {
        McpClient
    }
}

/// Why one operation against a server failed.
pub enum ClientError {
    /// The server's program could not be started.
    Spawn(String),
    /// The exchange with the started server failed.
    Protocol(ProtocolError),
    /// The server did not finish before the operation's deadline; its process
    /// was stopped.
    TimedOut,
}

/// The likely cause of a failed exchange, for the operator.
#[derive(PartialEq, Eq, Structural, Clone, Copy, Debug)]
pub enum FailureHint {
    /// The server's program is probably not installed.
    MissingBinary,
    /// The server stopped before it answered; it may need a configuration file
    /// in the working directory.
    ClosedEarly,
    /// The server hung past the deadline.
    Unresponsive,
    Other,
}

pub open spec fn hint_of(e: ClientError) -> FailureHint {
    match e {
        ClientError::Spawn(_) => FailureHint::MissingBinary,
        ClientError::Protocol(ProtocolError::ConnectionClosed) => FailureHint::ClosedEarly,
        ClientError::TimedOut => FailureHint::Unresponsive,
        _ => FailureHint::Other,
    }
}

/// The likely cause of a failed exchange.
pub fn failure_hint(e: &ClientError) -> (r: FailureHint)
    ensures
        r == hint_of(*e),
{
    match e {
        ClientError::Spawn(_) => FailureHint::MissingBinary,
        ClientError::Protocol(ProtocolError::ConnectionClosed) => FailureHint::ClosedEarly,
        ClientError::TimedOut => FailureHint::Unresponsive,
        _ => FailureHint::Other,
    }
}

} // verus!
