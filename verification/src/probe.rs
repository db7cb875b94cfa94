//! What a probe's outcome says about a host.

use vstd::prelude::*;

verus! {

/// How a TCP connection attempt ended.
#[derive(Debug, Clone, Copy, PartialEq, Eq, Structural)]
pub enum ConnectOutcome {
    /// The handshake completed.
    Connected,
    /// The host answered with a reset.
    Refused,
    /// Timeout or any other failure.
    Failed,
}

/// A host is reachable over TCP when it accepted the connection or refused
/// it: a reset is an answer too.
pub fn tcp_reachable(outcome: ConnectOutcome) -> (r: bool)
    ensures
        r == (outcome != ConnectOutcome::Failed),
{
    match outcome {
        ConnectOutcome::Connected => true,
        ConnectOutcome::Refused => true,
        ConnectOutcome::Failed => false,
    }
}

} // verus!
