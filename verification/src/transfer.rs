//! What the measuring loops do with the outcome of each send or receive.

use vstd::prelude::*;
use crate::config::SocketType;

verus! {

/// What a socket call reported.
#[derive(Clone, Copy, PartialEq, Eq, Structural, Debug)]
pub enum IoOutcome {
    /// The call moved this many bytes.
    Transferred(usize),
    /// The socket had nothing to give or no room to take.
    WouldBlock,
    /// The socket's timeout ran out.
    TimedOut,
    /// Any other error.
    Failed,
}

/// What the loop does next.
#[derive(Clone, Copy, PartialEq, Eq, Structural, Debug)]
pub enum IoAction {
    /// Count this many bytes and go on.
    Count(usize),
    /// Count nothing and go on.
    Skip,
    /// Stop draining the socket for now.
    StopDraining,
    /// The run cannot go on.
    Abort,
}

/// Threaded std sockets with timeouts: a timeout or an empty socket is not an error.
pub fn blocking_action(outcome: IoOutcome) -> (action: IoAction)
    ensures
        action == match outcome {
            IoOutcome::Transferred(n) => IoAction::Count(n),
            IoOutcome::WouldBlock => IoAction::Skip,
            IoOutcome::TimedOut => IoAction::Skip,
            IoOutcome::Failed => IoAction::Abort,
        },
{
    match outcome {
        IoOutcome::Transferred(n) => IoAction::Count(n),
        IoOutcome::WouldBlock | IoOutcome::TimedOut => IoAction::Skip,
        IoOutcome::Failed => IoAction::Abort,
    }
}

/// Polled mio sockets: an empty or full socket is not an error, a timeout is.
pub fn polled_action(outcome: IoOutcome) -> (action: IoAction)
    ensures
        action == match outcome {
            IoOutcome::Transferred(n) => IoAction::Count(n),
            IoOutcome::WouldBlock => IoAction::Skip,
            IoOutcome::TimedOut => IoAction::Abort,
            IoOutcome::Failed => IoAction::Abort,
        },
{
    match outcome {
        IoOutcome::Transferred(n) => IoAction::Count(n),
        IoOutcome::WouldBlock => IoAction::Skip,
        IoOutcome::TimedOut | IoOutcome::Failed => IoAction::Abort,
    }
}

/// Tokio sockets drained until they would block.
pub fn draining_action(outcome: IoOutcome) -> (action: IoAction)
    ensures
        action == match outcome {
            IoOutcome::Transferred(n) => IoAction::Count(n),
            IoOutcome::WouldBlock => IoAction::StopDraining,
            IoOutcome::TimedOut => IoAction::Abort,
            IoOutcome::Failed => IoAction::Abort,
        },
{
    match outcome {
        IoOutcome::Transferred(n) => IoAction::Count(n),
        IoOutcome::WouldBlock => IoAction::StopDraining,
        IoOutcome::TimedOut | IoOutcome::Failed => IoAction::Abort,
    }
}

/// Whether a mio handler keeps sending or receiving until its timer runs
/// out: every mio socket type but `MioUdp`, which handles one datagram per
/// readiness event so as not to exhaust the socket.
pub fn drains_socket(socket_t: SocketType) -> (r: bool)
    ensures
        r == (socket_t != SocketType::MioUdp),
{
    match socket_t {
        SocketType::MioUdp => false,
        _ => true,
    }
}

} // verus!
