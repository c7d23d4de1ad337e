//! Decisions of the readiness loop: what a readiness event stands for, and
//! what becomes of a client after its dispatch pass.

use crate::client::ClientError;
use vstd::prelude::*;

verus! {

/// Userdata that marks the listening socket in the readiness set.
pub const LISTENER_KEY: u64 = 0xffff_ffff_ffff_ffff;

/// Userdata that marks the shutdown-signal descriptor in the readiness set.
pub const SIGNAL_KEY: u64 = 0xffff_ffff_ffff_fffe;

/// What a readiness event asks the loop to do.
#[derive(Clone, Copy, Debug, PartialEq, Eq, Structural)]
pub enum LoopAction {
    /// Accept connections until accepting would block, serving each once.
    AcceptAll,
    /// Leave the loop and shut down.
    Shutdown,
    /// Run a dispatch pass for the client at this index of the client table.
    Service(u64),
}

/// The action for a readiness event carrying `key`: the two reserved values
/// stand for the listener and the signal descriptor, every other value indexes
/// the client table.
pub fn classify_event(key: u64) -> (r: LoopAction)
    ensures
        key == LISTENER_KEY ==> r == LoopAction::AcceptAll,
        key == SIGNAL_KEY ==> r == LoopAction::Shutdown,
        key != LISTENER_KEY && key != SIGNAL_KEY ==> r == LoopAction::Service(key),
{
    if key == LISTENER_KEY {
        LoopAction::AcceptAll
    } else if key == SIGNAL_KEY {
        LoopAction::Shutdown
    } else {
        LoopAction::Service(key)
    }
}

/// Whether a client stays connected after its dispatch pass: every error ends it.
pub fn keeps_client(result: &Result<(), ClientError>) -> (r: bool)
    ensures
        r <==> result is Ok,
{
    result.is_ok()
}

} // verus!
