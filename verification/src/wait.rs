//! How a review's wait ends. The report is written whichever way it ends,
//! but only a submitted review can be approved: a timeout and an interrupt
//! are both abandoned.

use vstd::prelude::*;

verus! {

#[derive(Debug, Clone, Copy, PartialEq, Eq, Structural)]
pub enum Ending {
    Submitted,
    Timeout,
    Interrupt,
    /// The server stopped before anything asked it to. The wait cannot see
    /// this itself; the caller reports it rather than blaming the user.
    ServerStopped,
}

/// Whether a wait with this timeout can end by timing out: a timeout of 0
/// means never.
pub fn times_out(timeout_seconds: u64) -> (fires: bool)
    ensures
        fires == (timeout_seconds != 0),
{
    timeout_seconds != 0
}

} // verus!
