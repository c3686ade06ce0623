//! What the two peers share: the table entry of a logical connection and the
//! messages a session hands to a connection's worker.

use vstd::prelude::*;

verus! {

/// The table entry of a logical connection: the channel to its worker and,
/// until it fires, the signal that tells the worker its target is reached.
pub struct TcpWarpConnection<S, C> {
    pub sender: S,
    pub connected_sender: Option<C>,
}

/// A message from a session to the worker of one logical connection.
#[derive(Debug, Clone, PartialEq, Eq)]
pub enum WorkerMessage {
    /// Bytes to write to the worker's socket.
    BytesServer { data: Vec<u8> },
    /// The other side closed: write what is queued, then stop.
    Disconnect,
}

} // verus!
