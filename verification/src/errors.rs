use vstd::prelude::*;
use crate::node_id::NodeId;

verus! {

/// Failures surfaced by the intake layer.
#[derive(PartialEq, Eq, Structural, Clone, Copy, Debug)]
pub enum ClientPoolError {
    /// Internal signal from a collect cycle asking for the pool's own
    /// deletion; never surfaced to the consumer.
    ClosePool,
    /// A push on a direct (replica) sink whose queue is gone.
    UnpooledConnectionClosed(NodeId),
    /// A push or drain on a pooled (client) sink after its disconnection.
    PooledConnectionClosed(NodeId),
    /// The search for an unused pool id exceeded its bound.
    FailedToAllocateClientPoolID,
    /// A client node was asked for client traffic it cannot have.
    NoClientsConnected,
}

impl ClientPoolError {
    /// A short human-readable description of the error.
    pub fn message(&self) -> String {
        match self {
            ClientPoolError::ClosePool => "pool is empty and asks to be closed".to_string(),
            ClientPoolError::UnpooledConnectionClosed(_) => {
                "the unpooled connection is closed".to_string()
            }
            ClientPoolError::PooledConnectionClosed(_) => {
                "the pooled connection is closed".to_string()
            }
            ClientPoolError::FailedToAllocateClientPoolID => {
                "failed to allocate a client pool id".to_string()
            }
            ClientPoolError::NoClientsConnected => {
                "this node has no client intake".to_string()
            }
        }
    }
}

} // verus!
