use vstd::prelude::*;

verus! {

/// Identifier of a node in the system. Values below the configured
/// first-client threshold denote replicas, values at or above it clients.
#[derive(PartialEq, Eq, Structural, Clone, Copy, Debug, Hash)]
pub struct NodeId(pub u32);

impl NodeId {
    pub fn id(&self) -> (r: u32)
        ensures
            r == self.0,
    {
        self.0
    }
}

/// The role a node plays: replicas execute the protocol, clients only
/// send requests into it.
#[derive(PartialEq, Eq, Structural, Clone, Copy, Debug)]
pub enum NodeType {
    Replica,
    Client,
}

} // verus!
