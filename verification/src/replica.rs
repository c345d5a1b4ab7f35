use vstd::prelude::*;
use crate::cache::PeerDirectory;
use crate::node_id::NodeId;
use crate::sink::ConnectedPeer;

verus! {

/// A request received from a replica peer, together with the instant, in
/// microseconds, at which it was enqueued.
pub struct ReplicaRq<T> {
    pub message: T,
    pub enqueued_at: u64,
}

/// Many-to-one funnel for replica traffic. Every registered replica
/// pushes straight onto one shared queue, which the protocol consumer
/// reads in arrival order; a directory remembers which replicas are
/// connected.
pub struct ReplicaHandling<T> {
    capacity: usize,
    queue: Vec<ReplicaRq<T>>,
    connected_clients: PeerDirectory,
    connected_client_count: usize,
}

impl<T> ReplicaHandling<T> {
    /// The pending messages, oldest first.
    pub closed spec fn spec_queue(&self) -> Seq<ReplicaRq<T>> {
        self.queue@
    }

    /// The ids of the replicas currently registered.
    pub closed spec fn spec_registered(&self) -> Set<u32> {
        self.connected_clients@.dom()
    }

    pub closed spec fn spec_count(&self) -> usize {
        self.connected_client_count
    }

    pub closed spec fn spec_capacity(&self) -> usize {
        self.capacity
    }

    /// The replica count always equals the number of registered replicas.
    pub open spec fn wf(&self) -> bool {
        &&& self.spec_registered().finite()
        &&& self.spec_count() == self.spec_registered().len()
    }

    pub fn new(capacity: usize) -> (r: Self)
        ensures
            r.wf(),
            r.spec_queue() == Seq::<ReplicaRq<T>>::empty(),
            r.spec_registered() == Set::<u32>::empty(),
            r.spec_count() == 0,
            r.spec_capacity() == capacity,
    {
        ReplicaHandling {
            capacity,
            queue: Vec::new(),
            connected_clients: PeerDirectory::new(),
            connected_client_count: 0,
        }
    }

    /// Registers a replica peer and hands back its direct sink. A replica
    /// that is already present is not counted twice; its prior sink is
    /// simply superseded.
    pub fn init_client(&mut self, peer_id: NodeId) -> (r: ConnectedPeer<T>)
        requires
            old(self).wf(),
            old(self).spec_count() < usize::MAX,
        ensures
            final(self).wf(),
            final(self).spec_queue() == old(self).spec_queue(),
            final(self).spec_capacity() == old(self).spec_capacity(),
            final(self).spec_registered() == old(self).spec_registered().insert(peer_id.0),
            old(self).spec_registered().contains(peer_id.0) ==> final(self).spec_count() == old(self).spec_count(),
            !old(self).spec_registered().contains(peer_id.0) ==> final(self).spec_count() == old(self).spec_count() + 1,
            r.spec_client_id() == peer_id,
            !r.is_pooled(),
    {
        let peer = ConnectedPeer::new_unpooled(peer_id);
        match self.connected_clients.insert(peer_id.0, peer_id.0 as usize) {
            None => {
                self.connected_client_count = self.connected_client_count + 1;
            }
            Some(_) => {
                // The superseded sink is unpooled; disconnecting it is a
                // no-op, and the shared queue stays open for it.
            }
        }
        peer
    }

    /// Looks a replica up in the directory and hands back a direct sink
    /// for it, if it is registered.
    pub fn resolve_connection(&self, peer_id: NodeId) -> (r: Option<ConnectedPeer<T>>)
        ensures
            self.spec_registered().contains(peer_id.0) ==> (r matches Some(p) && p.spec_client_id()
                == peer_id && !p.is_pooled()),
            !self.spec_registered().contains(peer_id.0) ==> r is None,
    {
        match self.connected_clients.get(peer_id.0) {
            Some(_) => Some(ConnectedPeer::new_unpooled(peer_id)),
            None => None,
        }
    }

    /// Enqueues a message a replica pushed on its direct sink, stamped
    /// with its arrival instant.
    pub fn push_message(&mut self, message: T, now: u64)
        ensures
            final(self).spec_queue() == old(self).spec_queue().push(
                ReplicaRq { message, enqueued_at: now },
            ),
            final(self).spec_registered() == old(self).spec_registered(),
            final(self).spec_count() == old(self).spec_count(),
            final(self).spec_capacity() == old(self).spec_capacity(),
            old(self).wf() ==> final(self).wf(),
    {
        self.queue.push(ReplicaRq { message, enqueued_at: now });
    }

    /// Takes the oldest pending replica message. An empty queue yields
    /// nothing when a timeout is given; a receive without a timeout
    /// blocks until a message is pending, so it is only meaningful here
    /// when one already is.
    pub fn receive_from_replicas(&mut self, timeout_micros: Option<u64>) -> (r: Option<T>)
        requires
            timeout_micros is None ==> old(self).spec_queue().len() > 0,
        ensures
            final(self).spec_registered() == old(self).spec_registered(),
            final(self).spec_count() == old(self).spec_count(),
            final(self).spec_capacity() == old(self).spec_capacity(),
            old(self).wf() ==> final(self).wf(),
            old(self).spec_queue().len() > 0 ==> (r == Some(old(self).spec_queue()[0].message)
                && final(self).spec_queue() == old(self).spec_queue().skip(1)),
            old(self).spec_queue().len() == 0 ==> r is None && final(self).spec_queue() == old(self).spec_queue(),
    {
        if self.queue.len() == 0 {
            None
        } else {
            let rq = self.queue.remove(0);
            proof {
                assert(self.queue@ =~= old(self).spec_queue().skip(1));
            }
            Some(rq.message)
        }
    }

    /// How many replica messages are pending.
    pub fn pending_messages(&self) -> (r: usize)
        ensures
            r == self.spec_queue().len(),
    {
        self.queue.len()
    }

    /// How many replicas are registered.
    pub fn connected_count(&self) -> (r: usize)
        ensures
            r == self.spec_count(),
    {
        self.connected_client_count
    }
}

} // verus!
