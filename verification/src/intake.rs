use vstd::prelude::*;
use crate::channel::BatchChannel;
use crate::channel::ClientRqBatch;
use crate::config::ClientPoolConfig;
use crate::config::DEFAULT_CLIENT_QUEUE;
use crate::config::NODE_CHAN_BOUND;
use crate::errors::ClientPoolError;
use crate::group::ConnectedPeersGroup;
use crate::group::WorkerOutcome;
use crate::pool::live_ids_of;
use crate::node_id::NodeId;
use crate::node_id::NodeType;
use crate::replica::ReplicaHandling;
use crate::replica::ReplicaRq;
use crate::sink::ConnectedPeer;

verus! {

/// Top level of the intake layer: owns the replica funnel on every node
/// and, on replicas, the client pool group together with the batch
/// output channel the pool workers feed and the consumer drains.
pub struct PeerIncomingRqHandling<T> {
    batch_size: usize,
    own_id: NodeId,
    peer_loopback: ConnectedPeer<T>,
    replica_handling: ReplicaHandling<T>,
    client_handling: Option<ConnectedPeersGroup<T>>,
    client_channel: Option<BatchChannel<T>>,
}

impl<T> PeerIncomingRqHandling<T> {
    pub closed spec fn spec_batch_size(&self) -> usize {
        self.batch_size
    }

    pub closed spec fn spec_own_id(&self) -> NodeId {
        self.own_id
    }

    pub closed spec fn spec_loopback(&self) -> ConnectedPeer<T> {
        self.peer_loopback
    }

    pub closed spec fn spec_replica_handling(&self) -> ReplicaHandling<T> {
        self.replica_handling
    }

    pub closed spec fn spec_client_handling(&self) -> Option<ConnectedPeersGroup<T>> {
        self.client_handling
    }

    pub closed spec fn spec_client_channel(&self) -> Option<BatchChannel<T>> {
        self.client_channel
    }

    /// Only replicas run client pools; a client node funnels replica
    /// traffic alone.
    pub open spec fn is_replica_node(&self) -> bool {
        self.spec_client_handling() is Some
    }

    /// The batches waiting in the output channel for the consumer.
    pub open spec fn spec_pending_client_batches(&self) -> nat {
        match self.spec_client_channel() {
            Some(ch) => ch@.len(),
            None => 0,
        }
    }

    pub open spec fn wf(&self) -> bool {
        &&& self.spec_replica_handling().wf()
        &&& self.spec_replica_handling().spec_registered().contains(self.spec_own_id().0)
        &&& !self.spec_loopback().is_pooled()
        &&& self.spec_loopback().spec_client_id() == self.spec_own_id()
        &&& (self.spec_client_handling() is Some <==> self.spec_client_channel() is Some)
        &&& (self.spec_client_handling() matches Some(g) ==> g.wf())
        &&& (self.spec_client_channel() matches Some(ch) ==> ch.wf())
    }

    /// Builds the intake for a node. Every node gets the replica funnel
    /// and registers itself there as its own loopback; a replica also
    /// gets the pool group and the batch output channel.
    pub fn new(id: NodeId, node_type: NodeType, config: ClientPoolConfig) -> (r: Self)
        requires
            config.clients_per_pool > 0,
        ensures
            r.wf(),
            r.spec_own_id() == id,
            r.spec_batch_size() == config.batch_size,
            r.is_replica_node() == (node_type is Replica),
            r.spec_replica_handling().spec_registered() == Set::<u32>::empty().insert(id.0),
            r.spec_replica_handling().spec_count() == 1,
            r.spec_replica_handling().spec_queue() == Seq::<ReplicaRq<T>>::empty(),
            r.spec_pending_client_batches() == 0,
            (r.spec_client_handling() matches Some(g) ==> {
                &&& g.spec_cache() == Map::<u32, usize>::empty()
                &&& g.spec_count() == 0
                &&& g.spec_pools() == Seq::<crate::pool::ConnectedPeersPool<T>>::empty()
                &&& g.spec_clients_per_pool() == config.clients_per_pool
                &&& g.spec_batch_target_size() == config.batch_size
            }),
            (r.spec_client_channel() matches Some(ch) ==> ch.spec_capacity() == NODE_CHAN_BOUND),
    {
        let client_handling: Option<ConnectedPeersGroup<T>>;
        let client_channel: Option<BatchChannel<T>>;
        match node_type {
            NodeType::Replica => {
                client_handling = Some(
                    ConnectedPeersGroup::new(
                        DEFAULT_CLIENT_QUEUE,
                        config.batch_size,
                        id,
                        config.clients_per_pool,
                        config.batch_timeout_micros,
                        config.batch_sleep_micros,
                    ),
                );
                client_channel = Some(BatchChannel::new(NODE_CHAN_BOUND));
            }
            NodeType::Client => {
                client_handling = None;
                client_channel = None;
            }
        }
        let mut replica_handling = ReplicaHandling::new(NODE_CHAN_BOUND);
        let peer_loopback = replica_handling.init_client(id);
        PeerIncomingRqHandling {
            batch_size: config.batch_size,
            own_id: id,
            peer_loopback,
            replica_handling,
            client_handling,
            client_channel,
        }
    }

    pub fn batch_size(&self) -> (r: usize)
        ensures
            r == self.spec_batch_size(),
    {
        self.batch_size
    }

    /// The direct sink this node registered for itself, used for messages
    /// it sends to its own intake.
    pub fn loopback_connection(&self) -> (r: &ConnectedPeer<T>)
        ensures
            r == self.spec_loopback(),
    {
        &self.peer_loopback
    }

    /// Registers a peer connection: a replica goes to the replica funnel,
    /// a client into the pools. Client registration exists on replica
    /// nodes only.
    pub fn init_peer_conn(&mut self, peer: NodeId, node_type: NodeType)
        requires
            old(self).wf(),
            node_type is Client ==> old(self).is_replica_node(),
            old(self).spec_replica_handling().spec_count() < usize::MAX,
            (old(self).spec_client_handling() matches Some(g) ==> g.spec_count() < usize::MAX
                && g.spec_counter() < usize::MAX),
        ensures
            final(self).wf(),
            final(self).spec_own_id() == old(self).spec_own_id(),
            final(self).spec_batch_size() == old(self).spec_batch_size(),
            final(self).is_replica_node() == old(self).is_replica_node(),
            final(self).spec_client_channel() == old(self).spec_client_channel(),
            node_type is Replica ==> {
                &&& final(self).spec_client_handling() == old(self).spec_client_handling()
                &&& final(self).spec_replica_handling().spec_registered() == old(self).spec_replica_handling().spec_registered().insert(peer.0)
                &&& final(self).spec_replica_handling().spec_queue() == old(self).spec_replica_handling().spec_queue()
                &&& (old(self).spec_replica_handling().spec_registered().contains(peer.0)
                    ==> final(self).spec_replica_handling().spec_count() == old(self).spec_replica_handling().spec_count())
                &&& (!old(self).spec_replica_handling().spec_registered().contains(peer.0)
                    ==> final(self).spec_replica_handling().spec_count() == old(self).spec_replica_handling().spec_count() + 1)
            },
            node_type is Client ==> {
                &&& final(self).spec_replica_handling() == old(self).spec_replica_handling()
                &&& (final(self).spec_client_handling() matches Some(g2)
                    && old(self).spec_client_handling() matches Some(g1) && {
                    &&& g2.spec_cache().dom() == g1.spec_cache().dom().insert(peer.0)
                    &&& (g1.spec_cache().dom().contains(peer.0) ==> g2.spec_count()
                        == g1.spec_count())
                    &&& (!g1.spec_cache().dom().contains(peer.0) ==> g2.spec_count()
                        == g1.spec_count() + 1)
                    &&& exists|i: int, j: int|
                        0 <= i < g2.spec_pools().len() && 0 <= j < g2.spec_pools()[i].spec_members().len() && (#[trigger] g2.spec_pools()[i].spec_members()[j]).is_live() && g2.spec_pools()[i].spec_members()[j].spec_client_id() == peer
                })
            },
    {
        match node_type {
            NodeType::Replica => {
                self.replica_handling.init_client(peer);
            }
            NodeType::Client => {
                match &mut self.client_handling {
                    Some(group) => {
                        let pid = group.init_client(peer);
                        proof {
                            let i0 = choose|i: int|
                                {
                                    &&& 0 <= i < group.spec_pools().len()
                                    &&& (#[trigger] group.spec_pools()[i]).spec_pool_id() == pid
                                    &&& group.spec_pools()[i].spec_members().len() > 0
                                    &&& group.spec_pools()[i].spec_members().last().is_live()
                                    &&& group.spec_pools()[i].spec_members().last().spec_client_id() == peer
                                    &&& group.spec_pools()[i].spec_members().last().buffer() == Seq::<T>::empty()
                                };
                            let jlast = group.spec_pools()[i0].spec_members().len() - 1;
                            assert(0 <= i0 < group.spec_pools().len() && 0 <= jlast
                                < group.spec_pools()[i0].spec_members().len()
                                && group.spec_pools()[i0].spec_members()[jlast].is_live()
                                && group.spec_pools()[i0].spec_members()[jlast].spec_client_id()
                                == peer);
                        }
                    }
                    None => {},
                }
            }
        }
    }

    /// Resolves a peer to its intake: the node's own id yields the
    /// loopback, a replica its directory entry, a client its live pooled
    /// sink. Returns the peer's id when a sink is there to push to.
    pub fn resolve_peer_conn(&self, peer: NodeId, node_type: NodeType) -> (r: Option<NodeId>)
        requires
            self.wf(),
            node_type is Client ==> self.is_replica_node(),
        ensures
            peer == self.spec_own_id() ==> r == Some(peer),
            peer != self.spec_own_id() && node_type is Replica ==> {
                &&& (self.spec_replica_handling().spec_registered().contains(peer.0) ==> r
                    == Some(peer))
                &&& (!self.spec_replica_handling().spec_registered().contains(peer.0) ==> r
                    is None)
            },
            peer != self.spec_own_id() && node_type is Client ==> (r == Some(peer) || r is None),
            // a client resolves exactly while it holds a live sink
            peer != self.spec_own_id() && node_type is Client ==> (
            self.spec_client_handling() matches Some(g) ==> ((exists|i: int, j: int|
                0 <= i < g.spec_pools().len() && 0 <= j < g.spec_pools()[i].spec_members().len()
                    && (#[trigger] g.spec_pools()[i].spec_members()[j]).is_live()
                    && g.spec_pools()[i].spec_members()[j].spec_client_id() == peer) <==> r
                == Some(peer))),
    {
        if peer.id() == self.own_id.id() {
            return Some(self.own_id);
        }
        match node_type {
            NodeType::Replica => {
                match self.replica_handling.resolve_connection(peer) {
                    Some(p) => Some(p.client_id()),
                    None => None,
                }
            }
            NodeType::Client => {
                match &self.client_handling {
                    Some(group) => {
                        match group.get_client_conn(peer) {
                            Some(p) => Some(p.client_id()),
                            None => None,
                        }
                    }
                    None => None,
                }
            }
        }
    }

    /// Takes a decoded frame from a peer's transport task into the
    /// intake, stamped with its arrival instant: replica traffic goes
    /// straight onto the shared queue, client traffic into the client's
    /// pooled buffer.
    pub fn push_request(&mut self, peer: NodeId, node_type: NodeType, msg: T, now: u64) -> (r:
        Result<(), ClientPoolError>)
        requires
            old(self).wf(),
        ensures
            final(self).wf(),
            final(self).spec_own_id() == old(self).spec_own_id(),
            final(self).is_replica_node() == old(self).is_replica_node(),
            final(self).spec_client_channel() == old(self).spec_client_channel(),
            node_type is Replica ==> {
                &&& r is Ok
                &&& final(self).spec_client_handling() == old(self).spec_client_handling()
                &&& final(self).spec_replica_handling().spec_queue() == old(self).spec_replica_handling().spec_queue().push(ReplicaRq { message: msg, enqueued_at: now })
                &&& final(self).spec_replica_handling().spec_registered() == old(self).spec_replica_handling().spec_registered()
                &&& final(self).spec_replica_handling().spec_count() == old(self).spec_replica_handling().spec_count()
            },
            node_type is Client ==> {
                &&& final(self).spec_replica_handling() == old(self).spec_replica_handling()
                &&& (old(self).spec_client_handling() is None ==> (r matches Err(e) && e
                    == ClientPoolError::NoClientsConnected) && final(self).spec_client_handling()
                    == old(self).spec_client_handling())
                &&& (old(self).spec_client_handling() matches Some(g1) ==> (
                final(self).spec_client_handling() matches Some(g2) && {
                    &&& g2.spec_cache() == g1.spec_cache()
                    &&& g2.spec_count() == g1.spec_count()
                    &&& ((exists|i: int, j: int|
                        0 <= i < g1.spec_pools().len() && 0 <= j
                            < g1.spec_pools()[i].spec_members().len() && (
                        #[trigger] g1.spec_pools()[i].spec_members()[j]).is_live()
                            && g1.spec_pools()[i].spec_members()[j].spec_client_id() == peer)
                        ==> r is Ok)
                    &&& ((forall|i: int, j: int|
                        0 <= i < g1.spec_pools().len() && 0 <= j
                            < g1.spec_pools()[i].spec_members().len() ==> !((
                        #[trigger] g1.spec_pools()[i].spec_members()[j]).is_live()
                            && g1.spec_pools()[i].spec_members()[j].spec_client_id() == peer))
                        ==> (r matches Err(e) && e == ClientPoolError::PooledConnectionClosed(
                        peer,
                    )))
                }))
            },
    {
        match node_type {
            NodeType::Replica => {
                self.replica_handling.push_message(msg, now);
                Ok(())
            }
            NodeType::Client => {
                match &mut self.client_handling {
                    Some(group) => group.push_client_request(peer, msg),
                    None => Err(ClientPoolError::NoClientsConnected),
                }
            }
        }
    }

    /// Disconnects a peer's sink. For a client the live pooled sink is
    /// marked; the pool worker reaps it on its next cycle. A replica's
    /// direct sink has nothing to mark.
    pub fn disconnect_peer_conn(&mut self, peer: NodeId, node_type: NodeType)
        requires
            old(self).wf(),
        ensures
            final(self).wf(),
            final(self).spec_own_id() == old(self).spec_own_id(),
            final(self).is_replica_node() == old(self).is_replica_node(),
            final(self).spec_replica_handling() == old(self).spec_replica_handling(),
            final(self).spec_client_channel() == old(self).spec_client_channel(),
            node_type is Replica ==> final(self).spec_client_handling() == old(self).spec_client_handling(),
            node_type is Client && old(self).spec_client_handling() is None ==> final(self).spec_client_handling() == old(self).spec_client_handling(),
            node_type is Client ==> (old(self).spec_client_handling() matches Some(g1) ==> (
            final(self).spec_client_handling() matches Some(g2) && {
                &&& g2.spec_cache() == g1.spec_cache()
                &&& g2.spec_count() == g1.spec_count()
                &&& (forall|i: int, j: int|
                    0 <= i < g2.spec_pools().len() && 0 <= j
                        < g2.spec_pools()[i].spec_members().len() && (
                    #[trigger] g2.spec_pools()[i].spec_members()[j]).is_live() ==> g2.spec_pools()[i].spec_members()[j].spec_client_id() != peer)
            })),
    {
        match node_type {
            NodeType::Replica => {},
            NodeType::Client => {
                match &mut self.client_handling {
                    Some(group) => {
                        group.disconnect_client(peer);
                    }
                    None => {},
                }
            }
        }
    }

    /// How many batches from the client pools are waiting for the
    /// consumer.
    pub fn rqs_len_from_clients(&self) -> (r: usize)
        ensures
            r == self.spec_pending_client_batches(),
    {
        match &self.client_channel {
            None => 0,
            Some(ch) => ch.len(),
        }
    }

    /// How many replica messages are waiting for the consumer.
    pub fn rqs_len_from_replicas(&self) -> (r: usize)
        ensures
            r == self.spec_replica_handling().spec_queue().len(),
    {
        self.replica_handling.pending_messages()
    }

    /// How many clients are connected; nothing on a client node.
    pub fn client_count(&self) -> (r: Option<usize>)
        ensures
            self.spec_client_handling() matches Some(g) ==> r == Some(g.spec_count()),
            self.spec_client_handling() is None ==> r is None,
    {
        match &self.client_handling {
            None => None,
            Some(group) => Some(group.client_count()),
        }
    }

    /// How many replicas are connected, the loopback included.
    pub fn replica_count(&self) -> (r: usize)
        ensures
            r == self.spec_replica_handling().spec_count(),
    {
        self.replica_handling.connected_count()
    }

    /// Takes the oldest batch from the client pools. An empty channel
    /// yields an empty batch when a timeout is given; without one the
    /// call stands for a blocking receive and is meaningful here only
    /// when a batch is already pending. Fails on a client node.
    pub fn receive_from_clients(&mut self, timeout_micros: Option<u64>) -> (r: Result<
        Vec<T>,
        ClientPoolError,
    >)
        requires
            old(self).wf(),
            old(self).is_replica_node() && timeout_micros is None ==> old(self).spec_pending_client_batches() > 0,
        ensures
            final(self).wf(),
            final(self).spec_own_id() == old(self).spec_own_id(),
            final(self).is_replica_node() == old(self).is_replica_node(),
            final(self).spec_replica_handling() == old(self).spec_replica_handling(),
            final(self).spec_client_handling() == old(self).spec_client_handling(),
            !old(self).is_replica_node() ==> (r matches Err(e) && e
                == ClientPoolError::NoClientsConnected) && final(self).spec_client_channel()
                is None,
            old(self).is_replica_node() && old(self).spec_pending_client_batches() > 0 ==> (
            old(self).spec_client_channel() matches Some(ch1)
                && final(self).spec_client_channel() matches Some(ch2) && (r matches Ok(v)
                && v@ == ch1@[0].requests@) && ch2@ == ch1@.skip(1) && ch2.spec_capacity()
                == ch1.spec_capacity()),
            old(self).is_replica_node() && old(self).spec_pending_client_batches() == 0 ==> (r
                matches Ok(v) && v@ == Seq::<T>::empty()) && (old(self).spec_client_channel()
                matches Some(ch1) && final(self).spec_client_channel() matches Some(ch2) && ch2@
                == ch1@ && ch2.spec_capacity() == ch1.spec_capacity()),
    {
        match &mut self.client_channel {
            None => Err(ClientPoolError::NoClientsConnected),
            Some(ch) => {
                match ch.try_recv() {
                    Some(batch) => Ok(batch.requests),
                    None => {
                        // With a timeout this is the timeout outcome; a
                        // blocking receive only happens with a batch
                        // already pending.
                        let _ = timeout_micros;
                        Ok(Vec::new())
                    }
                }
            }
        }
    }

    /// Takes the oldest batch if one is pending, without waiting.
    pub fn try_receive_from_clients(&mut self) -> (r: Result<Option<Vec<T>>, ClientPoolError>)
        requires
            old(self).wf(),
        ensures
            final(self).wf(),
            final(self).spec_own_id() == old(self).spec_own_id(),
            final(self).is_replica_node() == old(self).is_replica_node(),
            final(self).spec_replica_handling() == old(self).spec_replica_handling(),
            final(self).spec_client_handling() == old(self).spec_client_handling(),
            !old(self).is_replica_node() ==> (r matches Err(e) && e
                == ClientPoolError::NoClientsConnected) && final(self).spec_client_channel()
                is None,
            old(self).is_replica_node() && old(self).spec_pending_client_batches() > 0 ==> (
            old(self).spec_client_channel() matches Some(ch1)
                && final(self).spec_client_channel() matches Some(ch2) && (r matches Ok(v)
                && v matches Some(b) && b@ == ch1@[0].requests@) && ch2@ == ch1@.skip(1)
                && ch2.spec_capacity() == ch1.spec_capacity()),
            old(self).is_replica_node() && old(self).spec_pending_client_batches() == 0 ==> (r
                matches Ok(v) && v is None) && (old(self).spec_client_channel() matches Some(ch1)
                && final(self).spec_client_channel() matches Some(ch2) && ch2@ == ch1@
                && ch2.spec_capacity() == ch1.spec_capacity()),
    {
        match &mut self.client_channel {
            None => Err(ClientPoolError::NoClientsConnected),
            Some(ch) => {
                match ch.try_recv() {
                    Some(batch) => Ok(Some(batch.requests)),
                    None => Ok(None),
                }
            }
        }
    }

    /// Takes the oldest replica message. An empty queue yields nothing
    /// when a timeout is given; without one the call stands for a
    /// blocking receive and is meaningful here only when a message is
    /// already pending.
    pub fn receive_from_replicas(&mut self, timeout_micros: Option<u64>) -> (r: Result<
        Option<T>,
        ClientPoolError,
    >)
        requires
            old(self).wf(),
            timeout_micros is None ==> old(self).spec_replica_handling().spec_queue().len() > 0,
        ensures
            final(self).wf(),
            final(self).spec_own_id() == old(self).spec_own_id(),
            final(self).is_replica_node() == old(self).is_replica_node(),
            final(self).spec_client_handling() == old(self).spec_client_handling(),
            final(self).spec_client_channel() == old(self).spec_client_channel(),
            old(self).spec_replica_handling().spec_queue().len() > 0 ==> (r matches Ok(m)
                && m == Some(old(self).spec_replica_handling().spec_queue()[0].message))
                && final(self).spec_replica_handling().spec_queue() == old(self).spec_replica_handling().spec_queue().skip(1),
            old(self).spec_replica_handling().spec_queue().len() == 0 ==> (r matches Ok(m2) && m2 is None)
                && final(self).spec_replica_handling().spec_queue() == old(self).spec_replica_handling().spec_queue(),
            final(self).spec_replica_handling().spec_registered() == old(self).spec_replica_handling().spec_registered(),
            final(self).spec_replica_handling().spec_count() == old(self).spec_replica_handling().spec_count(),
    {
        Ok(self.replica_handling.receive_from_replicas(timeout_micros))
    }

    /// One iteration of the batch worker serving the given pool, run on
    /// behalf of the worker thread. Fails on a client node.
    pub fn run_client_pool_iteration(&mut self, pool_id: usize, now: u64) -> (r: Result<
        WorkerOutcome<T>,
        ClientPoolError,
    >)
        requires
            old(self).wf(),
        ensures
            final(self).wf(),
            final(self).spec_own_id() == old(self).spec_own_id(),
            final(self).is_replica_node() == old(self).is_replica_node(),
            final(self).spec_replica_handling() == old(self).spec_replica_handling(),
            !old(self).is_replica_node() ==> (r matches Err(e) && e
                == ClientPoolError::NoClientsConnected) && final(self).spec_client_handling()
                == old(self).spec_client_handling() && final(self).spec_client_channel() == old(self).spec_client_channel(),
            old(self).is_replica_node() ==> (r matches Ok(outcome) && old(self).spec_client_handling() matches Some(g1) && final(self).spec_client_handling() matches Some(g2) && old(self).spec_client_channel() matches Some(ch1) && final(self).spec_client_channel() matches Some(ch2) && {
                &&& ch2@.len() <= ch1@.len() + 1
                &&& ch2.spec_capacity() == ch1.spec_capacity()
                &&& (forall|b: int| 0 <= b < ch1@.len() ==> ch2@[b] == ch1@[b])
                // a running pool whose live sinks hold requests owes a
                // batch, and it goes out whenever the channel has room
                &&& (forall|i: int|
                    (0 <= i < g1.spec_pools().len() && (#[trigger] g1.spec_pools()[i]).spec_pool_id() == pool_id && !g1.spec_pools()[i].spec_finished() && (exists|j: int|
                        0 <= j < g1.spec_pools()[i].spec_members().len() && (#[trigger] g1.spec_pools()[i].spec_members()[j]).is_live() && g1.spec_pools()[i].spec_members()[j].buffer().len() > 0)) ==> ((outcome is BatchSent || outcome is OutputFull) && (ch1@.len() < ch1.spec_capacity() ==> outcome is BatchSent)))
                &&& (outcome is BatchSent ==> ch2@.len() == ch1@.len() + 1 && ch2@.last().created_at == now && ch2@.last().requests@.len() > 0)
                &&& (outcome matches WorkerOutcome::OutputFull(b) ==> ch2@ == ch1@ && b.created_at == now && b.requests@.len() > 0)
                &&& (outcome is NothingToSend ==> ch2@ == ch1@)
                &&& (outcome is Finished ==> ch2@ == ch1@)
                &&& (outcome is PoolClosed ==> ch2@ == ch1@ && forall|i2: int|
                    0 <= i2 < g2.spec_pools().len() ==> (#[trigger] g2.spec_pools()[i2]).spec_pool_id() != pool_id)
                // exactly the reaped clients leave the cache
                &&& (!(outcome is Finished) ==> forall|i: int|
                    (0 <= i < g1.spec_pools().len() && (#[trigger] g1.spec_pools()[i]).spec_pool_id() == pool_id) ==> forall|c: u32|
                        #[trigger] g2.spec_cache().dom().contains(c) <==> (g1.spec_cache().dom().contains(c) && !(g1.spec_cache()[c] == pool_id && !(exists|j: int|
                            0 <= j < g1.spec_pools()[i].spec_members().len() && (#[trigger] g1.spec_pools()[i].spec_members()[j]).is_live() && g1.spec_pools()[i].spec_members()[j].spec_client_id().0 == c))))
                // a surviving pool is drained to its live sinks
                &&& ((outcome is BatchSent || outcome is NothingToSend || outcome is OutputFull) ==> {
                    &&& g2.spec_pools().len() == g1.spec_pools().len()
                    &&& (forall|i: int|
                        (0 <= i < g1.spec_pools().len() && (#[trigger] g1.spec_pools()[i]).spec_pool_id() == pool_id) ==> {
                            &&& g2.spec_pools()[i].spec_members().len() == live_ids_of(g1.spec_pools()[i].spec_members()).len()
                            &&& (forall|j: int|
                                0 <= j < g2.spec_pools()[i].spec_members().len() ==> (#[trigger] g2.spec_pools()[i].spec_members()[j]).is_live() && g2.spec_pools()[i].spec_members()[j].buffer() == Seq::<T>::empty())
                        })
                })
            }),
    {
        match (&mut self.client_handling, &mut self.client_channel) {
            (Some(group), Some(ch)) => {
                let outcome = group.run_pool_iteration(pool_id, ch, now);
                Ok(outcome)
            }
            _ => Err(ClientPoolError::NoClientsConnected),
        }
    }

    /// Offers a batch that an earlier worker iteration got back from the
    /// full output channel. The batch comes back again while the channel
    /// is still full. Fails on a client node.
    pub fn offer_batch(&mut self, batch: ClientRqBatch<T>) -> (r: Result<
        (),
        ClientRqBatch<T>,
    >)
        requires
            old(self).wf(),
        ensures
            final(self).wf(),
            final(self).spec_own_id() == old(self).spec_own_id(),
            final(self).is_replica_node() == old(self).is_replica_node(),
            final(self).spec_replica_handling() == old(self).spec_replica_handling(),
            final(self).spec_client_handling() == old(self).spec_client_handling(),
            !old(self).is_replica_node() ==> (r matches Err(b) && b == batch) && final(self).spec_client_channel() is None,
            old(self).is_replica_node() ==> (old(self).spec_client_channel() matches Some(ch1)
                && final(self).spec_client_channel() matches Some(ch2) && ch2.spec_capacity()
                == ch1.spec_capacity() && {
                &&& (ch1@.len() < ch1.spec_capacity() ==> r is Ok && ch2@ == ch1@.push(batch))
                &&& (ch1@.len() >= ch1.spec_capacity() ==> (r matches Err(b) && b == batch)
                    && ch2@ == ch1@)
            }),
    {
        match &mut self.client_channel {
            None => Err(batch),
            Some(ch) => ch.send(batch),
        }
    }

    /// How many clients this node can still register before its counters
    /// run out of headroom; boundlessly many in practice. Nothing on a
    /// client node.
    pub fn client_registration_headroom(&self) -> (r: Option<usize>)
        ensures
            self.spec_client_handling() matches Some(g) ==> (r matches Some(h) && h == (
            if g.spec_count() < g.spec_counter() {
                usize::MAX - g.spec_counter()
            } else {
                usize::MAX - g.spec_count()
            })),
            self.spec_client_handling() is None ==> r is None,
    {
        match &self.client_handling {
            None => None,
            Some(group) => {
                let count = group.client_count();
                let counter = group.pool_id_counter();
                if count < counter {
                    Some(usize::MAX - counter)
                } else {
                    Some(usize::MAX - count)
                }
            }
        }
    }

    /// The ids of the pools currently running; nothing on a client node.
    pub fn client_pool_ids(&self) -> (r: Option<Vec<usize>>)
        ensures
            self.spec_client_handling() matches Some(g) ==> (r matches Some(ids) && ids@.len()
                == g.spec_pools().len() && forall|i: int|
                0 <= i < ids@.len() ==> ids@[i] == (#[trigger] g.spec_pools()[i]).spec_pool_id()),
            self.spec_client_handling() is None ==> r is None,
    {
        match &self.client_handling {
            None => None,
            Some(group) => Some(group.pool_ids()),
        }
    }
}

} // verus!
