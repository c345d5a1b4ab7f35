use vstd::prelude::*;
use crate::errors::ClientPoolError;
use crate::node_id::NodeId;

verus! {

/// A connected peer's intake handle. A pooled connection buffers the
/// peer's requests privately until a pool worker drains them into a
/// batch; an unpooled connection stands for a replica whose requests
/// go straight onto the shared replica queue.
pub enum ConnectedPeer<T> {
    PoolConnection { client_id: NodeId, queue: Option<Vec<T>>, disconnected: bool },
    UnpooledConnection { client_id: NodeId },
}

impl<T> ConnectedPeer<T> {
    /// The identifier of the peer this sink belongs to.
    pub open spec fn spec_client_id(&self) -> NodeId {
        match self {
            ConnectedPeer::PoolConnection { client_id, .. } => *client_id,
            ConnectedPeer::UnpooledConnection { client_id } => *client_id,
        }
    }

    pub open spec fn is_pooled(&self) -> bool {
        self is PoolConnection
    }

    /// Whether the sink has been disconnected. An unpooled sink has no
    /// disconnection flag and always counts as connected.
    pub open spec fn spec_disconnected(&self) -> bool {
        match self {
            ConnectedPeer::PoolConnection { disconnected, .. } => *disconnected,
            ConnectedPeer::UnpooledConnection { .. } => false,
        }
    }

    /// Whether a pooled sink still holds its buffer.
    pub open spec fn has_buffer(&self) -> bool {
        match self {
            ConnectedPeer::PoolConnection { queue, .. } => queue is Some,
            ConnectedPeer::UnpooledConnection { .. } => false,
        }
    }

    /// The requests currently buffered, in push order.
    pub open spec fn buffer(&self) -> Seq<T> {
        match self {
            ConnectedPeer::PoolConnection { queue, .. } => queue->Some_0@,
            ConnectedPeer::UnpooledConnection { .. } => Seq::empty(),
        }
    }

    /// A pooled sink that can still take and yield requests.
    pub open spec fn is_live(&self) -> bool {
        self.is_pooled() && !self.spec_disconnected() && self.has_buffer()
    }

    /// Builds the sink for a freshly connected client, with an empty
    /// buffer pre-sized to the per-client cache hint.
    pub fn new_pooled(client_id: NodeId, capacity: usize) -> (r: Self)
        ensures
            r.spec_client_id() == client_id,
            r.is_live(),
            r.buffer() == Seq::<T>::empty(),
    {
        ConnectedPeer::PoolConnection {
            client_id,
            queue: Some(Vec::with_capacity(capacity)),
            disconnected: false,
        }
    }

    /// Builds the direct handle for a replica peer.
    pub fn new_unpooled(client_id: NodeId) -> (r: Self)
        ensures
            r.spec_client_id() == client_id,
            !r.is_pooled(),
            !r.spec_disconnected(),
    {
        ConnectedPeer::UnpooledConnection { client_id }
    }

    pub fn client_id(&self) -> (r: NodeId)
        ensures
            r == self.spec_client_id(),
    {
        match self {
            ConnectedPeer::PoolConnection { client_id, .. } => *client_id,
            ConnectedPeer::UnpooledConnection { client_id } => *client_id,
        }
    }

    pub fn is_dc(&self) -> (r: bool)
        ensures
            r == self.spec_disconnected(),
    {
        match self {
            ConnectedPeer::PoolConnection { disconnected, .. } => *disconnected,
            ConnectedPeer::UnpooledConnection { .. } => false,
        }
    }

    /// Whether the sink can still take and yield requests.
    pub fn live(&self) -> (r: bool)
        ensures
            r == self.is_live(),
    {
        match self {
            ConnectedPeer::PoolConnection { queue, disconnected, .. } => {
                !*disconnected && queue.is_some()
            }
            ConnectedPeer::UnpooledConnection { .. } => false,
        }
    }

    /// Marks a pooled sink as disconnected; every later push or drain on
    /// it fails. On an unpooled sink this has no effect.
    pub fn disconnect(&mut self)
        ensures
            final(self).spec_client_id() == old(self).spec_client_id(),
            final(self).is_pooled() == old(self).is_pooled(),
            final(self).has_buffer() == old(self).has_buffer(),
            final(self).buffer() == old(self).buffer(),
            old(self).is_pooled() ==> final(self).spec_disconnected(),
            !old(self).is_pooled() ==> *final(self) == *old(self),
    {
        match self {
            ConnectedPeer::PoolConnection { disconnected, .. } => {
                *disconnected = true;
            }
            ConnectedPeer::UnpooledConnection { .. } => {}
        }
    }

    /// Swaps the buffered requests out against the caller's empty
    /// replacement buffer and returns them, in push order. Fails, handing
    /// the replacement back, once the sink is disconnected or its buffer
    /// is gone. On an unpooled sink there is nothing to drain.
    pub fn dump_requests(&mut self, replacement_vec: Vec<T>) -> (r: Result<Vec<T>, Vec<T>>)
        ensures
            final(self).spec_client_id() == old(self).spec_client_id(),
            final(self).is_pooled() == old(self).is_pooled(),
            final(self).spec_disconnected() == old(self).spec_disconnected(),
            old(self).is_live() ==> {
                &&& (r matches Ok(v) && v@ == old(self).buffer())
                &&& final(self).is_live()
                &&& final(self).buffer() == replacement_vec@
            },
            old(self).is_pooled() && !old(self).is_live() ==> {
                &&& (r matches Err(v) && v == replacement_vec)
                &&& *final(self) == *old(self)
            },
            !old(self).is_pooled() ==> {
                &&& (r matches Ok(v) && v@ == Seq::<T>::empty())
                &&& *final(self) == *old(self)
            },
    {
        match self {
            ConnectedPeer::PoolConnection { queue, disconnected, .. } => {
                if *disconnected {
                    return Err(replacement_vec);
                }
                match queue {
                    None => Err(replacement_vec),
                    Some(rqs) => {
                        let mut taken = replacement_vec;
                        core::mem::swap(rqs, &mut taken);
                        Ok(taken)
                    }
                }
            }
            ConnectedPeer::UnpooledConnection { .. } => Ok(Vec::new()),
        }
    }

    /// Appends a request to a pooled sink's buffer; fails once the sink is
    /// disconnected or its buffer is gone. A direct (unpooled) sink has no
    /// private buffer: its requests go through the replica intake instead.
    pub fn push_request(&mut self, msg: T) -> (r: Result<(), ClientPoolError>)
        requires
            old(self).is_pooled(),
        ensures
            final(self).spec_client_id() == old(self).spec_client_id(),
            final(self).is_pooled() == old(self).is_pooled(),
            final(self).spec_disconnected() == old(self).spec_disconnected(),
            old(self).is_live() ==> {
                &&& r is Ok
                &&& final(self).is_live()
                &&& final(self).buffer() == old(self).buffer().push(msg)
            },
            !old(self).is_live() ==> {
                &&& r == Err::<(), ClientPoolError>(ClientPoolError::PooledConnectionClosed(
                    old(self).spec_client_id(),
                ))
                &&& *final(self) == *old(self)
            },
    {
        match self {
            ConnectedPeer::PoolConnection { queue, disconnected, client_id } => {
                if *disconnected {
                    return Err(ClientPoolError::PooledConnectionClosed(*client_id));
                }
                match queue {
                    None => Err(ClientPoolError::PooledConnectionClosed(*client_id)),
                    Some(rqs) => {
                        rqs.push(msg);
                        Ok(())
                    }
                }
            }
            ConnectedPeer::UnpooledConnection { client_id } => {
                Err(ClientPoolError::UnpooledConnectionClosed(*client_id))
            }
        }
    }
}

/// The buffer a sink ends up with after a run of pushes, starting from
/// the given contents.
pub open spec fn after_pushes<T>(buffer: Seq<T>, msgs: Seq<T>) -> Seq<T>
    decreases msgs.len(),
{
    if msgs.len() == 0 {
        buffer
    } else {
        after_pushes(buffer.push(msgs[0]), msgs.skip(1))
    }
}

proof fn lemma_after_pushes_concat<T>(buffer: Seq<T>, msgs: Seq<T>)
    ensures
        after_pushes(buffer, msgs) == buffer + msgs,
    decreases msgs.len(),
{
    if msgs.len() == 0 {
        assert(after_pushes(buffer, msgs) =~= buffer + msgs);
    } else {
        lemma_after_pushes_concat(buffer.push(msgs[0]), msgs.skip(1));
        assert(buffer.push(msgs[0]) + msgs.skip(1) =~= buffer + msgs);
    }
}

/// Pushing a run of requests into a sink whose buffer starts empty and
/// then draining it yields exactly that run, in push order, with nothing
/// lost and nothing repeated: each push appends one request, and a drain
/// hands the whole buffer back.
pub proof fn lemma_push_then_drain_exact<T>(msgs: Seq<T>)
    ensures
        after_pushes(Seq::<T>::empty(), msgs) == msgs,
{
    lemma_after_pushes_concat(Seq::<T>::empty(), msgs);
    assert(Seq::<T>::empty() + msgs =~= msgs);
}

/// Across consecutive collect cycles a client's requests keep push
/// order: one cycle takes the buffered run whole and leaves the buffer
/// empty, so the requests pushed afterwards form exactly the next
/// cycle's run, and the client's stream reads as one concatenation in
/// push order.
pub proof fn lemma_client_stream_order<T>(first_block: Seq<T>, later_pushes: Seq<T>)
    ensures
        first_block + after_pushes(Seq::<T>::empty(), later_pushes) == first_block + later_pushes,
{
    lemma_push_then_drain_exact(later_pushes);
}

} // verus!
