use vstd::prelude::*;
use crate::cache::PeerDirectory;
use crate::channel::BatchChannel;
use crate::channel::ClientRqBatch;
use crate::errors::ClientPoolError;
use crate::node_id::NodeId;
use crate::pool::ConnectedPeersPool;
use crate::pool::collected;
use crate::pool::contribution;
use crate::pool::lemma_collected_block;
use crate::pool::lemma_live_ids_contains;
use crate::pool::lemma_live_ids_distinct;
use crate::pool::lemma_live_ids_witness;
use crate::pool::lemma_reaped_contains;
use crate::pool::live_ids_of;
use crate::pool::reaped_ids;
use crate::rng::rand_usize_below;
use crate::sink::ConnectedPeer;

verus! {

/// Every pool in the run is well formed and carries the given
/// membership bound.
pub open spec fn pools_wf_at<T>(pools: Seq<ConnectedPeersPool<T>>, limit: usize) -> bool {
    forall|i: int|
        0 <= i < pools.len() ==> {
            &&& (#[trigger] pools[i]).wf()
            &&& pools[i].spec_client_limit() == limit
        }
}

/// Every pool id in the run lies strictly below the bound.
pub open spec fn pool_ids_below<T>(pools: Seq<ConnectedPeersPool<T>>, bound: usize) -> bool {
    forall|i: int| 0 <= i < pools.len() ==> (#[trigger] pools[i]).spec_pool_id() < bound
}

/// Pool ids increase along the run, so each id names at most one pool.
pub open spec fn pools_sorted_at<T>(pools: Seq<ConnectedPeersPool<T>>) -> bool {
    forall|i: int, j: int|
        0 <= i < j < pools.len() ==> (#[trigger] pools[i]).spec_pool_id() < (
        #[trigger] pools[j]).spec_pool_id()
}

/// Every live sink is cached, under its own id, as belonging to the pool
/// that holds it.
pub open spec fn live_members_cached_at<T>(
    pools: Seq<ConnectedPeersPool<T>>,
    cache: Map<u32, usize>,
) -> bool {
    forall|i: int, j: int|
        0 <= i < pools.len() && 0 <= j < pools[i].spec_members().len() && (
        #[trigger] pools[i].spec_members()[j]).is_live() ==> {
            &&& cache.dom().contains(pools[i].spec_members()[j].spec_client_id().0)
            &&& cache[pools[i].spec_members()[j].spec_client_id().0] == pools[i].spec_pool_id()
        }
}

/// Within one pool, no two live sinks carry the same client id.
pub open spec fn live_members_unique_at<T>(pools: Seq<ConnectedPeersPool<T>>) -> bool {
    forall|i: int, j1: int, j2: int|
        0 <= i < pools.len() && 0 <= j1 < j2 < pools[i].spec_members().len() && (
        #[trigger] pools[i].spec_members()[j1]).is_live() && (
        #[trigger] pools[i].spec_members()[j2]).is_live() ==> pools[i].spec_members()[j1].spec_client_id() != pools[i].spec_members()[j2].spec_client_id()
}

/// Whether one of the first `upto` ids on the list is the given one.
pub open spec fn id_in_prefix(ids: Seq<NodeId>, upto: int, c: u32) -> bool {
    exists|k: int| 0 <= k < upto && k < ids.len() && (#[trigger] ids[k]).0 == c
}

/// Whether the list carries the given client id.
pub open spec fn id_in_list(ids: Seq<NodeId>, c: u32) -> bool {
    exists|k: int| 0 <= k < ids.len() && (#[trigger] ids[k]).0 == c
}

/// Whether the pool holds a sink, live or not, for the given client id.
pub open spec fn pool_has_member_for<T>(p: ConnectedPeersPool<T>, c: u32) -> bool {
    exists|j: int|
        0 <= j < p.spec_members().len() && (#[trigger] p.spec_members()[j]).spec_client_id().0 == c
}

/// Whether some pool in the run carries the given pool id and holds a
/// sink for the given client id.
pub open spec fn some_pool_holds<T>(pools: Seq<ConnectedPeersPool<T>>, pid: usize, c: u32) -> bool {
    exists|i: int|
        0 <= i < pools.len() && (#[trigger] pools[i]).spec_pool_id() == pid && pool_has_member_for(
            pools[i],
            c,
        )
}

/// Every cached client still has a sink, live or on its way out, in the
/// pool its cache entry names.
pub open spec fn cached_clients_present_at<T>(
    pools: Seq<ConnectedPeersPool<T>>,
    cache: Map<u32, usize>,
) -> bool {
    forall|c: u32| #[trigger] cache.dom().contains(c) ==> some_pool_holds(pools, cache[c], c)
}

/// A pool run that keeps every pool id and every sink id in place, only
/// ever adding sinks or pools at the end, keeps every client found.
pub proof fn lemma_holds_preserved<T>(
    pools1: Seq<ConnectedPeersPool<T>>,
    pools2: Seq<ConnectedPeersPool<T>>,
    pid: usize,
    c: u32,
)
    requires
        some_pool_holds(pools1, pid, c),
        pools2.len() >= pools1.len(),
        forall|i: int|
            0 <= i < pools1.len() ==> {
                &&& (#[trigger] pools2[i]).spec_pool_id() == pools1[i].spec_pool_id()
                &&& pools2[i].spec_members().len() >= pools1[i].spec_members().len()
            },
        forall|i: int, j: int|
            0 <= i < pools1.len() && 0 <= j < pools1[i].spec_members().len() ==> (
            #[trigger] pools2[i].spec_members()[j]).spec_client_id() == pools1[i].spec_members()[j].spec_client_id(),
    ensures
        some_pool_holds(pools2, pid, c),
{
    let i0 = choose|i: int|
        0 <= i < pools1.len() && (#[trigger] pools1[i]).spec_pool_id() == pid
            && pool_has_member_for(pools1[i], c);
    let j0 = choose|j: int|
        0 <= j < pools1[i0].spec_members().len() && (
        #[trigger] pools1[i0].spec_members()[j]).spec_client_id().0 == c;
    assert(pools2[i0].spec_members()[j0].spec_client_id().0 == c);
    assert(pool_has_member_for(pools2[i0], c));
    assert(0 <= i0 < pools2.len() && pools2[i0].spec_pool_id() == pid && pool_has_member_for(
        pools2[i0],
        c,
    ));
}

/// Whether a pool still has room under its membership bound.
pub open spec fn has_room<T>(p: ConnectedPeersPool<T>) -> bool {
    p.spec_members().len() < p.spec_client_limit()
}

/// The position of the first pool in the run with room for one more
/// client, or -1 when every pool is full.
pub open spec fn first_open_pool<T>(pools: Seq<ConnectedPeersPool<T>>) -> int
    decreases pools.len(),
{
    if pools.len() == 0 {
        -1
    } else if has_room(pools[0]) {
        0
    } else {
        let rest = first_open_pool(pools.skip(1));
        if rest < 0 {
            -1
        } else {
            1 + rest
        }
    }
}

proof fn lemma_first_open_is<T>(pools: Seq<ConnectedPeersPool<T>>, i: int)
    requires
        0 <= i < pools.len(),
        forall|j: int| 0 <= j < i ==> !has_room(#[trigger] pools[j]),
        has_room(pools[i]),
    ensures
        first_open_pool(pools) == i,
    decreases i,
{
    if i == 0 {
    } else {
        assert(!has_room(pools[0]));
        assert(forall|j: int| 0 <= j < i - 1 ==> !has_room(#[trigger] pools.skip(1)[j]));
        assert(pools.skip(1)[i - 1] == pools[i]);
        lemma_first_open_is(pools.skip(1), i - 1);
    }
}

proof fn lemma_first_open_none<T>(pools: Seq<ConnectedPeersPool<T>>)
    requires
        forall|j: int| 0 <= j < pools.len() ==> !has_room(#[trigger] pools[j]),
    ensures
        first_open_pool(pools) == -1,
    decreases pools.len(),
{
    if pools.len() > 0 {
        assert(forall|j: int| 0 <= j < pools.skip(1).len() ==> !has_room(#[trigger] pools.skip(1)[j]));
        lemma_first_open_none(pools.skip(1));
    }
}

proof fn lemma_first_open_congruent<T>(p1: Seq<ConnectedPeersPool<T>>, p2: Seq<ConnectedPeersPool<T>>)
    requires
        p1.len() == p2.len(),
        forall|j: int| 0 <= j < p1.len() ==> has_room(#[trigger] p1[j]) == has_room(p2[j]),
    ensures
        first_open_pool(p1) == first_open_pool(p2),
    decreases p1.len(),
{
    if p1.len() > 0 {
        assert(forall|j: int|
            0 <= j < p1.skip(1).len() ==> has_room(#[trigger] p1.skip(1)[j]) == has_room(
                p2.skip(1)[j],
            ));
        lemma_first_open_congruent(p1.skip(1), p2.skip(1));
        assert(has_room(p1[0]) == has_room(p2[0]));
    }
}

/// What one iteration of a pool's batch worker did.
pub enum WorkerOutcome<T> {
    /// The pool is gone from the directory or told to stop; the worker
    /// should exit.
    Finished,
    /// The pool had no live sink left and deleted itself; the worker
    /// should exit.
    PoolClosed,
    /// The collect cycle ran but gathered no requests; nothing was sent.
    NothingToSend,
    /// A batch went out on the output channel.
    BatchSent,
    /// The output channel was full; the batch comes back so the caller
    /// can offer it again once the consumer catches up.
    OutputFull(ClientRqBatch<T>),
}

/// Directory and lifecycle manager for the client pools. New clients go
/// to the first pool with room, or to a freshly spawned pool; a cache
/// maps every connected client to the pool that holds its sink.
pub struct ConnectedPeersGroup<T> {
    own_id: NodeId,
    client_pools: Vec<ConnectedPeersPool<T>>,
    client_connections_cache: PeerDirectory,
    connected_clients: usize,
    per_client_cache: usize,
    batch_target_size: usize,
    batch_timeout_micros: u64,
    batch_sleep_micros: u64,
    clients_per_pool: usize,
    pool_id_counter: usize,
}

impl<T> ConnectedPeersGroup<T> {
    pub closed spec fn spec_own_id(&self) -> NodeId {
        self.own_id
    }

    /// The pools, in ascending pool-id order.
    pub closed spec fn spec_pools(&self) -> Seq<ConnectedPeersPool<T>> {
        self.client_pools@
    }

    /// The cache, as a map from client id to the id of the pool holding
    /// that client's sink.
    pub closed spec fn spec_cache(&self) -> Map<u32, usize> {
        self.client_connections_cache@
    }

    pub closed spec fn spec_count(&self) -> usize {
        self.connected_clients
    }

    pub closed spec fn spec_per_client_cache(&self) -> usize {
        self.per_client_cache
    }

    pub closed spec fn spec_batch_target_size(&self) -> usize {
        self.batch_target_size
    }

    pub closed spec fn spec_batch_timeout_micros(&self) -> u64 {
        self.batch_timeout_micros
    }

    pub closed spec fn spec_batch_sleep_micros(&self) -> u64 {
        self.batch_sleep_micros
    }

    pub closed spec fn spec_clients_per_pool(&self) -> usize {
        self.clients_per_pool
    }

    pub closed spec fn spec_counter(&self) -> usize {
        self.pool_id_counter
    }

    /// The group's configuration, bundled so contracts can say in one
    /// word that an operation leaves it alone.
    pub open spec fn same_config(&self, other: &Self) -> bool {
        &&& self.spec_own_id() == other.spec_own_id()
        &&& self.spec_per_client_cache() == other.spec_per_client_cache()
        &&& self.spec_batch_target_size() == other.spec_batch_target_size()
        &&& self.spec_batch_timeout_micros() == other.spec_batch_timeout_micros()
        &&& self.spec_batch_sleep_micros() == other.spec_batch_sleep_micros()
        &&& self.spec_clients_per_pool() == other.spec_clients_per_pool()
    }

    /// The group invariant: the client count mirrors the cache, pools are
    /// well formed with unique ascending ids, and the cache and the
    /// pools' live sinks point at each other consistently.
    pub open spec fn wf(&self) -> bool {
        &&& self.spec_clients_per_pool() > 0
        &&& self.spec_cache().dom().finite()
        &&& self.spec_count() == self.spec_cache().dom().len()
        &&& pools_wf_at(self.spec_pools(), self.spec_clients_per_pool())
        &&& pool_ids_below(self.spec_pools(), self.spec_counter())
        &&& pools_sorted_at(self.spec_pools())
        &&& live_members_cached_at(self.spec_pools(), self.spec_cache())
        &&& live_members_unique_at(self.spec_pools())
        &&& cached_clients_present_at(self.spec_pools(), self.spec_cache())
    }

    pub fn new(
        per_client_bound: usize,
        batch_size: usize,
        own_id: NodeId,
        clients_per_pool: usize,
        batch_timeout_micros: u64,
        batch_sleep_micros: u64,
    ) -> (r: Self)
        requires
            clients_per_pool > 0,
        ensures
            r.wf(),
            r.spec_own_id() == own_id,
            r.spec_pools() == Seq::<ConnectedPeersPool<T>>::empty(),
            r.spec_cache() == Map::<u32, usize>::empty(),
            r.spec_count() == 0,
            r.spec_per_client_cache() == per_client_bound,
            r.spec_batch_target_size() == batch_size,
            r.spec_batch_timeout_micros() == batch_timeout_micros,
            r.spec_batch_sleep_micros() == batch_sleep_micros,
            r.spec_clients_per_pool() == clients_per_pool,
            r.spec_counter() == 0,
    {
        ConnectedPeersGroup {
            own_id,
            client_pools: Vec::new(),
            client_connections_cache: PeerDirectory::new(),
            connected_clients: 0,
            per_client_cache: per_client_bound,
            batch_target_size: batch_size,
            batch_timeout_micros,
            batch_sleep_micros,
            clients_per_pool,
            pool_id_counter: 0,
        }
    }

    /// How many clients are connected across all pools.
    pub fn client_count(&self) -> (r: usize)
        ensures
            r == self.spec_count(),
    {
        self.connected_clients
    }

    pub fn pool_count(&self) -> (r: usize)
        ensures
            r == self.spec_pools().len(),
    {
        self.client_pools.len()
    }

    /// The next pool id the group would mint.
    pub fn pool_id_counter(&self) -> (r: usize)
        ensures
            r == self.spec_counter(),
    {
        self.pool_id_counter
    }

    /// If the client is already connected, disconnects its current live
    /// sink, wherever it sits; the cache and counts stay as they are
    /// until the new sink is placed. Afterwards no live sink anywhere in
    /// the group carries the client's id.
    fn supersede_prior(&mut self, peer_id: NodeId)
        requires
            old(self).wf(),
        ensures
            final(self).wf(),
            final(self).same_config(old(self)),
            final(self).spec_cache() == old(self).spec_cache(),
            final(self).spec_count() == old(self).spec_count(),
            final(self).spec_counter() == old(self).spec_counter(),
            final(self).spec_pools().len() == old(self).spec_pools().len(),
            forall|i: int|
                0 <= i < old(self).spec_pools().len() ==> {
                    &&& (#[trigger] final(self).spec_pools()[i]).spec_pool_id() == old(self).spec_pools()[i].spec_pool_id()
                    &&& final(self).spec_pools()[i].spec_finished() == old(self).spec_pools()[i].spec_finished()
                    &&& final(self).spec_pools()[i].spec_client_limit() == old(self).spec_pools()[i].spec_client_limit()
                    &&& final(self).spec_pools()[i].spec_members().len() == old(self).spec_pools()[i].spec_members().len()
                },
            forall|i: int, j: int|
                0 <= i < old(self).spec_pools().len() && 0 <= j < old(self).spec_pools()[i].spec_members().len() ==> {
                    &&& (#[trigger] final(self).spec_pools()[i].spec_members()[j]).spec_client_id()
                        == old(self).spec_pools()[i].spec_members()[j].spec_client_id()
                    &&& final(self).spec_pools()[i].spec_members()[j].is_pooled() == old(self).spec_pools()[i].spec_members()[j].is_pooled()
                    &&& (final(self).spec_pools()[i].spec_members()[j].is_live() ==> old(self).spec_pools()[i].spec_members()[j].is_live() && final(self).spec_pools()[i].spec_members()[j] == old(self).spec_pools()[i].spec_members()[j])
                    &&& (old(self).spec_pools()[i].spec_members()[j].spec_client_id() != peer_id
                        ==> final(self).spec_pools()[i].spec_members()[j] == old(self).spec_pools()[i].spec_members()[j])
                },
            forall|i: int, j: int|
                0 <= i < final(self).spec_pools().len() && 0 <= j < final(self).spec_pools()[i].spec_members().len() && (#[trigger] final(self).spec_pools()[i].spec_members()[j]).is_live() ==> final(self).spec_pools()[i].spec_members()[j].spec_client_id() != peer_id,
    {
        let ghost pre = *old(self);
        let cached = self.client_connections_cache.get(peer_id.0);
        match cached {
            None => {
                proof {
                    assert forall|i: int, j: int|
                        0 <= i < self.spec_pools().len() && 0 <= j < self.spec_pools()[i].spec_members().len()
                            && (#[trigger] self.spec_pools()[i].spec_members()[j]).is_live() implies self.spec_pools()[i].spec_members()[j].spec_client_id()
                        != peer_id by {
                        if self.spec_pools()[i].spec_members()[j].spec_client_id() == peer_id {
                            assert(self.spec_cache().dom().contains(peer_id.0));
                        }
                    }
                }
            }
            Some(old_pid) => {
                match self.find_pool_index(old_pid) {
                    None => {
                        proof {
                            let i0 = choose|i: int|
                                0 <= i < pre.spec_pools().len() && (
                                #[trigger] pre.spec_pools()[i]).spec_pool_id() == old_pid
                                    && pool_has_member_for(pre.spec_pools()[i], peer_id.0);
                            assert(false);
                        }
                    }
                    Some(k) => {
                        proof {
                            assert(pre.spec_pools()[k as int].wf());
                        }
                        self.client_pools[k].disconnect_live(peer_id);
                        proof {
                            assert(self.spec_pools() =~= pre.spec_pools().update(
                                k as int,
                                self.spec_pools()[k as int],
                            ));
                            // the disconnected pool had the only live sinks
                            // for this client: every other pool's live sinks
                            // are cached under their own pool id
                            assert forall|i: int, j: int|
                                0 <= i < self.spec_pools().len() && 0 <= j
                                    < self.spec_pools()[i].spec_members().len() && (
                                #[trigger] self.spec_pools()[i].spec_members()[j]).is_live() implies self.spec_pools()[i].spec_members()[j].spec_client_id()
                                != peer_id by {
                                if self.spec_pools()[i].spec_members()[j].spec_client_id()
                                    == peer_id {
                                    if i != k as int {
                                        assert(self.spec_pools()[i].spec_members()[j]
                                            == pre.spec_pools()[i].spec_members()[j]);
                                        assert(pre.spec_pools()[i].spec_members()[j].is_live());
                                        assert(pre.spec_cache()[peer_id.0]
                                            == pre.spec_pools()[i].spec_pool_id());
                                        if i < k as int {
                                            assert(pre.spec_pools()[i].spec_pool_id()
                                                < pre.spec_pools()[k as int].spec_pool_id());
                                        } else {
                                            assert(pre.spec_pools()[k as int].spec_pool_id()
                                                < pre.spec_pools()[i].spec_pool_id());
                                        }
                                    } else {
                                        assert(forall|j1: int, j2: int|
                                            0 <= j1 < j2 < pre.spec_pools()[k as int].spec_members().len()
                                                && (#[trigger] pre.spec_pools()[k as int].spec_members()[j1]).is_live()
                                                && (#[trigger] pre.spec_pools()[k as int].spec_members()[j2]).is_live()
                                                ==> pre.spec_pools()[k as int].spec_members()[j1].spec_client_id()
                                                != pre.spec_pools()[k as int].spec_members()[j2].spec_client_id());
                                    }
                                }
                            }
                            // the invariant pieces survive the disconnection
                            assert forall|c: u32| #[trigger]
                                self.spec_cache().dom().contains(c) implies some_pool_holds(
                                self.spec_pools(),
                                self.spec_cache()[c],
                                c,
                            ) by {
                                lemma_holds_preserved(
                                    pre.spec_pools(),
                                    self.spec_pools(),
                                    pre.spec_cache()[c],
                                    c,
                                );
                            }
                        }
                    }
                }
            }
        }
    }

    /// Registers a client: builds its fresh sink, disconnects any prior
    /// sink for the same id, places the new sink in the first pool with
    /// room or in a freshly spawned pool, and records the placement in
    /// the cache. Returns the id of the pool that took the client.
    /// Re-registering changes neither the cache size nor the count.
    #[verifier::loop_isolation(false)]
    pub fn init_client(&mut self, peer_id: NodeId) -> (r: usize)
        requires
            old(self).wf(),
            old(self).spec_count() < usize::MAX,
            old(self).spec_counter() < usize::MAX,
        ensures
            final(self).wf(),
            final(self).same_config(old(self)),
            final(self).spec_cache() == old(self).spec_cache().insert(peer_id.0, r),
            old(self).spec_cache().dom().contains(peer_id.0) ==> final(self).spec_count() == old(self).spec_count(),
            !old(self).spec_cache().dom().contains(peer_id.0) ==> final(self).spec_count() == old(self).spec_count() + 1,
            forall|i: int|
                0 <= i < old(self).spec_pools().len() ==> (#[trigger] final(self).spec_pools()[i]).spec_pool_id() == old(self).spec_pools()[i].spec_pool_id(),
            first_open_pool(old(self).spec_pools()) >= 0 ==> {
                &&& final(self).spec_pools().len() == old(self).spec_pools().len()
                &&& final(self).spec_counter() == old(self).spec_counter()
                &&& r == old(self).spec_pools()[first_open_pool(old(self).spec_pools())].spec_pool_id()
                &&& final(self).spec_pools()[first_open_pool(old(self).spec_pools())].spec_members().len() == old(self).spec_pools()[first_open_pool(old(self).spec_pools())].spec_members().len() + 1
            },
            first_open_pool(old(self).spec_pools()) == -1 ==> {
                &&& final(self).spec_pools().len() == old(self).spec_pools().len() + 1
                &&& final(self).spec_counter() == old(self).spec_counter() + 1
                &&& r == old(self).spec_counter()
                &&& final(self).spec_pools()[old(self).spec_pools().len() as int].spec_pool_id() == r
                &&& final(self).spec_pools()[old(self).spec_pools().len() as int].spec_members().len() == 1
            },
            forall|i: int, j: int|
                0 <= i < old(self).spec_pools().len() && 0 <= j < old(self).spec_pools()[i].spec_members().len()
                    && (#[trigger] old(self).spec_pools()[i].spec_members()[j]).is_live()
                    && old(self).spec_pools()[i].spec_members()[j].spec_client_id() == peer_id
                    ==> !final(self).spec_pools()[i].spec_members()[j].is_live(),
            // frame: sinks of other clients keep their state, and only
            // the pool that took the newcomer grows
            forall|i: int, j: int|
                0 <= i < old(self).spec_pools().len() && 0 <= j < old(self).spec_pools()[i].spec_members().len()
                    && (#[trigger] old(self).spec_pools()[i].spec_members()[j]).spec_client_id()
                    != peer_id ==> final(self).spec_pools()[i].spec_members()[j] == old(self).spec_pools()[i].spec_members()[j],
            forall|i: int|
                0 <= i < old(self).spec_pools().len() && i != first_open_pool(old(self).spec_pools()) ==> (#[trigger] final(self).spec_pools()[i]).spec_members().len() == old(self).spec_pools()[i].spec_members().len(),
            forall|i: int|
                0 <= i < old(self).spec_pools().len() ==> (#[trigger] final(self).spec_pools()[i]).spec_finished() == old(self).spec_pools()[i].spec_finished(),
            first_open_pool(old(self).spec_pools()) == -1 ==> !final(self).spec_pools()[old(self).spec_pools().len() as int].spec_finished(),
            exists|i: int|
                {
                    &&& 0 <= i < final(self).spec_pools().len()
                    &&& (#[trigger] final(self).spec_pools()[i]).spec_pool_id() == r
                    &&& final(self).spec_pools()[i].spec_members().len() > 0
                    &&& final(self).spec_pools()[i].spec_members().last().is_live()
                    &&& final(self).spec_pools()[i].spec_members().last().spec_client_id() == peer_id
                    &&& final(self).spec_pools()[i].spec_members().last().buffer() == Seq::<T>::empty()
                },
    {
        self.supersede_prior(peer_id);
        let ghost mid = *self;

        // Find the first pool with room under its membership bound.
        let npools = self.client_pools.len();
        let mut target: usize = npools;
        let mut i: usize = 0;
        while i < npools
            invariant
                i <= npools,
                target <= npools,
                target == npools ==> forall|j: int|
                    0 <= j < i ==> !has_room(#[trigger] self.spec_pools()[j]),
                target < npools ==> has_room(self.spec_pools()[target as int]) && forall|j: int|
                    0 <= j < target ==> !has_room(#[trigger] self.spec_pools()[j]),
            decreases npools - i,
        {
            if target == npools {
                if self.client_pools[i].member_count() < self.client_pools[i].client_limit() {
                    target = i;
                }
            }
            i = i + 1;
        }

        let target_index: usize;
        let pid: usize;
        if target < npools {
            proof {
                assert forall|j: int| 0 <= j < target implies !has_room(
                    #[trigger] mid.spec_pools()[j],
                ) by {
                    assert(!has_room(self.spec_pools()[j]));
                }
                assert(has_room(mid.spec_pools()[target as int]));
                lemma_first_open_is(mid.spec_pools(), target as int);
                lemma_first_open_congruent(old(self).spec_pools(), mid.spec_pools());
            }
            target_index = target;
            pid = self.client_pools[target].pool_id();
        } else {
            proof {
                assert forall|j: int| 0 <= j < mid.spec_pools().len() implies !has_room(
                    #[trigger] mid.spec_pools()[j],
                ) by {
                    assert(!has_room(self.spec_pools()[j]));
                }
                lemma_first_open_none(mid.spec_pools());
                lemma_first_open_congruent(old(self).spec_pools(), mid.spec_pools());
            }
            let new_pid: usize;
            match self.get_pool_id() {
                Ok(id) => {
                    new_pid = id;
                }
                Err(_) => {
                    proof {
                        assert(false);
                    }
                    new_pid = 0;
                }
            }
            let pool = ConnectedPeersPool::new(
                new_pid,
                self.batch_target_size,
                self.clients_per_pool,
                self.batch_timeout_micros,
                self.batch_sleep_micros,
                self.per_client_cache,
            );
            self.client_pools.push(pool);
            target_index = npools;
            pid = new_pid;
        }

        let ghost before_add = *self;
        let sink = ConnectedPeer::new_pooled(peer_id, self.per_client_cache);
        match self.client_pools[target_index].attempt_to_add(sink) {
            Ok(()) => {}
            Err(_) => {
                proof {
                    assert(false);
                }
            }
        }
        proof {
            assert(self.spec_pools() =~= before_add.spec_pools().update(
                target_index as int,
                self.spec_pools()[target_index as int],
            ));
        }

        let prev = self.client_connections_cache.insert(peer_id.0, pid);
        match prev {
            None => {
                self.connected_clients = self.connected_clients + 1;
            }
            Some(_) => {},
        }

        proof {
            let fpools = self.spec_pools();
            let fcache = self.spec_cache();
            let opools = old(self).spec_pools();
            let tgt = target_index as int;
            assert(fpools[tgt].spec_members() == before_add.spec_pools()[tgt].spec_members().push(sink));

            assert forall|i: int|
                0 <= i < fpools.len() implies ((#[trigger] fpools[i]).wf()
                && fpools[i].spec_client_limit() == self.spec_clients_per_pool()) by {
                if i != tgt {
                    assert(fpools[i] == before_add.spec_pools()[i]);
                }
            }
            assert(pool_ids_below(fpools, self.spec_counter()));
            assert(pools_sorted_at(fpools));

            // every live sink is cached at its own pool
            assert forall|i: int, j: int|
                0 <= i < fpools.len() && 0 <= j < fpools[i].spec_members().len() && (
                #[trigger] fpools[i].spec_members()[j]).is_live() implies (fcache.dom().contains(
                fpools[i].spec_members()[j].spec_client_id().0,
            ) && fcache[fpools[i].spec_members()[j].spec_client_id().0]
                == fpools[i].spec_pool_id()) by {
                if i == tgt && j == fpools[tgt].spec_members().len() - 1 {
                    assert(fpools[i].spec_members()[j] == sink);
                } else {
                    assert(fpools[i].spec_members()[j]
                        == before_add.spec_pools()[i].spec_members()[j]);
                    if i < mid.spec_pools().len() {
                        assert(mid.spec_pools()[i].spec_members()[j].is_live());
                        assert(mid.spec_pools()[i].spec_members()[j].spec_client_id() != peer_id);
                    } else {
                        assert(before_add.spec_pools()[i].spec_members().len() == 0);
                    }
                }
            }

            // no two live sinks of one pool share an id
            assert forall|i: int, j1: int, j2: int|
                0 <= i < fpools.len() && 0 <= j1 < j2 < fpools[i].spec_members().len() && (
                #[trigger] fpools[i].spec_members()[j1]).is_live() && (
                #[trigger] fpools[i].spec_members()[j2]).is_live() implies fpools[i].spec_members()[j1].spec_client_id() != fpools[i].spec_members()[j2].spec_client_id() by {
                if i < mid.spec_pools().len() {
                    if i == tgt && j2 == fpools[tgt].spec_members().len() - 1 {
                        assert(fpools[i].spec_members()[j1]
                            == mid.spec_pools()[i].spec_members()[j1]);
                        assert(mid.spec_pools()[i].spec_members()[j1].spec_client_id() != peer_id);
                        assert(fpools[i].spec_members()[j2] == sink);
                    } else {
                        assert(fpools[i].spec_members()[j1]
                            == mid.spec_pools()[i].spec_members()[j1]);
                        assert(fpools[i].spec_members()[j2]
                            == mid.spec_pools()[i].spec_members()[j2]);
                    }
                } else {
                    assert(before_add.spec_pools()[i].spec_members().len() == 0);
                }
            }

            // every cached client is still found in its pool
            assert forall|c: u32| #[trigger] fcache.dom().contains(c) implies some_pool_holds(
                fpools,
                fcache[c],
                c,
            ) by {
                if c == peer_id.0 {
                    assert(fpools[tgt].spec_members()[fpools[tgt].spec_members().len() - 1]
                        == sink);
                    assert(pool_has_member_for(fpools[tgt], c));
                    assert(0 <= tgt < fpools.len() && fpools[tgt].spec_pool_id() == fcache[c]
                        && pool_has_member_for(fpools[tgt], c));
                } else {
                    assert(mid.spec_cache().dom().contains(c));
                    lemma_holds_preserved(mid.spec_pools(), fpools, mid.spec_cache()[c], c);
                }
            }

            // the prior live sink for this client, wherever it was, is dead
            assert forall|i: int, j: int|
                0 <= i < opools.len() && 0 <= j < opools[i].spec_members().len() && (
                #[trigger] opools[i].spec_members()[j]).is_live()
                && opools[i].spec_members()[j].spec_client_id() == peer_id implies !self.spec_pools()[i].spec_members()[j].is_live() by {
                assert(self.spec_pools()[i].spec_members()[j]
                    == before_add.spec_pools()[i].spec_members()[j]);
                if mid.spec_pools()[i].spec_members()[j].is_live() {
                    assert(mid.spec_pools()[i].spec_members()[j].spec_client_id() != peer_id);
                    assert(mid.spec_pools()[i].spec_members()[j].spec_client_id()
                        == opools[i].spec_members()[j].spec_client_id());
                }
            }

            // the witness for the freshly placed sink
            assert(fpools[tgt].spec_members().last() == sink);
            assert(0 <= tgt < fpools.len() && fpools[tgt].spec_pool_id() == pid
                && fpools[tgt].spec_members().len() > 0 && fpools[tgt].spec_members().last().is_live()
                && fpools[tgt].spec_members().last().spec_client_id() == peer_id
                && fpools[tgt].spec_members().last().buffer() == Seq::<T>::empty());
        }
        pid
    }

    /// Disconnects the client's live sink, if it has one. The cache entry
    /// and the client count stay as they are until a collect cycle reaps
    /// the sink.
    pub fn disconnect_client(&mut self, peer_id: NodeId)
        requires
            old(self).wf(),
        ensures
            final(self).wf(),
            final(self).same_config(old(self)),
            final(self).spec_cache() == old(self).spec_cache(),
            final(self).spec_count() == old(self).spec_count(),
            final(self).spec_counter() == old(self).spec_counter(),
            final(self).spec_pools().len() == old(self).spec_pools().len(),
            forall|i: int|
                0 <= i < old(self).spec_pools().len() ==> {
                    &&& (#[trigger] final(self).spec_pools()[i]).spec_pool_id() == old(self).spec_pools()[i].spec_pool_id()
                    &&& final(self).spec_pools()[i].spec_members().len() == old(self).spec_pools()[i].spec_members().len()
                },
            forall|i: int, j: int|
                0 <= i < old(self).spec_pools().len() && 0 <= j < old(self).spec_pools()[i].spec_members().len() ==> {
                    &&& (#[trigger] final(self).spec_pools()[i].spec_members()[j]).spec_client_id() == old(self).spec_pools()[i].spec_members()[j].spec_client_id()
                    &&& (final(self).spec_pools()[i].spec_members()[j].is_live() ==> old(self).spec_pools()[i].spec_members()[j].is_live())
                    &&& (old(self).spec_pools()[i].spec_members()[j].spec_client_id() != peer_id ==> final(self).spec_pools()[i].spec_members()[j] == old(self).spec_pools()[i].spec_members()[j])
                },
            forall|i: int, j: int|
                0 <= i < final(self).spec_pools().len() && 0 <= j < final(self).spec_pools()[i].spec_members().len()
                    && (#[trigger] final(self).spec_pools()[i].spec_members()[j]).is_live()
                    ==> final(self).spec_pools()[i].spec_members()[j].spec_client_id() != peer_id,
    {
        self.supersede_prior(peer_id);
    }

    /// Looks the client up and hands out a borrow of its live sink, if it
    /// still has one. A client whose sink was disconnected but not yet
    /// reaped resolves to nothing, as does an unknown client.
    pub fn get_client_conn(&self, client_id: NodeId) -> (r: Option<&ConnectedPeer<T>>)
        requires
            self.wf(),
        ensures
            (r matches Some(p) ==> p.is_live() && p.spec_client_id() == client_id && exists|
                i: int,
                j: int,
            |
                0 <= i < self.spec_pools().len() && 0 <= j < self.spec_pools()[i].spec_members().len() && (#[trigger] self.spec_pools()[i].spec_members()[j]).is_live() && self.spec_pools()[i].spec_members()[j].spec_client_id() == client_id),
            r is None ==> forall|i: int, j: int|
                0 <= i < self.spec_pools().len() && 0 <= j < self.spec_pools()[i].spec_members().len()
                    ==> !((#[trigger] self.spec_pools()[i].spec_members()[j]).is_live()
                    && self.spec_pools()[i].spec_members()[j].spec_client_id() == client_id),
    {
        match self.client_connections_cache.get(client_id.0) {
            None => {
                proof {
                    assert forall|i: int, j: int|
                        0 <= i < self.spec_pools().len() && 0 <= j < self.spec_pools()[i].spec_members().len() implies !((
                        #[trigger] self.spec_pools()[i].spec_members()[j]).is_live()
                        && self.spec_pools()[i].spec_members()[j].spec_client_id() == client_id) by {
                        if self.spec_pools()[i].spec_members()[j].is_live()
                            && self.spec_pools()[i].spec_members()[j].spec_client_id()
                            == client_id {
                            assert(self.spec_cache().dom().contains(client_id.0));
                        }
                    }
                }
                None
            }
            Some(pid) => {
                match self.find_pool_index(pid) {
                    None => {
                        proof {
                            let i0 = choose|i: int|
                                0 <= i < self.spec_pools().len() && (
                                #[trigger] self.spec_pools()[i]).spec_pool_id() == pid
                                    && pool_has_member_for(self.spec_pools()[i], client_id.0);
                            assert(false);
                        }
                        None
                    }
                    Some(k) => {
                        let found = self.client_pools[k].get_live(client_id);
                        proof {
                            if found is Some {
                                let j0 = choose|j: int|
                                    0 <= j < self.spec_pools()[k as int].spec_members().len() && (
                                    #[trigger] self.spec_pools()[k as int].spec_members()[j]).is_live()
                                        && self.spec_pools()[k as int].spec_members()[j].spec_client_id()
                                        == client_id;
                                assert((k as int) < self.spec_pools().len() && 0 <= j0
                                    < self.spec_pools()[k as int].spec_members().len()
                                    && self.spec_pools()[k as int].spec_members()[j0].is_live()
                                    && self.spec_pools()[k as int].spec_members()[j0].spec_client_id()
                                    == client_id);
                            }
                            if found is None {
                                assert forall|i: int, j: int|
                                    0 <= i < self.spec_pools().len() && 0 <= j
                                        < self.spec_pools()[i].spec_members().len() implies !((
                                #[trigger] self.spec_pools()[i].spec_members()[j]).is_live()
                                    && self.spec_pools()[i].spec_members()[j].spec_client_id()
                                    == client_id) by {
                                    if self.spec_pools()[i].spec_members()[j].is_live()
                                        && self.spec_pools()[i].spec_members()[j].spec_client_id()
                                        == client_id {
                                        assert(self.spec_cache()[client_id.0]
                                            == self.spec_pools()[i].spec_pool_id());
                                        if i < k as int {
                                            assert(self.spec_pools()[i].spec_pool_id()
                                                < self.spec_pools()[k as int].spec_pool_id());
                                        } else if i > k as int {
                                            assert(self.spec_pools()[k as int].spec_pool_id()
                                                < self.spec_pools()[i].spec_pool_id());
                                        }
                                    }
                                }
                            }
                        }
                        found
                    }
                }
            }
        }
    }

    /// Drops the cache entries, and with them the client count, of the
    /// reaped clients of one pool: those on the list whose entry still
    /// names this pool and whose sink did not survive the collect cycle.
    #[verifier::loop_isolation(false)]
    fn del_cached_clients(&mut self, pool_id: usize, pool_index: usize, clients: &Vec<NodeId>)
        requires
            old(self).spec_cache().dom().finite(),
            old(self).spec_count() == old(self).spec_cache().dom().len(),
            pool_index < old(self).spec_pools().len(),
            old(self).spec_pools()[pool_index as int].spec_pool_id() == pool_id,
        ensures
            final(self).same_config(old(self)),
            final(self).spec_pools() == old(self).spec_pools(),
            final(self).spec_counter() == old(self).spec_counter(),
            final(self).spec_cache().dom().finite(),
            final(self).spec_count() == final(self).spec_cache().dom().len(),
            forall|c: u32|
                #[trigger] final(self).spec_cache().dom().contains(c) <==> (old(self).spec_cache().dom().contains(c) && !(id_in_list(clients@, c) && old(self).spec_cache()[c] == pool_id && !old(self).spec_pools()[pool_index as int].spec_has_live(NodeId(c)))),
            forall|c: u32|
                #[trigger] final(self).spec_cache().dom().contains(c) ==> final(self).spec_cache()[c] == old(self).spec_cache()[c],
    {
        let n = clients.len();
        let mut i: usize = 0;
        while i < n
            invariant
                i <= n,
                self.same_config(old(self)),
                self.spec_pools() == old(self).spec_pools(),
                self.spec_counter() == old(self).spec_counter(),
                self.spec_cache().dom().finite(),
                self.spec_count() == self.spec_cache().dom().len(),
                forall|c: u32|
                    #[trigger] self.spec_cache().dom().contains(c) <==> (old(self).spec_cache().dom().contains(c) && !(id_in_prefix(clients@, i as int, c) && old(self).spec_cache()[c] == pool_id && !old(self).spec_pools()[pool_index as int].spec_has_live(NodeId(c)))),
                forall|c: u32|
                    #[trigger] self.spec_cache().dom().contains(c) ==> self.spec_cache()[c] == old(self).spec_cache()[c],
            decreases n - i,
        {
            let id = clients[i];
            match self.client_connections_cache.get(id.0) {
                Some(pid) => {
                    if pid == pool_id {
                        let live = self.client_pools[pool_index].contains_live(id);
                        if !live {
                            self.client_connections_cache.remove(id.0);
                            self.connected_clients = self.connected_clients - 1;
                            proof {
                                assert(NodeId(id.0) == id);
                            }
                        }
                    }
                }
                None => {},
            }
            proof {
                assert forall|c: u32|
                    #[trigger] self.spec_cache().dom().contains(c) <==> (old(self).spec_cache().dom().contains(c) && !(id_in_prefix(clients@, i as int + 1, c) && old(self).spec_cache()[c] == pool_id && !old(self).spec_pools()[pool_index as int].spec_has_live(NodeId(c)))) by {
                    if c == id.0 {
                        assert(clients@[i as int].0 == c);
                        assert(id_in_prefix(clients@, i as int + 1, c));
                        assert(NodeId(c) == id);
                    } else {
                        assert(id_in_prefix(clients@, i as int + 1, c) == id_in_prefix(
                            clients@,
                            i as int,
                            c,
                        )) by {
                            if id_in_prefix(clients@, i as int + 1, c) {
                                let k0 = choose|k: int|
                                    0 <= k < i as int + 1 && (#[trigger] clients@[k]).0 == c;
                                assert(k0 < i as int);
                                assert(id_in_prefix(clients@, i as int, c));
                            }
                            if id_in_prefix(clients@, i as int, c) {
                                let k0 = choose|k: int|
                                    0 <= k < i as int && (#[trigger] clients@[k]).0 == c;
                                assert(0 <= k0 < i as int + 1 && clients@[k0].0 == c);
                            }
                        }
                    }
                }
            }
            i = i + 1;
        }
        proof {
            assert forall|c: u32|
                #[trigger] self.spec_cache().dom().contains(c) <==> (old(self).spec_cache().dom().contains(c) && !(id_in_list(clients@, c) && old(self).spec_cache()[c] == pool_id && !old(self).spec_pools()[pool_index as int].spec_has_live(NodeId(c)))) by {
                assert(id_in_list(clients@, c) == id_in_prefix(clients@, n as int, c));
            }
        }
    }

    /// Takes the pool with the given id out of the directory, once no
    /// cache entry names it any more, and reports whether it was there.
    fn del_pool(&mut self, pool_id: usize) -> (r: bool)
        requires
            old(self).wf(),
            forall|c: u32|
                #[trigger] old(self).spec_cache().dom().contains(c) ==> old(self).spec_cache()[c] != pool_id,
        ensures
            final(self).wf(),
            final(self).same_config(old(self)),
            final(self).spec_cache() == old(self).spec_cache(),
            final(self).spec_count() == old(self).spec_count(),
            final(self).spec_counter() == old(self).spec_counter(),
            (exists|i: int|
                0 <= i < old(self).spec_pools().len() && (#[trigger] old(self).spec_pools()[i]).spec_pool_id() == pool_id) ==> (r && final(self).spec_pools().len() == old(self).spec_pools().len() - 1),
            (forall|i: int|
                0 <= i < old(self).spec_pools().len() ==> (#[trigger] old(self).spec_pools()[i]).spec_pool_id() != pool_id) ==> (!r && *final(self) == *old(self)),
            forall|i: int|
                0 <= i < final(self).spec_pools().len() ==> (#[trigger] final(self).spec_pools()[i]).spec_pool_id() != pool_id,
    {
        match self.find_pool_index(pool_id) {
            None => false,
            Some(k) => {
                let ghost pre = *old(self);
                self.client_pools.remove(k);
                proof {
                    let fpools = self.spec_pools();
                    let opools = pre.spec_pools();
                    assert(fpools == opools.remove(k as int));
                    assert forall|i: int| 0 <= i < fpools.len() implies #[trigger] fpools[i] == (
                        if i < k as int {
                            opools[i]
                        } else {
                            opools[i + 1]
                        }
                    ) by {
                        assert(opools.remove(k as int) =~= opools.subrange(0, k as int)
                            + opools.subrange(k as int + 1, opools.len() as int));
                    }
                    assert forall|c: u32| #[trigger]
                        self.spec_cache().dom().contains(c) implies some_pool_holds(
                        fpools,
                        self.spec_cache()[c],
                        c,
                    ) by {
                        let i0 = choose|i: int|
                            0 <= i < opools.len() && (#[trigger] opools[i]).spec_pool_id()
                                == pre.spec_cache()[c] && pool_has_member_for(opools[i], c);
                        assert(opools[i0].spec_pool_id() != pool_id);
                        if i0 < k as int {
                            assert(fpools[i0] == opools[i0]);
                            assert(0 <= i0 < fpools.len() && fpools[i0].spec_pool_id()
                                == self.spec_cache()[c] && pool_has_member_for(fpools[i0], c));
                        } else {
                            assert(i0 != k as int);
                            assert(fpools[i0 - 1] == opools[i0]);
                            assert(0 <= i0 - 1 < fpools.len() && fpools[i0 - 1].spec_pool_id()
                                == self.spec_cache()[c] && pool_has_member_for(fpools[i0 - 1], c));
                        }
                    }
                }
                true
            }
        }
    }

    /// One iteration of the batch worker that serves the pool with the
    /// given id: collect a batch from a random rotation point, purge the
    /// reaped clients from the cache, send the batch, and delete the pool
    /// once it has no live sink left. At most one batch goes out per
    /// iteration, and batches already in the channel stay in place.
    pub fn run_pool_iteration(&mut self, pool_id: usize, tx: &mut BatchChannel<T>, now: u64) -> (r:
        WorkerOutcome<T>)
        requires
            old(self).wf(),
            old(tx).wf(),
        ensures
            final(self).wf(),
            final(tx).wf(),
            final(self).same_config(old(self)),
            final(self).spec_counter() == old(self).spec_counter(),
            final(tx).spec_capacity() == old(tx).spec_capacity(),
            final(tx)@.len() <= old(tx)@.len() + 1,
            forall|b: int| 0 <= b < old(tx)@.len() ==> final(tx)@[b] == old(tx)@[b],
            forall|c: u32|
                #[trigger] final(self).spec_cache().dom().contains(c) ==> old(self).spec_cache().dom().contains(c) && final(self).spec_cache()[c] == old(self).spec_cache()[c],
            (forall|i: int|
                0 <= i < old(self).spec_pools().len() ==> (#[trigger] old(self).spec_pools()[i]).spec_pool_id() != pool_id) ==> (r is Finished && *final(self) == *old(self) && final(tx)@ == old(tx)@),
            forall|i: int|
                (0 <= i < old(self).spec_pools().len() && (#[trigger] old(self).spec_pools()[i]).spec_pool_id() == pool_id && old(self).spec_pools()[i].spec_finished()) ==> (r is Finished && *final(self) == *old(self) && final(tx)@ == old(tx)@),
            forall|i: int|
                (0 <= i < old(self).spec_pools().len() && (#[trigger] old(self).spec_pools()[i]).spec_pool_id() == pool_id && !old(self).spec_pools()[i].spec_finished() && (forall|j: int|
                    0 <= j < old(self).spec_pools()[i].spec_members().len() ==> !(#[trigger] old(self).spec_pools()[i].spec_members()[j]).is_live())) ==> r is PoolClosed,
            r is PoolClosed ==> (final(tx)@ == old(tx)@ && forall|i2: int|
                0 <= i2 < final(self).spec_pools().len() ==> (#[trigger] final(self).spec_pools()[i2]).spec_pool_id() != pool_id),
            r is NothingToSend ==> final(tx)@ == old(tx)@,
            r is Finished ==> final(tx)@ == old(tx)@ && *final(self) == *old(self),
            r is BatchSent ==> final(tx)@.len() == old(tx)@.len() + 1 && final(tx)@.last().created_at == now && exists|i: int, start: int|
                #![trigger collected(old(self).spec_pools()[i].spec_members(), start)]
                0 <= i < old(self).spec_pools().len() && old(self).spec_pools()[i].spec_pool_id() == pool_id && 0 <= start < old(self).spec_pools()[i].spec_members().len() && final(tx)@.last().requests@ == collected(old(self).spec_pools()[i].spec_members(), start),
            r matches WorkerOutcome::OutputFull(b) ==> final(tx)@ == old(tx)@ && b.created_at == now && b.requests@.len() > 0 && exists|i: int, start: int|
                #![trigger collected(old(self).spec_pools()[i].spec_members(), start)]
                0 <= i < old(self).spec_pools().len() && old(self).spec_pools()[i].spec_pool_id() == pool_id && 0 <= start < old(self).spec_pools()[i].spec_members().len() && b.requests@ == collected(old(self).spec_pools()[i].spec_members(), start),
            r is BatchSent ==> final(tx)@.last().requests@.len() > 0,
            // a running pool whose live sinks hold requests owes a batch:
            // it goes out, or comes back only because the channel is full
            forall|i: int|
                (0 <= i < old(self).spec_pools().len() && (#[trigger] old(self).spec_pools()[i]).spec_pool_id() == pool_id && !old(self).spec_pools()[i].spec_finished() && (exists|j: int|
                    0 <= j < old(self).spec_pools()[i].spec_members().len() && (#[trigger] old(self).spec_pools()[i].spec_members()[j]).is_live() && old(self).spec_pools()[i].spec_members()[j].buffer().len() > 0)) ==> ((r is BatchSent || r is OutputFull) && (old(tx)@.len() < old(tx).spec_capacity() ==> r is BatchSent)),
            // when the pool survives the iteration, it holds exactly its
            // live sinks, every buffer emptied, and the rest of the
            // directory is untouched
            (r is BatchSent || r is NothingToSend || r is OutputFull) ==> {
                &&& final(self).spec_pools().len() == old(self).spec_pools().len()
                &&& (forall|i: int|
                    0 <= i < old(self).spec_pools().len() ==> (#[trigger] final(self).spec_pools()[i]).spec_pool_id() == old(self).spec_pools()[i].spec_pool_id())
                &&& (forall|i: int|
                    0 <= i < old(self).spec_pools().len() && (#[trigger] old(self).spec_pools()[i]).spec_pool_id() != pool_id ==> final(self).spec_pools()[i] == old(self).spec_pools()[i])
                &&& (forall|i: int|
                    (0 <= i < old(self).spec_pools().len() && (#[trigger] old(self).spec_pools()[i]).spec_pool_id() == pool_id) ==> {
                        &&& final(self).spec_pools()[i].spec_members().len() == live_ids_of(old(self).spec_pools()[i].spec_members()).len()
                        &&& (forall|j: int|
                            0 <= j < final(self).spec_pools()[i].spec_members().len() ==> {
                                &&& (#[trigger] final(self).spec_pools()[i].spec_members()[j]).is_live()
                                &&& final(self).spec_pools()[i].spec_members()[j].buffer() == Seq::<T>::empty()
                                &&& final(self).spec_pools()[i].spec_members()[j].spec_client_id() == live_ids_of(old(self).spec_pools()[i].spec_members())[j]
                            })
                    })
            },
            // exactly the reaped clients leave the cache: the entries that
            // named this pool and kept no live sink in it
            !(r is Finished) ==> forall|i: int|
                (0 <= i < old(self).spec_pools().len() && (#[trigger] old(self).spec_pools()[i]).spec_pool_id() == pool_id) ==> forall|c: u32|
                    #[trigger] final(self).spec_cache().dom().contains(c) <==> (old(self).spec_cache().dom().contains(c) && !(old(self).spec_cache()[c] == pool_id && !(exists|j: int|
                        0 <= j < old(self).spec_pools()[i].spec_members().len() && (#[trigger] old(self).spec_pools()[i].spec_members()[j]).is_live() && old(self).spec_pools()[i].spec_members()[j].spec_client_id().0 == c))),
    {
        let kopt = self.find_pool_index(pool_id);
        let k: usize;
        match kopt {
            None => {
                return WorkerOutcome::Finished;
            }
            Some(k0) => {
                k = k0;
            }
        }
        proof {
            // the sorted ids make k the only pool carrying pool_id
            assert forall|i: int|
                0 <= i < old(self).spec_pools().len() && (#[trigger] old(self).spec_pools()[i]).spec_pool_id() == pool_id implies i == k as int by {
                if i < k as int {
                    assert(old(self).spec_pools()[i].spec_pool_id() < old(self).spec_pools()[
                        k as int
                    ].spec_pool_id());
                } else if i > k as int {
                    assert(old(self).spec_pools()[k as int].spec_pool_id() < old(self).spec_pools()[i].spec_pool_id());
                }
            }
        }
        if self.client_pools[k].is_finished() {
            return WorkerOutcome::Finished;
        }
        let ghost g0 = *old(self);
        let n = self.client_pools[k].member_count();
        if n == 0 {
            proof {
                assert forall|c: u32| #[trigger]
                    g0.spec_cache().dom().contains(c) implies g0.spec_cache()[c] != pool_id by {
                    if g0.spec_cache()[c] == pool_id {
                        let i0 = choose|i: int|
                            0 <= i < g0.spec_pools().len() && (
                            #[trigger] g0.spec_pools()[i]).spec_pool_id() == g0.spec_cache()[c]
                                && pool_has_member_for(g0.spec_pools()[i], c);
                        if i0 < k as int {
                            assert(g0.spec_pools()[i0].spec_pool_id()
                                < g0.spec_pools()[k as int].spec_pool_id());
                        } else if i0 > k as int {
                            assert(g0.spec_pools()[k as int].spec_pool_id()
                                < g0.spec_pools()[i0].spec_pool_id());
                        }
                        let j0 = choose|j: int|
                            0 <= j < g0.spec_pools()[i0].spec_members().len() && (
                            #[trigger] g0.spec_pools()[i0].spec_members()[j]).spec_client_id().0
                                == c;
                        assert(false);
                    }
                }
            }
            self.del_pool(pool_id);
            proof {
                assert forall|c: u32| #[trigger]
                    self.spec_cache().dom().contains(c) <==> (g0.spec_cache().dom().contains(c)
                    && !(g0.spec_cache()[c] == pool_id && !(exists|j: int|
                    0 <= j < g0.spec_pools()[k as int].spec_members().len() && (
                    #[trigger] g0.spec_pools()[k as int].spec_members()[j]).is_live()
                    && g0.spec_pools()[k as int].spec_members()[j].spec_client_id().0 == c))) by {
                    if g0.spec_cache().dom().contains(c) {
                        assert(g0.spec_cache()[c] != pool_id);
                    }
                }
            }
            return WorkerOutcome::PoolClosed;
        }
        let start = rand_usize_below(n);
        let ghost g0members = self.spec_pools()[k as int].spec_members();
        proof {
            if exists|j: int|
                0 <= j < g0members.len() && (#[trigger] g0members[j]).is_live() {
            } else {
                if live_ids_of(g0members).len() > 0 {
                    lemma_live_ids_witness(g0members, 0);
                }
                assert(live_ids_of(g0members).len() == 0);
            }
        }
        let collect_out = self.client_pools[k].collect_requests(start);
        let res = collect_out.0;
        let dced = collect_out.1;
        proof {
            assert(self.spec_pools() =~= g0.spec_pools().update(
                k as int,
                self.spec_pools()[k as int],
            ));
        }
        let ghost g1 = *self;
        self.del_cached_clients(pool_id, k, &dced);
        proof {
            let g2pools = self.spec_pools();
            let g2cache = self.spec_cache();
            let kk = k as int;
            assert(g2pools == g1.spec_pools());
            // the surviving sinks of the collected pool and their origin
            assert(g1.spec_pools()[kk].spec_members().len() == live_ids_of(g0members).len());

            // pools are well formed, ids in place
            assert forall|i: int|
                0 <= i < g2pools.len() implies ((#[trigger] g2pools[i]).wf()
                && g2pools[i].spec_client_limit() == self.spec_clients_per_pool()) by {
                if i != kk {
                    assert(g2pools[i] == g0.spec_pools()[i]);
                }
            }
            assert(pool_ids_below(g2pools, self.spec_counter()));
            assert(pools_sorted_at(g2pools));

            // live sinks are still cached at their own pool
            assert forall|i: int, j: int|
                0 <= i < g2pools.len() && 0 <= j < g2pools[i].spec_members().len() && (
                #[trigger] g2pools[i].spec_members()[j]).is_live() implies (g2cache.dom().contains(
                g2pools[i].spec_members()[j].spec_client_id().0,
            ) && g2cache[g2pools[i].spec_members()[j].spec_client_id().0]
                == g2pools[i].spec_pool_id()) by {
                if i != kk {
                    assert(g2pools[i] == g0.spec_pools()[i]);
                    assert(g0.spec_pools()[i].spec_members()[j].is_live());
                    let c = g0.spec_pools()[i].spec_members()[j].spec_client_id().0;
                    assert(g0.spec_cache().dom().contains(c) && g0.spec_cache()[c]
                        == g0.spec_pools()[i].spec_pool_id());
                    if g0.spec_cache()[c] == pool_id {
                        if i < kk {
                            assert(g0.spec_pools()[i].spec_pool_id()
                                < g0.spec_pools()[kk].spec_pool_id());
                        } else {
                            assert(g0.spec_pools()[kk].spec_pool_id()
                                < g0.spec_pools()[i].spec_pool_id());
                        }
                    }
                    assert(g2cache.dom().contains(c));
                } else {
                    let id = g2pools[kk].spec_members()[j].spec_client_id();
                    assert(id == live_ids_of(g0members)[j]);
                    lemma_live_ids_witness(g0members, j);
                    let m0 = choose|m: int|
                        0 <= m < g0members.len() && (#[trigger] g0members[m]).is_live()
                            && g0members[m].spec_client_id() == live_ids_of(g0members)[j];
                    assert(g0.spec_cache().dom().contains(id.0) && g0.spec_cache()[id.0]
                        == pool_id);
                    assert(g1.spec_pools()[kk].spec_has_live(NodeId(id.0)));
                    assert(g2cache.dom().contains(id.0));
                }
            }

            // no two live sinks of one pool share an id
            assert forall|i: int, j1: int, j2: int|
                0 <= i < g2pools.len() && 0 <= j1 < j2 < g2pools[i].spec_members().len() && (
                #[trigger] g2pools[i].spec_members()[j1]).is_live() && (
                #[trigger] g2pools[i].spec_members()[j2]).is_live() implies g2pools[i].spec_members()[j1].spec_client_id() != g2pools[i].spec_members()[j2].spec_client_id() by {
                if i != kk {
                    assert(g2pools[i] == g0.spec_pools()[i]);
                } else {
                    assert(forall|m1: int, m2: int|
                        0 <= m1 < m2 < g0members.len() && (#[trigger] g0members[m1]).is_live() && (
                        #[trigger] g0members[m2]).is_live() ==> g0members[m1].spec_client_id()
                            != g0members[m2].spec_client_id());
                    lemma_live_ids_distinct(g0members);
                    assert(g2pools[kk].spec_members()[j1].spec_client_id() == live_ids_of(
                        g0members,
                    )[j1]);
                    assert(g2pools[kk].spec_members()[j2].spec_client_id() == live_ids_of(
                        g0members,
                    )[j2]);
                }
            }

            // every cached client is still found in its pool
            assert forall|c: u32| #[trigger] g2cache.dom().contains(c) implies some_pool_holds(
                g2pools,
                g2cache[c],
                c,
            ) by {
                assert(g0.spec_cache().dom().contains(c));
                assert(g2cache[c] == g0.spec_cache()[c]);
                if g0.spec_cache()[c] != pool_id {
                    let i0 = choose|i: int|
                        0 <= i < g0.spec_pools().len() && (
                        #[trigger] g0.spec_pools()[i]).spec_pool_id() == g0.spec_cache()[c]
                            && pool_has_member_for(g0.spec_pools()[i], c);
                    assert(i0 != kk);
                    assert(g2pools[i0] == g0.spec_pools()[i0]);
                    assert(0 <= i0 < g2pools.len() && g2pools[i0].spec_pool_id() == g2cache[c]
                        && pool_has_member_for(g2pools[i0], c));
                } else {
                    if g1.spec_pools()[kk].spec_has_live(NodeId(c)) {
                        let j0 = choose|j: int|
                            0 <= j < g1.spec_pools()[kk].spec_members().len() && (#[trigger] g1.spec_pools()[kk].spec_members()[j]).is_live() && g1.spec_pools()[kk].spec_members()[j].spec_client_id() == NodeId(c);
                        assert(g2pools[kk].spec_members()[j0].spec_client_id().0 == c);
                        assert(pool_has_member_for(g2pools[kk], c));
                        assert(0 <= kk < g2pools.len() && g2pools[kk].spec_pool_id() == g2cache[c]
                            && pool_has_member_for(g2pools[kk], c));
                    } else {
                        // the entry survived the purge, so its id was not
                        // on the reap list: its old sink must have been
                        // live, and therefore survived the cycle
                        assert(!(id_in_list(dced@, c) && g0.spec_cache()[c] == pool_id
                            && !g1.spec_pools()[kk].spec_has_live(NodeId(c))));
                        assert(!id_in_list(dced@, c));
                        let i0 = choose|i: int|
                            0 <= i < g0.spec_pools().len() && (
                            #[trigger] g0.spec_pools()[i]).spec_pool_id() == g0.spec_cache()[c]
                                && pool_has_member_for(g0.spec_pools()[i], c);
                        if i0 < kk {
                            assert(g0.spec_pools()[i0].spec_pool_id()
                                < g0.spec_pools()[kk].spec_pool_id());
                        } else if i0 > kk {
                            assert(g0.spec_pools()[kk].spec_pool_id()
                                < g0.spec_pools()[i0].spec_pool_id());
                        }
                        assert(i0 == kk);
                        let j0 = choose|j: int|
                            0 <= j < g0members.len() && (
                            #[trigger] g0members[j]).spec_client_id().0 == c;
                        if g0members[j0].is_live() {
                            lemma_live_ids_contains(g0members, j0);
                            let a0 = choose|a: int|
                                0 <= a < live_ids_of(g0members).len() && live_ids_of(g0members)[a]
                                    == g0members[j0].spec_client_id();
                            assert(g1.spec_pools()[kk].spec_members()[a0].is_live()
                                && g1.spec_pools()[kk].spec_members()[a0].spec_client_id()
                                == NodeId(c));
                            assert(g1.spec_pools()[kk].spec_has_live(NodeId(c)));
                            assert(false);
                        } else {
                            lemma_reaped_contains(g0members, start as int, j0);
                            let a0 = choose|a: int|
                                0 <= a < reaped_ids(g0members, start as int).len() && reaped_ids(
                                    g0members,
                                    start as int,
                                )[a] == g0members[j0].spec_client_id();
                            assert(dced@[a0].0 == c);
                            assert(id_in_list(dced@, c));
                            assert(false);
                        }
                    }
                }
            }
            // g0members names the collected pool's sinks before the cycle
            assert(g0members == g0.spec_pools()[kk].spec_members());
            // frame: every other pool is untouched and every id stays
            assert(g2pools.len() == g0.spec_pools().len());
            assert forall|i: int|
                0 <= i < g0.spec_pools().len() && (#[trigger] g0.spec_pools()[i]).spec_pool_id()
                    != pool_id implies g2pools[i] == g0.spec_pools()[i] by {
                assert(i != kk);
            }
            assert forall|i: int|
                0 <= i < g0.spec_pools().len() implies (#[trigger] g2pools[i]).spec_pool_id()
                == g0.spec_pools()[i].spec_pool_id() by {
                if i != kk {
                    assert(g2pools[i] == g0.spec_pools()[i]);
                }
            }
            // the purge removed exactly the entries of this pool's
            // clients that kept no live sink
            assert forall|c: u32| #[trigger]
                g2cache.dom().contains(c) <==> (g0.spec_cache().dom().contains(c) && !(
                g0.spec_cache()[c] == pool_id && !(exists|j: int|
                    0 <= j < g0members.len() && (#[trigger] g0members[j]).is_live()
                        && g0members[j].spec_client_id().0 == c))) by {
                if g0.spec_cache().dom().contains(c) && g0.spec_cache()[c] == pool_id {
                    if exists|j: int|
                        0 <= j < g0members.len() && (#[trigger] g0members[j]).is_live()
                            && g0members[j].spec_client_id().0 == c {
                        let j0 = choose|j: int|
                            0 <= j < g0members.len() && (#[trigger] g0members[j]).is_live()
                                && g0members[j].spec_client_id().0 == c;
                        lemma_live_ids_contains(g0members, j0);
                        let a0 = choose|a: int|
                            0 <= a < live_ids_of(g0members).len() && live_ids_of(g0members)[a]
                                == g0members[j0].spec_client_id();
                        assert(g1.spec_pools()[kk].spec_members()[a0].is_live()
                            && g1.spec_pools()[kk].spec_members()[a0].spec_client_id() == NodeId(
                            c,
                        ));
                        assert(g1.spec_pools()[kk].spec_has_live(NodeId(c)));
                    } else {
                        assert(!g1.spec_pools()[kk].spec_has_live(NodeId(c))) by {
                            if g1.spec_pools()[kk].spec_has_live(NodeId(c)) {
                                let a0 = choose|j: int|
                                    0 <= j < g1.spec_pools()[kk].spec_members().len() && (
                                    #[trigger] g1.spec_pools()[kk].spec_members()[j]).is_live()
                                        && g1.spec_pools()[kk].spec_members()[j].spec_client_id()
                                        == NodeId(c);
                                lemma_live_ids_witness(g0members, a0);
                                let m0 = choose|m: int|
                                    0 <= m < g0members.len() && (#[trigger] g0members[m]).is_live()
                                        && g0members[m].spec_client_id() == live_ids_of(
                                        g0members,
                                    )[a0];
                                assert(g0members[m0].spec_client_id().0 == c);
                                assert(false);
                            }
                        }
                        let i0 = choose|i: int|
                            0 <= i < g0.spec_pools().len() && (
                            #[trigger] g0.spec_pools()[i]).spec_pool_id() == g0.spec_cache()[c]
                                && pool_has_member_for(g0.spec_pools()[i], c);
                        assert(i0 == kk);
                        let j0 = choose|j: int|
                            0 <= j < g0.spec_pools()[kk].spec_members().len() && (
                            #[trigger] g0.spec_pools()[kk].spec_members()[j]).spec_client_id().0
                                == c;
                        assert(!g0members[j0].is_live());
                        lemma_reaped_contains(g0members, start as int, j0);
                        let a1 = choose|a: int|
                            0 <= a < reaped_ids(g0members, start as int).len() && reaped_ids(
                                g0members,
                                start as int,
                            )[a] == g0members[j0].spec_client_id();
                        assert(dced@[a1].0 == c);
                        assert(id_in_list(dced@, c));
                    }
                }
            }
        }
        match res {
            Err(_) => {
                proof {
                    assert(live_ids_of(g0members).len() == 0);
                    assert forall|j: int|
                        0 <= j < g0members.len() implies !(#[trigger] g0members[j]).is_live() by {
                        if g0members[j].is_live() {
                            lemma_live_ids_contains(g0members, j);
                        }
                    }
                    assert forall|c: u32| #[trigger]
                        self.spec_cache().dom().contains(c) implies self.spec_cache()[c]
                        != pool_id by {
                        if self.spec_cache()[c] == pool_id {
                            let i0 = choose|i: int|
                                0 <= i < self.spec_pools().len() && (
                                #[trigger] self.spec_pools()[i]).spec_pool_id()
                                    == self.spec_cache()[c] && pool_has_member_for(
                                    self.spec_pools()[i],
                                    c,
                                );
                            if i0 < k as int {
                                assert(self.spec_pools()[i0].spec_pool_id()
                                    < self.spec_pools()[k as int].spec_pool_id());
                            } else if i0 > k as int {
                                assert(self.spec_pools()[k as int].spec_pool_id()
                                    < self.spec_pools()[i0].spec_pool_id());
                            }
                            let j0 = choose|j: int|
                                0 <= j < self.spec_pools()[i0].spec_members().len() && (
                                #[trigger] self.spec_pools()[i0].spec_members()[j]).spec_client_id().0
                                    == c;
                            assert(false);
                        }
                    }
                }
                self.del_pool(pool_id);
                WorkerOutcome::PoolClosed
            }
            Ok(batch) => {
                if batch.len() == 0 {
                    proof {
                        assert(collected(g0members, start as int).len() == 0);
                        assert forall|j: int|
                            0 <= j < g0members.len() && (#[trigger] g0members[j]).is_live() implies g0members[j].buffer().len() == 0 by {
                            lemma_collected_block(g0members, start as int, j);
                            let off0 = choose|off: int|
                                #![trigger collected(g0members, start as int).subrange(off, off + contribution(g0members[j]).len() as int)]
                                0 <= off && off + contribution(g0members[j]).len() <= collected(
                                    g0members,
                                    start as int,
                                ).len() && collected(g0members, start as int).subrange(
                                    off,
                                    off + contribution(g0members[j]).len() as int,
                                ) == contribution(g0members[j]);
                            assert(contribution(g0members[j]).len() == 0);
                        }
                    }
                    WorkerOutcome::NothingToSend
                } else {
                    proof {
                        assert(batch@ == collected(g0members, start as int));
                        assert((k as int) < g0.spec_pools().len() && g0.spec_pools()[
                            k as int
                        ].spec_pool_id() == pool_id && (start as int) < g0.spec_pools()[
                            k as int
                        ].spec_members().len());
                    }
                    match tx.send(ClientRqBatch { requests: batch, created_at: now }) {
                        Ok(()) => WorkerOutcome::BatchSent,
                        Err(b) => WorkerOutcome::OutputFull(b),
                    }
                }
            }
        }
    }

    /// Routes a request from a connected client's transport task to the
    /// client's live sink. Fails once the client is not connected or its
    /// sink has been disconnected.
    pub fn push_client_request(&mut self, client_id: NodeId, msg: T) -> (r: Result<
        (),
        ClientPoolError,
    >)
        requires
            old(self).wf(),
        ensures
            final(self).wf(),
            final(self).same_config(old(self)),
            final(self).spec_cache() == old(self).spec_cache(),
            final(self).spec_count() == old(self).spec_count(),
            final(self).spec_counter() == old(self).spec_counter(),
            final(self).spec_pools().len() == old(self).spec_pools().len(),
            forall|i: int|
                0 <= i < old(self).spec_pools().len() ==> {
                    &&& (#[trigger] final(self).spec_pools()[i]).spec_pool_id() == old(self).spec_pools()[i].spec_pool_id()
                    &&& final(self).spec_pools()[i].spec_members().len() == old(self).spec_pools()[i].spec_members().len()
                    &&& final(self).spec_pools()[i].spec_finished() == old(self).spec_pools()[i].spec_finished()
                },
            forall|i: int, j: int|
                0 <= i < old(self).spec_pools().len() && 0 <= j < old(self).spec_pools()[i].spec_members().len() ==> {
                    &&& (#[trigger] final(self).spec_pools()[i].spec_members()[j]).spec_client_id() == old(self).spec_pools()[i].spec_members()[j].spec_client_id()
                    &&& final(self).spec_pools()[i].spec_members()[j].is_live() == old(self).spec_pools()[i].spec_members()[j].is_live()
                },
            (exists|i: int, j: int|
                0 <= i < old(self).spec_pools().len() && 0 <= j < old(self).spec_pools()[i].spec_members().len() && (#[trigger] old(self).spec_pools()[i].spec_members()[j]).is_live() && old(self).spec_pools()[i].spec_members()[j].spec_client_id() == client_id) ==> r is Ok && exists|i: int, j: int|
                {
                    &&& 0 <= i < old(self).spec_pools().len()
                    &&& 0 <= j < old(self).spec_pools()[i].spec_members().len()
                    &&& (#[trigger] old(self).spec_pools()[i].spec_members()[j]).is_live()
                    &&& old(self).spec_pools()[i].spec_members()[j].spec_client_id() == client_id
                    &&& final(self).spec_pools()[i].spec_members()[j].buffer() == old(self).spec_pools()[i].spec_members()[j].buffer().push(msg)
                    &&& (forall|i2: int, j2: int|
                        0 <= i2 < old(self).spec_pools().len() && 0 <= j2 < old(self).spec_pools()[i2].spec_members().len() && (i2 != i || j2 != j) ==> (#[trigger] final(self).spec_pools()[i2].spec_members()[j2]) == old(self).spec_pools()[i2].spec_members()[j2])
                },
            (forall|i: int, j: int|
                0 <= i < old(self).spec_pools().len() && 0 <= j < old(self).spec_pools()[i].spec_members().len() ==> !((#[trigger] old(self).spec_pools()[i].spec_members()[j]).is_live() && old(self).spec_pools()[i].spec_members()[j].spec_client_id() == client_id)) ==> (r matches Err(e) && e == ClientPoolError::PooledConnectionClosed(client_id)) && final(self).spec_pools() == old(self).spec_pools(),
    {
        match self.client_connections_cache.get(client_id.0) {
            None => {
                proof {
                    assert forall|i: int, j: int|
                        0 <= i < self.spec_pools().len() && 0 <= j < self.spec_pools()[i].spec_members().len() implies !((#[trigger] self.spec_pools()[i].spec_members()[j]).is_live() && self.spec_pools()[i].spec_members()[j].spec_client_id() == client_id) by {
                        if self.spec_pools()[i].spec_members()[j].is_live()
                            && self.spec_pools()[i].spec_members()[j].spec_client_id()
                            == client_id {
                            assert(self.spec_cache().dom().contains(client_id.0));
                        }
                    }
                }
                Err(ClientPoolError::PooledConnectionClosed(client_id))
            }
            Some(pid) => {
                match self.find_pool_index(pid) {
                    None => {
                        proof {
                            let i0 = choose|i: int|
                                0 <= i < self.spec_pools().len() && (
                                #[trigger] self.spec_pools()[i]).spec_pool_id() == pid
                                    && pool_has_member_for(self.spec_pools()[i], client_id.0);
                            assert(false);
                        }
                        Err(ClientPoolError::PooledConnectionClosed(client_id))
                    }
                    Some(k) => {
                        let ghost pre = *self;
                        let res = self.client_pools[k].push_request_to(client_id, msg);
                        proof {
                            assert(self.spec_pools() =~= pre.spec_pools().update(
                                k as int,
                                self.spec_pools()[k as int],
                            ));
                            if !pre.spec_pools()[k as int].spec_has_live(client_id) {
                                assert(self.spec_pools() =~= pre.spec_pools());
                            }
                            // a live sink for this client sits in pool k or
                            // nowhere: its cache entry names exactly one pool
                            assert forall|i: int, j: int|
                                0 <= i < pre.spec_pools().len() && i != k as int && 0 <= j
                                    < pre.spec_pools()[i].spec_members().len() implies !((
                            #[trigger] pre.spec_pools()[i].spec_members()[j]).is_live()
                                && pre.spec_pools()[i].spec_members()[j].spec_client_id()
                                == client_id) by {
                                if pre.spec_pools()[i].spec_members()[j].is_live()
                                    && pre.spec_pools()[i].spec_members()[j].spec_client_id()
                                    == client_id {
                                    assert(pre.spec_cache()[client_id.0]
                                        == pre.spec_pools()[i].spec_pool_id());
                                    if i < k as int {
                                        assert(pre.spec_pools()[i].spec_pool_id()
                                            < pre.spec_pools()[k as int].spec_pool_id());
                                    } else {
                                        assert(pre.spec_pools()[k as int].spec_pool_id()
                                            < pre.spec_pools()[i].spec_pool_id());
                                    }
                                }
                            }
                            // the group invariant survives: liveness, ids and
                            // membership are untouched, only one buffer grew
                            assert forall|c: u32| #[trigger]
                                self.spec_cache().dom().contains(c) implies some_pool_holds(
                                self.spec_pools(),
                                self.spec_cache()[c],
                                c,
                            ) by {
                                lemma_holds_preserved(
                                    pre.spec_pools(),
                                    self.spec_pools(),
                                    pre.spec_cache()[c],
                                    c,
                                );
                            }
                        }
                        res
                    }
                }
            }
        }
    }

    /// The ids of the pools currently in the directory, in ascending
    /// order.
    pub fn pool_ids(&self) -> (r: Vec<usize>)
        ensures
            r@.len() == self.spec_pools().len(),
            forall|i: int|
                0 <= i < r@.len() ==> r@[i] == (#[trigger] self.spec_pools()[i]).spec_pool_id(),
    {
        let n = self.client_pools.len();
        let mut ids: Vec<usize> = Vec::new();
        let mut i: usize = 0;
        while i < n
            invariant
                n == self.client_pools@.len(),
                i <= n,
                ids@.len() == i,
                forall|j: int|
                    0 <= j < i ==> ids@[j] == (#[trigger] self.client_pools@[j]).spec_pool_id(),
            decreases n - i,
        {
            ids.push(self.client_pools[i].pool_id());
            i = i + 1;
        }
        ids
    }

    /// The position of the pool with the given id in the directory.
    fn find_pool_index(&self, pool_id: usize) -> (r: Option<usize>)
        ensures
            (r matches Some(i) ==> i < self.spec_pools().len() && self.spec_pools()[
                i as int
            ].spec_pool_id() == pool_id),
            r is None ==> forall|i: int|
                0 <= i < self.spec_pools().len() ==> (#[trigger] self.spec_pools()[i]).spec_pool_id()
                    != pool_id,
    {
        let n = self.client_pools.len();
        let mut i: usize = 0;
        while i < n
            invariant
                n == self.client_pools@.len(),
                i <= n,
                forall|j: int|
                    0 <= j < i ==> (#[trigger] self.client_pools@[j]).spec_pool_id() != pool_id,
            decreases n - i,
        {
            if self.client_pools[i].pool_id() == pool_id {
                return Some(i);
            }
            i = i + 1;
        }
        None
    }

    /// Draws the next unused pool id. The counter only grows and sits
    /// above every id in the directory, so the first candidate is free.
    fn get_pool_id(&mut self) -> (r: Result<usize, ClientPoolError>)
        requires
            old(self).wf(),
            old(self).spec_counter() < usize::MAX,
        ensures
            final(self).wf(),
            final(self).same_config(old(self)),
            final(self).spec_pools() == old(self).spec_pools(),
            final(self).spec_cache() == old(self).spec_cache(),
            final(self).spec_count() == old(self).spec_count(),
            final(self).spec_counter() == old(self).spec_counter() + 1,
            (r matches Ok(id) && id == old(self).spec_counter()),
            forall|i: int|
                0 <= i < final(self).spec_pools().len() ==> (#[trigger] final(self).spec_pools()[i]).spec_pool_id()
                    != old(self).spec_counter(),
    {
        let candidate = self.pool_id_counter;
        self.pool_id_counter = self.pool_id_counter + 1;
        proof {
            assert forall|i: int|
                0 <= i < self.spec_pools().len() implies (#[trigger] self.spec_pools()[i]).spec_pool_id()
                < self.spec_counter() by {
                assert(old(self).spec_pools()[i].spec_pool_id() < old(self).spec_counter());
            }
        }
        match self.find_pool_index(candidate) {
            None => Ok(candidate),
            Some(_) => {
                // Unreachable while the invariant holds: every pool id
                // lies strictly below the counter.
                Err(ClientPoolError::FailedToAllocateClientPoolID)
            }
        }
    }
}

/// A connected client's live sink sits in exactly one slot of exactly
/// one pool, and the cache names that pool for it: any two live sinks
/// carrying the same client id are the same sink.
pub proof fn lemma_client_in_unique_pool<T>(
    g: &ConnectedPeersGroup<T>,
    i1: int,
    j1: int,
    i2: int,
    j2: int,
)
    requires
        g.wf(),
        0 <= i1 < g.spec_pools().len(),
        0 <= j1 < g.spec_pools()[i1].spec_members().len(),
        0 <= i2 < g.spec_pools().len(),
        0 <= j2 < g.spec_pools()[i2].spec_members().len(),
        g.spec_pools()[i1].spec_members()[j1].is_live(),
        g.spec_pools()[i2].spec_members()[j2].is_live(),
        g.spec_pools()[i1].spec_members()[j1].spec_client_id() == g.spec_pools()[i2].spec_members()[j2].spec_client_id(),
    ensures
        i1 == i2,
        j1 == j2,
        g.spec_cache().dom().contains(g.spec_pools()[i1].spec_members()[j1].spec_client_id().0),
        g.spec_cache()[g.spec_pools()[i1].spec_members()[j1].spec_client_id().0] == g.spec_pools()[i1].spec_pool_id(),
{
    let c = g.spec_pools()[i1].spec_members()[j1].spec_client_id().0;
    assert(g.spec_cache()[c] == g.spec_pools()[i1].spec_pool_id());
    assert(g.spec_cache()[c] == g.spec_pools()[i2].spec_pool_id());
    if i1 < i2 {
        assert(g.spec_pools()[i1].spec_pool_id() < g.spec_pools()[i2].spec_pool_id());
    } else if i2 < i1 {
        assert(g.spec_pools()[i2].spec_pool_id() < g.spec_pools()[i1].spec_pool_id());
    }
    if j1 < j2 {
        assert(g.spec_pools()[i1].spec_members()[j1].spec_client_id() != g.spec_pools()[i1].spec_members()[j2].spec_client_id());
    } else if j2 < j1 {
        assert(g.spec_pools()[i1].spec_members()[j2].spec_client_id() != g.spec_pools()[i1].spec_members()[j1].spec_client_id());
    }
}

} // verus!
