use peer_intake::channel::BatchChannel;
use peer_intake::channel::ClientRqBatch;
use peer_intake::errors::ClientPoolError;
use peer_intake::group::ConnectedPeersGroup;
use peer_intake::group::WorkerOutcome;
use peer_intake::node_id::NodeId;
use peer_intake::pool::ConnectedPeersPool;
use peer_intake::rng::next_sleep_micros;
use peer_intake::sink::ConnectedPeer;

#[test]
fn push_then_drain_keeps_order() {
    let mut sink: ConnectedPeer<u64> = ConnectedPeer::new_pooled(NodeId(1000), 16);
    assert!(sink.push_request(1).is_ok());
    assert!(sink.push_request(2).is_ok());
    assert!(sink.push_request(3).is_ok());
    let drained = sink.dump_requests(Vec::new()).expect("live sink must drain");
    assert_eq!(drained, vec![1, 2, 3]);
    let again = sink.dump_requests(Vec::new()).expect("live sink must drain");
    assert_eq!(again, Vec::<u64>::new());
}

#[test]
fn disconnected_sink_refuses_push_and_drain() {
    let mut sink: ConnectedPeer<u64> = ConnectedPeer::new_pooled(NodeId(1000), 16);
    assert!(sink.push_request(7).is_ok());
    sink.disconnect();
    assert!(sink.is_dc());
    assert_eq!(
        sink.push_request(8),
        Err(ClientPoolError::PooledConnectionClosed(NodeId(1000)))
    );
    let replacement: Vec<u64> = Vec::new();
    assert!(sink.dump_requests(replacement).is_err());
}

#[test]
fn full_pool_refuses_next_client() {
    let mut pool: ConnectedPeersPool<u64> = ConnectedPeersPool::new(0, 10, 2, 1000, 1000, 16);
    assert!(pool.attempt_to_add(ConnectedPeer::new_pooled(NodeId(1000), 16)).is_ok());
    assert!(pool.attempt_to_add(ConnectedPeer::new_pooled(NodeId(1001), 16)).is_ok());
    let refused = pool.attempt_to_add(ConnectedPeer::new_pooled(NodeId(1002), 16));
    match refused {
        Err(sink) => assert_eq!(sink.client_id(), NodeId(1002)),
        Ok(()) => panic!("a full pool must refuse another sink"),
    }
    assert_eq!(pool.member_count(), 2);
}

#[test]
fn empty_pool_collect_asks_for_closure() {
    let mut pool: ConnectedPeersPool<u64> = ConnectedPeersPool::new(3, 10, 4, 1000, 1000, 16);
    let (result, reaped) = pool.collect_requests(0);
    assert!(reaped.is_empty());
    match result {
        Err(e) => assert_eq!(e, ClientPoolError::ClosePool),
        Ok(_) => panic!("an empty pool must ask to be closed"),
    }
}

#[test]
fn attempt_to_remove_reports_emptiness() {
    let mut pool: ConnectedPeersPool<u64> = ConnectedPeersPool::new(0, 10, 4, 1000, 1000, 16);
    assert!(pool.attempt_to_remove(&NodeId(1000)).is_err());
    assert!(pool.attempt_to_add(ConnectedPeer::new_pooled(NodeId(1000), 16)).is_ok());
    assert!(pool.attempt_to_add(ConnectedPeer::new_pooled(NodeId(1001), 16)).is_ok());
    assert_eq!(pool.attempt_to_remove(&NodeId(1000)), Ok(false));
    assert_eq!(pool.attempt_to_remove(&NodeId(1001)), Ok(true));
    assert_eq!(pool.member_count(), 0);
}

#[test]
fn batch_channel_is_fifo_and_bounded() {
    let mut ch: BatchChannel<u64> = BatchChannel::new(2);
    assert_eq!(ch.capacity(), 2);
    assert!(ch.send(ClientRqBatch { requests: vec![1], created_at: 10 }).is_ok());
    assert!(ch.send(ClientRqBatch { requests: vec![2], created_at: 11 }).is_ok());
    let refused = ch.send(ClientRqBatch { requests: vec![3], created_at: 12 });
    match refused {
        Err(batch) => {
            assert_eq!(batch.requests, vec![3]);
            assert_eq!(batch.created_at, 12);
        }
        Ok(()) => panic!("a full channel must refuse the batch"),
    }
    assert_eq!(ch.len(), 2);
    let first = ch.try_recv().expect("two batches are pending");
    assert_eq!(first.requests, vec![1]);
    assert_eq!(first.created_at, 10);
    let second = ch.try_recv().expect("one batch is pending");
    assert_eq!(second.requests, vec![2]);
    assert!(ch.try_recv().is_none());
}

#[test]
fn group_places_clients_and_spawns_pools() {
    // two clients per pool: the third client forces a second pool
    let mut group: ConnectedPeersGroup<u64> = ConnectedPeersGroup::new(16, 10, NodeId(0), 2, 1000, 1000);
    assert_eq!(group.init_client(NodeId(1000)), 0);
    assert_eq!(group.init_client(NodeId(1001)), 0);
    assert_eq!(group.init_client(NodeId(1002)), 1);
    assert_eq!(group.pool_count(), 2);
    assert_eq!(group.pool_ids(), vec![0, 1]);
    assert_eq!(group.client_count(), 3);
    assert_eq!(group.pool_id_counter(), 2);
}

#[test]
fn reregistering_keeps_count_and_supersedes_sink() {
    let mut group: ConnectedPeersGroup<u64> = ConnectedPeersGroup::new(16, 10, NodeId(0), 4, 1000, 1000);
    group.init_client(NodeId(1000));
    assert!(group.push_client_request(NodeId(1000), 1).is_ok());
    // a second registration supersedes the first sink and drops what it held
    group.init_client(NodeId(1000));
    assert_eq!(group.client_count(), 1);
    assert!(group.push_client_request(NodeId(1000), 2).is_ok());
    let mut ch: BatchChannel<u64> = BatchChannel::new(16);
    let outcome = group.run_pool_iteration(0, &mut ch, 50);
    assert!(matches!(outcome, WorkerOutcome::BatchSent));
    let batch = ch.try_recv().expect("a batch was sent");
    assert_eq!(batch.requests, vec![2]);
    assert_eq!(batch.created_at, 50);
}

#[test]
fn push_to_unknown_client_fails() {
    let mut group: ConnectedPeersGroup<u64> = ConnectedPeersGroup::new(16, 10, NodeId(0), 4, 1000, 1000);
    assert_eq!(
        group.push_client_request(NodeId(1000), 9),
        Err(ClientPoolError::PooledConnectionClosed(NodeId(1000)))
    );
    group.init_client(NodeId(1000));
    group.disconnect_client(NodeId(1000));
    assert_eq!(
        group.push_client_request(NodeId(1000), 9),
        Err(ClientPoolError::PooledConnectionClosed(NodeId(1000)))
    );
}

#[test]
fn batch_pacing_single_revolution_takes_all() {
    // three clients, target ten: one revolution gathers all twelve
    let mut group: ConnectedPeersGroup<u64> = ConnectedPeersGroup::new(16, 10, NodeId(0), 8, 1000, 1000);
    for client in 0u32..3 {
        group.init_client(NodeId(1000 + client));
    }
    for seq in 0u64..4 {
        for client in 0u32..3 {
            let msg = (client as u64) * 10_000 + seq;
            assert!(group.push_client_request(NodeId(1000 + client), msg).is_ok());
        }
    }
    let mut ch: BatchChannel<u64> = BatchChannel::new(16);
    let outcome = group.run_pool_iteration(0, &mut ch, 999);
    assert!(matches!(outcome, WorkerOutcome::BatchSent));
    let batch = ch.try_recv().expect("a batch was sent");
    assert_eq!(batch.requests.len(), 12);
    assert_eq!(batch.created_at, 999);
    // every client contributed each of its four requests
    for client in 0u64..3 {
        let mine: Vec<u64> = batch.requests.iter().copied().filter(|m| m / 10_000 == client).collect();
        assert_eq!(mine, vec![client * 10_000, client * 10_000 + 1, client * 10_000 + 2, client * 10_000 + 3]);
    }
}

#[test]
fn timeout_seal_emits_undersized_batch() {
    // two clients, target one hundred: the cycle still seals with ten
    let mut group: ConnectedPeersGroup<u64> = ConnectedPeersGroup::new(16, 100, NodeId(0), 8, 1000, 1000);
    group.init_client(NodeId(1000));
    group.init_client(NodeId(1001));
    for seq in 0u64..5 {
        assert!(group.push_client_request(NodeId(1000), seq).is_ok());
        assert!(group.push_client_request(NodeId(1001), 100 + seq).is_ok());
    }
    let mut ch: BatchChannel<u64> = BatchChannel::new(16);
    let outcome = group.run_pool_iteration(0, &mut ch, 7);
    assert!(matches!(outcome, WorkerOutcome::BatchSent));
    let batch = ch.try_recv().expect("a batch was sent");
    assert_eq!(batch.requests.len(), 10);
}

#[test]
fn fairness_every_client_contributes_in_order() {
    let mut group: ConnectedPeersGroup<u64> = ConnectedPeersGroup::new(2048, 100, NodeId(0), 8, 1000, 1000);
    for client in 0u32..4 {
        group.init_client(NodeId(1000 + client));
    }
    for seq in 0u64..1000 {
        for client in 0u32..4 {
            let msg = (client as u64) * 10_000 + seq;
            assert!(group.push_client_request(NodeId(1000 + client), msg).is_ok());
        }
    }
    let mut ch: BatchChannel<u64> = BatchChannel::new(16);
    let outcome = group.run_pool_iteration(0, &mut ch, 0);
    assert!(matches!(outcome, WorkerOutcome::BatchSent));
    let batch = ch.try_recv().expect("a batch was sent");
    assert_eq!(batch.requests.len(), 4000);
    for client in 0u64..4 {
        let mine: Vec<u64> = batch.requests.iter().copied().filter(|m| m / 10_000 == client).collect();
        assert_eq!(mine.len(), 1000);
        // within one client the push order is preserved
        for (seq, msg) in mine.iter().enumerate() {
            assert_eq!(*msg, client * 10_000 + seq as u64);
        }
    }
}

#[test]
fn client_churn_reaps_disconnected_sink() {
    let mut group: ConnectedPeersGroup<u64> = ConnectedPeersGroup::new(64, 50, NodeId(0), 8, 1000, 1000);
    for client in 0u32..5 {
        group.init_client(NodeId(1000 + client));
    }
    for seq in 0u64..20 {
        assert!(group.push_client_request(NodeId(1002), seq).is_ok());
    }
    assert!(group.push_client_request(NodeId(1000), 777).is_ok());
    group.disconnect_client(NodeId(1002));
    assert_eq!(group.client_count(), 5);
    let mut ch: BatchChannel<u64> = BatchChannel::new(16);
    let outcome = group.run_pool_iteration(0, &mut ch, 0);
    assert!(matches!(outcome, WorkerOutcome::BatchSent));
    let batch = ch.try_recv().expect("a batch was sent");
    // the disconnected client's buffered requests are dropped, not delivered
    assert_eq!(batch.requests, vec![777]);
    assert_eq!(group.client_count(), 4);
    assert!(group.get_client_conn(NodeId(1002)).is_none());
}

#[test]
fn pool_with_no_live_sinks_self_destructs() {
    let mut group: ConnectedPeersGroup<u64> = ConnectedPeersGroup::new(16, 10, NodeId(0), 4, 1000, 1000);
    group.init_client(NodeId(1000));
    group.init_client(NodeId(1001));
    group.disconnect_client(NodeId(1000));
    group.disconnect_client(NodeId(1001));
    let mut ch: BatchChannel<u64> = BatchChannel::new(16);
    let outcome = group.run_pool_iteration(0, &mut ch, 0);
    assert!(matches!(outcome, WorkerOutcome::PoolClosed));
    assert_eq!(group.pool_count(), 0);
    assert_eq!(group.client_count(), 0);
    assert!(ch.try_recv().is_none());
    // a later iteration finds no pool and tells the worker to exit
    let outcome2 = group.run_pool_iteration(0, &mut ch, 0);
    assert!(matches!(outcome2, WorkerOutcome::Finished));
}

#[test]
fn idle_pool_sends_nothing() {
    let mut group: ConnectedPeersGroup<u64> = ConnectedPeersGroup::new(16, 10, NodeId(0), 4, 1000, 1000);
    group.init_client(NodeId(1000));
    let mut ch: BatchChannel<u64> = BatchChannel::new(16);
    let outcome = group.run_pool_iteration(0, &mut ch, 0);
    assert!(matches!(outcome, WorkerOutcome::NothingToSend));
    assert_eq!(ch.len(), 0);
}

#[test]
fn full_output_channel_hands_batch_back() {
    let mut group: ConnectedPeersGroup<u64> = ConnectedPeersGroup::new(16, 10, NodeId(0), 4, 1000, 1000);
    group.init_client(NodeId(1000));
    assert!(group.push_client_request(NodeId(1000), 5).is_ok());
    let mut ch: BatchChannel<u64> = BatchChannel::new(1);
    assert!(ch.send(ClientRqBatch { requests: vec![0], created_at: 0 }).is_ok());
    let outcome = group.run_pool_iteration(0, &mut ch, 0);
    match outcome {
        WorkerOutcome::OutputFull(batch) => assert_eq!(batch.requests, vec![5]),
        _ => panic!("a full channel must hand the batch back"),
    }
    assert_eq!(ch.len(), 1);
}

#[test]
fn sleep_duration_stays_in_band() {
    for _ in 0..100 {
        let sleep = next_sleep_micros(1000);
        assert!((750..=1250).contains(&sleep));
    }
    assert_eq!(next_sleep_micros(0), 0);
}

#[test]
fn shutdown_stops_the_worker() {
    let mut pool: ConnectedPeersPool<u64> = ConnectedPeersPool::new(0, 10, 4, 1000, 1000, 16);
    assert!(!pool.is_finished());
    pool.shutdown();
    assert!(pool.is_finished());
}

#[test]
fn consecutive_batches_keep_client_order() {
    let mut group: ConnectedPeersGroup<u64> = ConnectedPeersGroup::new(16, 10, NodeId(0), 4, 1000, 1000);
    group.init_client(NodeId(1000));
    let mut ch: BatchChannel<u64> = BatchChannel::new(16);
    let mut stream: Vec<u64> = Vec::new();
    for seq in 0u64..3 {
        assert!(group.push_client_request(NodeId(1000), seq).is_ok());
    }
    assert!(matches!(group.run_pool_iteration(0, &mut ch, 0), WorkerOutcome::BatchSent));
    stream.extend(ch.try_recv().expect("a batch was sent").requests);
    for seq in 3u64..5 {
        assert!(group.push_client_request(NodeId(1000), seq).is_ok());
    }
    assert!(matches!(group.run_pool_iteration(0, &mut ch, 1), WorkerOutcome::BatchSent));
    stream.extend(ch.try_recv().expect("a batch was sent").requests);
    assert_eq!(stream, vec![0, 1, 2, 3, 4]);
}
