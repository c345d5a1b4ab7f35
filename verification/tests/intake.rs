use peer_intake::config::ClientPoolConfig;
use peer_intake::errors::ClientPoolError;
use peer_intake::group::WorkerOutcome;
use peer_intake::intake::PeerIncomingRqHandling;
use peer_intake::node_id::NodeId;
use peer_intake::node_id::NodeType;

fn test_config() -> ClientPoolConfig {
    ClientPoolConfig {
        batch_size: 10,
        clients_per_pool: 2,
        batch_timeout_micros: 1000,
        batch_sleep_micros: 1000,
    }
}

#[test]
fn loopback_resolves_to_own_sink() {
    let mut intake: PeerIncomingRqHandling<u64> =
        PeerIncomingRqHandling::new(NodeId(7), NodeType::Replica, test_config());
    assert_eq!(intake.loopback_connection().client_id(), NodeId(7));
    assert_eq!(intake.resolve_peer_conn(NodeId(7), NodeType::Replica), Some(NodeId(7)));
    // a message this node sends to itself comes back through the replica intake
    assert!(intake.push_request(NodeId(7), NodeType::Replica, 4242, 1).is_ok());
    assert_eq!(intake.receive_from_replicas(Some(1000)), Ok(Some(4242)));
    assert_eq!(intake.receive_from_replicas(Some(1000)), Ok(None));
}

#[test]
fn replica_registration_counts_once() {
    let mut intake: PeerIncomingRqHandling<u64> =
        PeerIncomingRqHandling::new(NodeId(0), NodeType::Replica, test_config());
    assert_eq!(intake.replica_count(), 1); // the loopback
    assert_eq!(intake.resolve_peer_conn(NodeId(1), NodeType::Replica), None);
    intake.init_peer_conn(NodeId(1), NodeType::Replica);
    assert_eq!(intake.replica_count(), 2);
    assert_eq!(intake.resolve_peer_conn(NodeId(1), NodeType::Replica), Some(NodeId(1)));
    // registering the same replica again does not double count
    intake.init_peer_conn(NodeId(1), NodeType::Replica);
    assert_eq!(intake.replica_count(), 2);
}

#[test]
fn replica_messages_arrive_in_order() {
    let mut intake: PeerIncomingRqHandling<u64> =
        PeerIncomingRqHandling::new(NodeId(0), NodeType::Replica, test_config());
    intake.init_peer_conn(NodeId(1), NodeType::Replica);
    intake.init_peer_conn(NodeId(2), NodeType::Replica);
    assert!(intake.push_request(NodeId(1), NodeType::Replica, 11, 1).is_ok());
    assert!(intake.push_request(NodeId(2), NodeType::Replica, 22, 2).is_ok());
    assert!(intake.push_request(NodeId(1), NodeType::Replica, 33, 3).is_ok());
    assert_eq!(intake.rqs_len_from_replicas(), 3);
    assert_eq!(intake.receive_from_replicas(Some(10)), Ok(Some(11)));
    assert_eq!(intake.receive_from_replicas(Some(10)), Ok(Some(22)));
    assert_eq!(intake.receive_from_replicas(Some(10)), Ok(Some(33)));
    assert_eq!(intake.rqs_len_from_replicas(), 0);
}

#[test]
fn client_node_has_no_client_intake() {
    let mut intake: PeerIncomingRqHandling<u64> =
        PeerIncomingRqHandling::new(NodeId(1000), NodeType::Client, test_config());
    assert_eq!(intake.client_count(), None);
    assert_eq!(intake.client_pool_ids(), None);
    assert_eq!(intake.rqs_len_from_clients(), 0);
    assert_eq!(
        intake.receive_from_clients(Some(1000)),
        Err(ClientPoolError::NoClientsConnected)
    );
    assert_eq!(
        intake.try_receive_from_clients(),
        Err(ClientPoolError::NoClientsConnected)
    );
    match intake.run_client_pool_iteration(0, 0) {
        Err(e) => assert_eq!(e, ClientPoolError::NoClientsConnected),
        Ok(_) => panic!("a client node has no pools to run"),
    }
}

#[test]
fn empty_channel_times_out_with_empty_batch() {
    let mut intake: PeerIncomingRqHandling<u64> =
        PeerIncomingRqHandling::new(NodeId(0), NodeType::Replica, test_config());
    assert_eq!(intake.receive_from_clients(Some(1000)), Ok(Vec::new()));
    assert_eq!(intake.try_receive_from_clients(), Ok(None));
}

#[test]
fn client_pipeline_delivers_batches() {
    let mut intake: PeerIncomingRqHandling<u64> =
        PeerIncomingRqHandling::new(NodeId(0), NodeType::Replica, test_config());
    // two clients per pool: the third spawns a second pool
    intake.init_peer_conn(NodeId(1000), NodeType::Client);
    intake.init_peer_conn(NodeId(1001), NodeType::Client);
    intake.init_peer_conn(NodeId(1002), NodeType::Client);
    assert_eq!(intake.client_count(), Some(3));
    assert_eq!(intake.client_pool_ids(), Some(vec![0, 1]));
    assert!(intake.push_request(NodeId(1000), NodeType::Client, 1, 0).is_ok());
    assert!(intake.push_request(NodeId(1001), NodeType::Client, 2, 0).is_ok());
    assert!(intake.push_request(NodeId(1002), NodeType::Client, 3, 0).is_ok());
    match intake.run_client_pool_iteration(0, 5) {
        Ok(outcome) => assert!(matches!(outcome, WorkerOutcome::BatchSent)),
        Err(_) => panic!("a replica node runs its pools"),
    }
    assert_eq!(intake.rqs_len_from_clients(), 1);
    let batch = intake.receive_from_clients(Some(1000)).expect("a batch is pending");
    assert_eq!(batch.len(), 2);
    assert!(batch.contains(&1));
    assert!(batch.contains(&2));
    match intake.run_client_pool_iteration(1, 6) {
        Ok(outcome) => assert!(matches!(outcome, WorkerOutcome::BatchSent)),
        Err(_) => panic!("a replica node runs its pools"),
    }
    let second = intake.try_receive_from_clients().expect("the node is a replica");
    assert_eq!(second, Some(vec![3]));
}

#[test]
fn resolving_clients_tracks_liveness() {
    let mut intake: PeerIncomingRqHandling<u64> =
        PeerIncomingRqHandling::new(NodeId(0), NodeType::Replica, test_config());
    assert_eq!(intake.resolve_peer_conn(NodeId(1000), NodeType::Client), None);
    intake.init_peer_conn(NodeId(1000), NodeType::Client);
    assert_eq!(intake.resolve_peer_conn(NodeId(1000), NodeType::Client), Some(NodeId(1000)));
    intake.disconnect_peer_conn(NodeId(1000), NodeType::Client);
    assert_eq!(intake.resolve_peer_conn(NodeId(1000), NodeType::Client), None);
    assert_eq!(
        intake.push_request(NodeId(1000), NodeType::Client, 9, 0),
        Err(ClientPoolError::PooledConnectionClosed(NodeId(1000)))
    );
}

#[test]
fn registration_headroom_is_reported() {
    let mut intake: PeerIncomingRqHandling<u64> =
        PeerIncomingRqHandling::new(NodeId(0), NodeType::Replica, test_config());
    assert_eq!(intake.client_registration_headroom(), Some(usize::MAX));
    intake.init_peer_conn(NodeId(1000), NodeType::Client);
    assert_eq!(intake.client_registration_headroom(), Some(usize::MAX - 1));
    let client_node: PeerIncomingRqHandling<u64> =
        PeerIncomingRqHandling::new(NodeId(1000), NodeType::Client, test_config());
    assert_eq!(client_node.client_registration_headroom(), None);
}

#[test]
fn batch_size_is_reported() {
    let intake: PeerIncomingRqHandling<u64> =
        PeerIncomingRqHandling::new(NodeId(0), NodeType::Replica, test_config());
    assert_eq!(intake.batch_size(), 10);
}

#[test]
fn error_messages_name_the_failure() {
    assert!(ClientPoolError::ClosePool.message().contains("close"));
    assert!(ClientPoolError::NoClientsConnected.message().contains("client"));
    assert!(
        ClientPoolError::PooledConnectionClosed(NodeId(1))
            .message()
            .contains("pooled")
    );
    assert!(
        ClientPoolError::UnpooledConnectionClosed(NodeId(1))
            .message()
            .contains("unpooled")
    );
    assert!(
        ClientPoolError::FailedToAllocateClientPoolID
            .message()
            .contains("pool id")
    );
}

#[test]
fn strings_flow_through_the_intake() {
    let mut intake: PeerIncomingRqHandling<String> =
        PeerIncomingRqHandling::new(NodeId(0), NodeType::Replica, test_config());
    intake.init_peer_conn(NodeId(1000), NodeType::Client);
    assert!(
        intake
            .push_request(NodeId(1000), NodeType::Client, "hello".to_string(), 0)
            .is_ok()
    );
    match intake.run_client_pool_iteration(0, 0) {
        Ok(outcome) => assert!(matches!(outcome, WorkerOutcome::BatchSent)),
        Err(_) => panic!("a replica node runs its pools"),
    }
    let batch = intake.receive_from_clients(Some(1)).expect("a batch is pending");
    assert_eq!(batch, vec!["hello".to_string()]);
}
