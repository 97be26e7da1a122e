use duxnet::identity::DIDManager;
use duxnet::network::P2PNetwork;
use duxnet::node::DuxNetNode;
use duxnet::types::TaskStatus;
use duxnet::types::{CoreError, EscrowState, NetworkMessage, TaskRequirements};

#[test]
fn identity_derivation_and_signing() {
    let manager = DIDManager::new(vec!["tcp://127.0.0.1:1".to_string()], 10);
    let did = manager.get_did();
    assert!(did.id.starts_with("did:duxnet:"));
    // the prefix plus thirty-two hex characters of the key's leading bytes
    assert_eq!(did.id.len(), 11 + 32);
    assert_eq!(did.public_key.len(), 32);

    let message = b"hello";
    let signature = manager.sign_message(message);
    assert_eq!(signature.len(), 64);
    // the signature is not the message handed back, and it verifies
    assert_ne!(signature.as_slice(), message.as_slice());
    assert_eq!(manager.verify_signature(&signature, message), Ok(true));
    assert_eq!(manager.verify_signature(&signature, b"other"), Ok(false));
    assert_eq!(
        manager.verify_signature(&signature[..10], message),
        Err(CoreError::InvalidSignature)
    );
}

#[test]
fn identity_round_trips_through_exported_seed() {
    let manager = DIDManager::new(vec![], 10);
    let seed = manager.export_private_key();
    let rebuilt = DIDManager::import_private_key(seed, vec![], 20).unwrap();
    assert_eq!(rebuilt.get_did().id, manager.get_did().id);
    assert!(matches!(
        DIDManager::import_private_key(vec![0; 5], vec![], 20),
        Err(CoreError::InvalidKeyLength)
    ));
}

#[test]
fn attestations_sign_and_verify() {
    let manager = DIDManager::new(vec![], 10);
    let att = manager.create_attestation("did:duxnet:bob".to_string(), 700_000, "trade".to_string(), 99);
    assert_eq!(att.attester_did, manager.get_did().id);
    assert_eq!(att.timestamp, 99);
    assert!(manager.verify_attestation(&att));
    // a tampered score no longer verifies
    let mut tampered = att;
    tampered.score = 1;
    assert!(!manager.verify_attestation(&tampered));
}

#[test]
fn escrow_signatures_bind_identifier_and_state() {
    let manager = DIDManager::new(vec![], 10);
    let id = "esc-1".to_string();
    let signature = manager.sign_escrow_contract(&id, EscrowState::Funded);
    let pk = manager.get_public_key();
    assert!(manager.verify_escrow_signature(&id, EscrowState::Funded, &signature, &pk));
    assert!(!manager.verify_escrow_signature(&id, EscrowState::Refunded, &signature, &pk));
    assert!(!manager.verify_escrow_signature(&id, EscrowState::Funded, &signature[..3], &pk));
}

#[test]
fn endpoints_are_managed_in_place() {
    let mut manager = DIDManager::new(vec!["a".to_string()], 10);
    manager.add_endpoint("b".to_string());
    manager.add_endpoint("b".to_string());
    assert_eq!(manager.get_did().endpoints, vec!["a".to_string(), "b".to_string()]);
    manager.remove_endpoint("a");
    assert_eq!(manager.get_did().endpoints, vec!["b".to_string()]);
    manager.update_endpoints(vec!["c".to_string()]);
    assert_eq!(manager.get_did().endpoints, vec!["c".to_string()]);
}

#[test]
fn node_registers_and_finds_services() {
    let mut node = DuxNetNode::new(8080, 1_000);
    let id = node.register_service(
        "Transcoding".to_string(),
        "video pipelines".to_string(),
        9,
        1_000,
    );
    assert_eq!(id.0.len(), 36);
    let found = node.find_services("video");
    assert_eq!(found.len(), 1);
    assert_eq!(found[0].id.0, id.0);
    assert_eq!(found[0].provider_did, node.did_manager.did.id);
    assert_eq!(node.find_services("audio").len(), 0);
}

#[test]
fn node_snapshots_reputation_at_registration() {
    let mut node = DuxNetNode::new(8080, 1_000);
    let own_did = node.did_manager.did.id.clone();
    let att = duxnet::types::ReputationAttestation {
        attester_did: "did:duxnet:friend".to_string(),
        target_did: own_did.clone(),
        score: 420_000,
        interaction_type: "trade".to_string(),
        timestamp: 1_000,
        signature: vec![0; 64],
    };
    node.add_reputation_attestation(att, 1_000);
    assert_eq!(node.get_reputation(&own_did), 420_000);
    node.register_service("n".to_string(), "d".to_string(), 1, 1_000);
    let found = node.find_services("n");
    assert_eq!(found[0].reputation_score, 420_000);
}

#[test]
fn node_creates_escrow_with_default_arbiters() {
    let mut node = DuxNetNode::new(8080, 1_000);
    let service_id = duxnet::types::ServiceId("svc".to_string());
    let escrow_id = node.create_escrow_for_service(
        &service_id,
        "did:duxnet:seller".to_string(),
        250,
        1_000,
    );
    let contract = node.escrow_manager.get_contract(&escrow_id).unwrap();
    assert_eq!(contract.buyer_did, node.did_manager.did.id);
    assert_eq!(
        contract.arbiters,
        vec!["did:duxnet:arbiter1".to_string(), "did:duxnet:arbiter2".to_string()]
    );
    assert_eq!(contract.state, EscrowState::Created);
}

#[test]
fn node_poll_drives_tasks_only_while_running() {
    let mut node = DuxNetNode::new(8080, 1_000);
    let task_id = node.submit_task(
        duxnet::types::ServiceId("svc".to_string()),
        vec![1, 2],
        TaskRequirements { cpu_cores: 1, memory_mb: 16, timeout_seconds: 5 },
        1_000,
    );
    assert_eq!(node.task_engine.get_task_status(&task_id), TaskStatus::Pending);
    // not running: nothing moves
    node.poll_once(1_001);
    assert_eq!(node.task_engine.get_task_status(&task_id), TaskStatus::Pending);
    node.start();
    node.poll_once(1_002);
    assert_eq!(node.task_engine.get_task_status(&task_id), TaskStatus::Completed);
    node.stop();
    assert!(!node.is_running);
}

#[test]
fn messages_route_to_the_matching_subsystem() {
    let mut node = DuxNetNode::new(8080, 1_000);
    // liveness
    assert!(matches!(node.handle_message(NetworkMessage::Ping, 1_000), Some(NetworkMessage::Pong)));
    assert!(node.handle_message(NetworkMessage::Pong, 1_000).is_none());
    // a service announcement becomes searchable
    let service = duxnet::types::ServiceMetadata {
        id: duxnet::types::ServiceId("svc-m".to_string()),
        provider_did: "did:duxnet:peer".to_string(),
        name: "Mirrors".to_string(),
        description: "replicas".to_string(),
        endpoint: "tcp://peer:1".to_string(),
        price: 3,
        reputation_score: 0,
        last_updated: 1_000,
    };
    assert!(node.handle_message(NetworkMessage::ServiceAnnouncement(service), 1_000).is_none());
    match node.handle_message(NetworkMessage::ServiceQuery("mirrors".to_string()), 1_000) {
        Some(NetworkMessage::ServiceResponse(list)) => {
            assert_eq!(list.len(), 1);
            assert_eq!(list[0].id.0, "svc-m");
        }
        other => panic!("unexpected reply: {:?}", other.is_some()),
    }
    // a reputation query answers with the stored score
    match node.handle_message(NetworkMessage::ReputationQuery("nobody".to_string()), 1_000) {
        Some(NetworkMessage::ReputationResponse(target, score)) => {
            assert_eq!(target, "nobody");
            assert_eq!(score, 0);
        }
        other => panic!("unexpected reply: {:?}", other.is_some()),
    }
    // a submitted task is pending; an inadmissible attestation is dropped
    let task = duxnet::types::Task {
        id: duxnet::types::TaskId("T-m".to_string()),
        escrow_id: "".to_string(),
        service_id: duxnet::types::ServiceId("svc-m".to_string()),
        payload: vec![],
        requirements: TaskRequirements { cpu_cores: 1, memory_mb: 1, timeout_seconds: 1 },
        created_at: 1_000,
    };
    assert!(node.handle_message(NetworkMessage::TaskSubmission(task), 1_000).is_none());
    assert_eq!(
        node.task_engine.get_task_status(&duxnet::types::TaskId("T-m".to_string())),
        TaskStatus::Pending
    );
    let bad = duxnet::types::ReputationAttestation {
        attester_did: "a".to_string(),
        target_did: "b".to_string(),
        score: u64::MAX,
        interaction_type: "t".to_string(),
        timestamp: 1_000,
        signature: vec![],
    };
    assert!(node.handle_message(NetworkMessage::ReputationAttestation(bad), 1_000).is_none());
    assert_eq!(node.get_reputation("b"), 0);
}

#[test]
fn mock_network_knows_its_topics() {
    let mut network = P2PNetwork::new(9000);
    assert_eq!(network.local_peer_id, "peer_9000");
    assert!(network.process_events().is_none());
    assert!(network.publish_message("tasks", &NetworkMessage::Ping));
    assert!(!network.publish_message("gossip", &NetworkMessage::Ping));
    network.start();
    assert!(network.is_running);
    let stats = network.get_stats();
    assert_eq!(stats.subscribed_topics, 4);
    assert_eq!(stats.connected_peers, 0);
    assert_eq!(network.get_peers().len(), 0);
    network.stop();
    assert!(!network.is_running);
}
