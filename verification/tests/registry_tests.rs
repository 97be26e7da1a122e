use duxnet::registry::DHT;
use duxnet::types::{NodeId, ServiceId, ServiceMetadata, ReputationAttestation};

fn new_registry() -> DHT {
    DHT::new(NodeId("node-1".to_string()))
}

fn sample_service(id: &str, name: &str, description: &str) -> ServiceMetadata {
    ServiceMetadata {
        id: ServiceId(id.to_string()),
        provider_did: "did:duxnet:provider".to_string(),
        name: name.to_string(),
        description: description.to_string(),
        endpoint: "tcp://127.0.0.1:9000".to_string(),
        price: 42,
        reputation_score: 500_000,
        last_updated: 100,
    }
}

#[test]
fn get_returns_value_before_expiry_only() {
    let mut dht = new_registry();
    dht.store("k".to_string(), vec![1, 2, 3], 10, 100);
    assert_eq!(dht.get("k", 100), Some(vec![1, 2, 3]));
    assert_eq!(dht.get("k", 109), Some(vec![1, 2, 3]));
    // exactly at expiry the entry is absent
    assert_eq!(dht.get("k", 110), None);
    assert_eq!(dht.get("k", 111), None);
    assert_eq!(dht.get("missing", 100), None);
}

#[test]
fn store_overwrites_by_key() {
    let mut dht = new_registry();
    dht.store("k".to_string(), vec![1], 10, 100);
    dht.store("k".to_string(), vec![2], 10, 100);
    assert_eq!(dht.get("k", 100), Some(vec![2]));
    let stats = dht.get_stats();
    assert_eq!(stats.total_entries, 1);
}

#[test]
fn remove_deletes_entry() {
    let mut dht = new_registry();
    dht.store("k".to_string(), vec![1], 10, 100);
    dht.remove("k");
    assert_eq!(dht.get("k", 100), None);
}

#[test]
fn expired_entry_vanishes_even_before_cleanup() {
    let mut dht = new_registry();
    dht.store("old".to_string(), vec![1], 5, 100);
    // not yet physically removed, but observably absent
    assert_eq!(dht.get("old", 200), None);
    assert_eq!(dht.get_stats().total_entries, 1);
    let removed = dht.cleanup_expired_entries(200);
    assert_eq!(removed, 1);
    assert_eq!(dht.get_stats().total_entries, 0);
}

#[test]
fn cleanup_keeps_live_entries() {
    let mut dht = new_registry();
    dht.store("a".to_string(), vec![1], 5, 100);
    dht.store("b".to_string(), vec![2], 1000, 100);
    let removed = dht.cleanup_expired_entries(200);
    assert_eq!(removed, 1);
    assert_eq!(dht.get("b", 200), Some(vec![2]));
}

#[test]
fn peer_cache_capacity_is_twenty_and_fifo() {
    let mut dht = new_registry();
    for i in 0..21 {
        dht.add_peer(format!("peer-{}", i));
    }
    let peers = dht.get_peers();
    // the twenty-first distinct peer evicted the first (oldest) one
    assert_eq!(peers.len(), 20);
    assert_eq!(peers[0], "peer-1");
    assert_eq!(peers[19], "peer-20");
}

#[test]
fn known_peer_is_not_duplicated() {
    let mut dht = new_registry();
    dht.add_peer("p".to_string());
    dht.add_peer("p".to_string());
    assert_eq!(dht.get_peers().len(), 1);
}

#[test]
fn remove_peer_drops_it() {
    let mut dht = new_registry();
    dht.add_peer("a".to_string());
    dht.add_peer("b".to_string());
    dht.remove_peer("a");
    assert_eq!(dht.get_peers(), vec!["b".to_string()]);
}

#[test]
fn stored_service_found_by_substring_of_name_or_description() {
    let mut dht = new_registry();
    let service = sample_service("svc-1", "File Storage", "Reliable archival");
    dht.announce_service(&service, 100);
    // case-insensitive match against the name
    let by_name = dht.find_services("storage");
    assert_eq!(by_name.len(), 1);
    assert_eq!(by_name[0].id.0, "svc-1");
    // case-insensitive match against the description
    let by_desc = dht.find_services("ARCHIVAL");
    assert_eq!(by_desc.len(), 1);
    // a query matching neither field returns no results
    let none = dht.find_services("compute");
    assert_eq!(none.len(), 0);
}

#[test]
fn service_round_trips_with_unicode_text() {
    let mut dht = new_registry();
    let service = sample_service("svc-2", "Grüße-Dienst", "schnell & zuverlässig");
    dht.announce_service(&service, 100);
    let found = dht.find_services("grüße");
    assert_eq!(found.len(), 1);
    assert_eq!(found[0].name, "Grüße-Dienst");
    assert_eq!(found[0].description, "schnell & zuverlässig");
    assert_eq!(found[0].price, 42);
}

#[test]
fn attestations_stored_under_target_prefix() {
    let mut dht = new_registry();
    let att = ReputationAttestation {
        attester_did: "did:duxnet:alice".to_string(),
        target_did: "did:duxnet:bob".to_string(),
        score: 900_000,
        interaction_type: "trade".to_string(),
        timestamp: 7,
        signature: vec![9; 64],
    };
    dht.store_reputation_attestation(&att, 100);
    let found = dht.get_reputation_attestations("did:duxnet:bob");
    assert_eq!(found.len(), 1);
    assert_eq!(found[0].attester_did, "did:duxnet:alice");
    assert_eq!(found[0].score, 900_000);
    assert_eq!(dht.get_reputation_attestations("did:duxnet:carol").len(), 0);
}

#[test]
fn registry_stats_count_by_kind() {
    let mut dht = new_registry();
    dht.announce_service(&sample_service("s", "a", "b"), 100);
    dht.store("other".to_string(), vec![], 10, 100);
    dht.add_peer("p".to_string());
    let stats = dht.get_stats();
    assert_eq!(stats.total_entries, 2);
    assert_eq!(stats.service_entries, 1);
    assert_eq!(stats.reputation_entries, 0);
    assert_eq!(stats.escrow_entries, 0);
    assert_eq!(stats.total_peers, 1);
}
