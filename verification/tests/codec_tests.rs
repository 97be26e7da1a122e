use duxnet::codec::{
    decode_attestation, decode_escrow, decode_service, encode_attestation, encode_escrow,
    encode_service, read_bytes, read_string, read_u64, write_bytes, write_str, write_u64,
};
use duxnet::text::{str_eq, str_starts_with, string_contains_ci, u64_to_string};
use duxnet::types::{
    EscrowContract, EscrowState, ReputationAttestation, ServiceId, ServiceMetadata,
};

#[test]
fn u64_round_trips_and_is_length_prefixed() {
    let mut buf: Vec<u8> = Vec::new();
    write_u64(&mut buf, 0);
    write_u64(&mut buf, 1);
    write_u64(&mut buf, u64::MAX);
    assert_eq!(buf.len(), 24);
    let (a, o1) = read_u64(&buf, 0).unwrap();
    let (b, o2) = read_u64(&buf, o1).unwrap();
    let (c, o3) = read_u64(&buf, o2).unwrap();
    assert_eq!((a, b, c), (0, 1, u64::MAX));
    assert_eq!(o3, 24);
    assert!(read_u64(&buf, 17).is_none());
}

#[test]
fn bytes_and_strings_round_trip() {
    let mut buf: Vec<u8> = Vec::new();
    write_bytes(&mut buf, &vec![1, 2, 3]);
    write_str(&mut buf, &"héllo, wörld".to_string());
    let (bytes, o1) = read_bytes(&buf, 0).unwrap();
    assert_eq!(bytes, vec![1, 2, 3]);
    let (text, o2) = read_string(&buf, o1).unwrap();
    assert_eq!(text, "héllo, wörld");
    assert_eq!(o2, buf.len());
}

#[test]
fn truncated_input_is_rejected() {
    let mut buf: Vec<u8> = Vec::new();
    write_bytes(&mut buf, &vec![1, 2, 3]);
    buf.pop();
    assert!(read_bytes(&buf, 0).is_none());
}

#[test]
fn invalid_utf8_is_rejected() {
    let mut buf: Vec<u8> = Vec::new();
    write_bytes(&mut buf, &vec![0xff, 0xfe]);
    assert!(read_string(&buf, 0).is_none());
}

#[test]
fn service_record_round_trips() {
    let service = ServiceMetadata {
        id: ServiceId("svc-9".to_string()),
        provider_did: "did:duxnet:p".to_string(),
        name: "Rendering".to_string(),
        description: "fast frames".to_string(),
        endpoint: "tcp://host:1".to_string(),
        price: 77,
        reputation_score: 123_456,
        last_updated: 42,
    };
    let bytes = encode_service(&service);
    let back = decode_service(&bytes).unwrap();
    assert_eq!(back.id.0, "svc-9");
    assert_eq!(back.provider_did, "did:duxnet:p");
    assert_eq!(back.name, "Rendering");
    assert_eq!(back.description, "fast frames");
    assert_eq!(back.endpoint, "tcp://host:1");
    assert_eq!(back.price, 77);
    assert_eq!(back.reputation_score, 123_456);
    assert_eq!(back.last_updated, 42);
    // a trailing byte breaks the full-consumption rule
    let mut longer = bytes.clone();
    longer.push(0);
    assert!(decode_service(&longer).is_none());
}

#[test]
fn attestation_round_trips() {
    let att = ReputationAttestation {
        attester_did: "did:duxnet:a".to_string(),
        target_did: "did:duxnet:b".to_string(),
        score: 999_999,
        interaction_type: "review".to_string(),
        timestamp: 1234,
        signature: vec![5; 64],
    };
    let bytes = encode_attestation(&att);
    let back = decode_attestation(&bytes).unwrap();
    assert_eq!(back.attester_did, att.attester_did);
    assert_eq!(back.target_did, att.target_did);
    assert_eq!(back.score, att.score);
    assert_eq!(back.interaction_type, att.interaction_type);
    assert_eq!(back.timestamp, att.timestamp);
    assert_eq!(back.signature, att.signature);
}

#[test]
fn escrow_contract_round_trips() {
    let contract = EscrowContract {
        id: "esc-1".to_string(),
        buyer_did: "did:duxnet:buyer".to_string(),
        seller_did: "did:duxnet:seller".to_string(),
        arbiters: vec!["arb1".to_string(), "arb2".to_string()],
        amount: 500,
        state: EscrowState::InProgress,
        multisig_address: "multisig_12345678".to_string(),
        signatures: vec![("s1".to_string(), vec![1, 2]), ("s2".to_string(), vec![3])],
        created_at: 9,
    };
    let bytes = encode_escrow(&contract);
    let back = decode_escrow(&bytes).unwrap();
    assert_eq!(back.id, "esc-1");
    assert_eq!(back.arbiters, vec!["arb1".to_string(), "arb2".to_string()]);
    assert_eq!(back.state, EscrowState::InProgress);
    assert_eq!(back.signatures.len(), 2);
    assert_eq!(back.signatures[0].0, "s1");
    assert_eq!(back.signatures[0].1, vec![1, 2]);
    assert_eq!(back.amount, 500);
}

#[test]
fn unknown_state_tag_is_rejected() {
    let contract = EscrowContract {
        id: "e".to_string(),
        buyer_did: "b".to_string(),
        seller_did: "s".to_string(),
        arbiters: vec![],
        amount: 1,
        state: EscrowState::Created,
        multisig_address: "m".to_string(),
        signatures: vec![],
        created_at: 0,
    };
    let mut bytes = encode_escrow(&contract);
    // the state tag sits right after the three strings, the arbiter list,
    // and the amount; corrupt it
    let tag_at = (8 + 1) + (8 + 1) + (8 + 1) + 8 + 8;
    bytes[tag_at] = 200;
    assert!(decode_escrow(&bytes).is_none());
}

#[test]
fn decimal_rendering() {
    assert_eq!(u64_to_string(0), "0");
    assert_eq!(u64_to_string(7), "7");
    assert_eq!(u64_to_string(12345), "12345");
    assert_eq!(u64_to_string(u64::MAX), "18446744073709551615");
}

#[test]
fn case_insensitive_containment() {
    assert!(string_contains_ci("Hello World", "WORLD"));
    assert!(string_contains_ci("Hello World", "lo wo"));
    assert!(string_contains_ci("anything", ""));
    assert!(!string_contains_ci("", "a"));
    assert!(!string_contains_ci("Hello", "world"));
    // only the ASCII range folds: the umlaut stays distinct by case
    assert!(string_contains_ci("GRÜSSE", "grÜsse"));
    assert!(!string_contains_ci("GRÜSSE", "grüsse"));
}

#[test]
fn string_primitives() {
    assert!(str_eq("abc", "abc"));
    assert!(!str_eq("abc", "abd"));
    assert!(!str_eq("abc", "ab"));
    assert!(str_starts_with("service:xyz", "service:"));
    assert!(!str_starts_with("serv", "service:"));
    assert!(str_starts_with("anything", ""));
}
