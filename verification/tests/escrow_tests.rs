use duxnet::escrow::EscrowManager;
use duxnet::types::{CoreError, EscrowState};

fn new_escrow(manager: &mut EscrowManager) -> String {
    manager.create_escrow(
        "did:duxnet:buyer".to_string(),
        "did:duxnet:seller".to_string(),
        vec!["did:duxnet:arbiter1".to_string(), "did:duxnet:arbiter2".to_string()],
        100,
        1_000,
    )
}

#[test]
fn create_initializes_contract() {
    let mut manager = EscrowManager::new();
    let id = new_escrow(&mut manager);
    assert_eq!(id.len(), 36);
    let contract = manager.get_contract(&id).unwrap();
    assert_eq!(contract.state, EscrowState::Created);
    assert_eq!(contract.buyer_did, "did:duxnet:buyer");
    assert_eq!(contract.amount, 100);
    assert_eq!(contract.signatures.len(), 0);
    assert!(contract.multisig_address.starts_with("multisig_"));
}

#[test]
fn threshold_two_funds_on_second_distinct_signer_only() {
    let mut manager = EscrowManager::new();
    let id = new_escrow(&mut manager);
    // one signature: state stays Created
    manager.add_signature(&id, "signer-1", vec![1; 64]).unwrap();
    assert_eq!(manager.get_contract(&id).unwrap().state, EscrowState::Created);
    // the same signer again does not double-count
    manager.add_signature(&id, "signer-1", vec![2; 64]).unwrap();
    let c = manager.get_contract(&id).unwrap();
    assert_eq!(c.state, EscrowState::Created);
    assert_eq!(c.signatures.len(), 1);
    // the second distinct signer funds the contract exactly once
    manager.add_signature(&id, "signer-2", vec![3; 64]).unwrap();
    assert_eq!(manager.get_contract(&id).unwrap().state, EscrowState::Funded);
    // a third signature does not re-trigger the transition
    manager.add_signature(&id, "signer-3", vec![4; 64]).unwrap();
    assert_eq!(manager.get_contract(&id).unwrap().state, EscrowState::Funded);
}

#[test]
fn threshold_completes_an_in_progress_contract() {
    let mut manager = EscrowManager::new();
    let id = new_escrow(&mut manager);
    manager.add_signature(&id, "signer-1", vec![1; 64]).unwrap();
    manager.add_signature(&id, "signer-2", vec![2; 64]).unwrap();
    manager.update_state(&id, EscrowState::InProgress).unwrap();
    manager.add_signature(&id, "signer-4", vec![5; 64]).unwrap();
    assert_eq!(manager.get_contract(&id).unwrap().state, EscrowState::Completed);
}

#[test]
fn unknown_contract_is_reported() {
    let mut manager = EscrowManager::new();
    assert_eq!(manager.add_signature("missing", "s", vec![]), Err(CoreError::EscrowNotFound));
    assert_eq!(
        manager.update_state("missing", EscrowState::Disputed),
        Err(CoreError::EscrowNotFound)
    );
    assert!(manager.get_contract("missing").is_none());
}

#[test]
fn update_state_overwrites_without_validation() {
    let mut manager = EscrowManager::new();
    let id = new_escrow(&mut manager);
    // the transition table is not consulted: a deliberate gap
    manager.update_state(&id, EscrowState::Refunded).unwrap();
    assert_eq!(manager.get_contract(&id).unwrap().state, EscrowState::Refunded);
}

#[test]
fn contracts_for_identity_match_buyer_seller_or_arbiter() {
    let mut manager = EscrowManager::new();
    let id = new_escrow(&mut manager);
    assert_eq!(manager.get_contracts_for_did("did:duxnet:buyer").len(), 1);
    assert_eq!(manager.get_contracts_for_did("did:duxnet:seller").len(), 1);
    assert_eq!(manager.get_contracts_for_did("did:duxnet:arbiter2").len(), 1);
    assert_eq!(manager.get_contracts_for_did("did:duxnet:stranger").len(), 0);
    assert_eq!(manager.get_contracts_for_did(&id).len(), 0);
}

#[test]
fn pending_and_settled_partition_by_state() {
    let mut manager = EscrowManager::new();
    let a = new_escrow(&mut manager);
    let b = new_escrow(&mut manager);
    manager.update_state(&b, EscrowState::Completed).unwrap();
    let pending = manager.get_pending_contracts();
    assert_eq!(pending.len(), 1);
    assert_eq!(pending[0].id, a);
    let settled = manager.get_completed_contracts();
    assert_eq!(settled.len(), 1);
    assert_eq!(settled[0].id, b);
}

#[test]
fn stats_count_states_and_locked_amount() {
    let mut manager = EscrowManager::new();
    let a = new_escrow(&mut manager);
    let _b = new_escrow(&mut manager);
    let c = new_escrow(&mut manager);
    manager.update_state(&a, EscrowState::Funded).unwrap();
    manager.update_state(&c, EscrowState::Refunded).unwrap();
    let stats = manager.get_stats();
    assert_eq!(stats.total_contracts, 3);
    assert_eq!(stats.created, 1);
    assert_eq!(stats.funded, 1);
    assert_eq!(stats.refunded, 1);
    // only the funded contract's amount is locked; Created and Refunded are
    // excluded by design
    assert_eq!(stats.total_amount, 100);
}

#[test]
fn error_messages_name_the_failure() {
    assert_eq!(CoreError::EscrowNotFound.message(), "escrow contract not found");
    assert_eq!(CoreError::InsufficientBalance.message(), "insufficient balance");
}
