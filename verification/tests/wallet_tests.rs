use duxnet::types::CoreError;
use duxnet::wallet::{Currency, MultiSigWallet, SendRequest, TransactionStatus, Wallet};

#[test]
fn currency_tables() {
    assert_eq!(Currency::BTC.symbol(), "BTC");
    assert_eq!(Currency::DOGE.name(), "Dogecoin");
    assert_eq!(Currency::ETH.decimals(), 18);
    assert_eq!(Currency::USDC.initial_balance(), 1000);
    assert_eq!(Currency::XMR.initial_balance(), 0);
}

#[test]
fn new_wallet_starts_with_standard_balances() {
    let wallet = Wallet::new("did:duxnet:me".to_string(), 100);
    assert_eq!(wallet.get_balance(&Currency::USDC), 1000);
    assert_eq!(wallet.get_balance(&Currency::DOGE), 10000);
    assert_eq!(wallet.get_balance(&Currency::BTC), 0);
    assert_eq!(wallet.get_all_balances().len(), 6);
    assert_eq!(*wallet.get_preferred_currency(), Currency::USDC);
    assert_eq!(wallet.get_transaction_history().len(), 0);
}

#[test]
fn addresses_carry_currency_prefixes() {
    let wallet = Wallet::new("did:duxnet:me".to_string(), 100);
    assert!(wallet.get_address(&Currency::BTC).starts_with('1'));
    assert!(wallet.get_address(&Currency::ETH).starts_with("0x"));
    assert!(wallet.get_address(&Currency::XMR).starts_with('4'));
    // hex of twenty key bytes after a one-character prefix
    assert_eq!(wallet.get_address(&Currency::DOGE).len(), 41);
    // hex of thirty-two key bytes for XMR
    assert_eq!(wallet.get_address(&Currency::XMR).len(), 65);
    assert_eq!(wallet.get_all_addresses().len(), 6);
}

#[test]
fn keys_round_trip_and_differ_from_derivations() {
    let wallet = Wallet::new("did:duxnet:me".to_string(), 100);
    let secret = wallet.export_private_key();
    assert_eq!(secret.len(), 32);
    let public = wallet.get_public_key();
    assert_eq!(public.len(), 32);
    // the public key is derived, not the seed handed back
    assert_ne!(public, secret);
    // standard base64 of 32 bytes is 44 characters with padding
    let encoded = wallet.export_private_key_base64();
    assert_eq!(encoded.len(), 44);
    let rebuilt = Wallet::import_private_key(secret, "did:duxnet:me".to_string(), 200).unwrap();
    assert_eq!(rebuilt.get_public_key(), public);
}

#[test]
fn import_rejects_wrong_key_length() {
    let r = Wallet::import_private_key(vec![1, 2, 3], "d".to_string(), 0);
    assert!(matches!(r, Err(CoreError::InvalidKeyLength)));
}

#[test]
fn add_and_remove_funds() {
    let mut wallet = Wallet::new("did:duxnet:me".to_string(), 100);
    wallet.add_funds(Currency::BTC, 50, 101);
    assert_eq!(wallet.get_balance(&Currency::BTC), 50);
    wallet.remove_funds(&Currency::BTC, 20, 102).unwrap();
    assert_eq!(wallet.get_balance(&Currency::BTC), 30);
    let err = wallet.remove_funds(&Currency::BTC, 31, 103);
    assert_eq!(err, Err(CoreError::InsufficientBalance));
    assert_eq!(wallet.get_balance(&Currency::BTC), 30);
}

#[test]
fn send_funds_debits_amount_plus_fee_and_records_transfer() {
    let mut wallet = Wallet::new("did:duxnet:me".to_string(), 100);
    let response = wallet
        .send_funds(
            SendRequest {
                to_address: "0xdest".to_string(),
                amount: 10,
                currency: Currency::USDC,
                memo: Some("thanks".to_string()),
                fee: Some(5),
            },
            200,
        )
        .unwrap();
    assert!(response.success);
    assert_eq!(response.fee, 5);
    assert_eq!(wallet.get_balance(&Currency::USDC), 985);
    let history = wallet.get_transaction_history();
    assert_eq!(history.len(), 1);
    assert_eq!(history[0].to, "0xdest");
    assert_eq!(history[0].amount, 10);
    assert_eq!(history[0].status, TransactionStatus::Pending);
    assert_eq!(history[0].signature.len(), 64);
}

#[test]
fn send_funds_rejects_short_balance() {
    let mut wallet = Wallet::new("did:duxnet:me".to_string(), 100);
    // the default USDC fee alone exceeds the starting balance
    let r = wallet.send_funds(
        SendRequest {
            to_address: "x".to_string(),
            amount: 1,
            currency: Currency::USDC,
            memo: None,
            fee: None,
        },
        200,
    );
    assert!(matches!(r, Err(CoreError::InsufficientBalance)));
    assert_eq!(wallet.get_balance(&Currency::USDC), 1000);
}

#[test]
fn receive_funds_credits_and_records() {
    let mut wallet = Wallet::new("did:duxnet:me".to_string(), 100);
    wallet.receive_funds(
        "0xsender".to_string(),
        40,
        Currency::DOGE,
        "tx-1".to_string(),
        vec![7; 64],
        300,
    );
    assert_eq!(wallet.get_balance(&Currency::DOGE), 10040);
    let found = wallet.get_transaction_by_id("tx-1").unwrap();
    assert_eq!(found.status, TransactionStatus::Confirmed);
    assert_eq!(found.from, "0xsender");
    assert!(wallet.get_transaction_by_id("tx-2").is_none());
}

#[test]
fn own_transactions_verify_under_own_key_only() {
    let mut wallet = Wallet::new("did:duxnet:me".to_string(), 100);
    let tx = wallet.create_transaction("dest".to_string(), 5, Currency::USDC, 150).unwrap();
    let own_key = wallet.get_public_key();
    assert!(wallet.verify_transaction(&tx, &own_key));
    // another wallet's key does not verify the same signature
    let other = Wallet::new("did:duxnet:other".to_string(), 100);
    assert!(!wallet.verify_transaction(&tx, &other.get_public_key()));
}

#[test]
fn create_transaction_requires_balance() {
    let mut wallet = Wallet::new("did:duxnet:me".to_string(), 100);
    let r = wallet.create_transaction("dest".to_string(), 1, Currency::BTC, 150);
    assert!(matches!(r, Err(CoreError::InsufficientBalance)));
}

#[test]
fn sign_transaction_replaces_signature() {
    let wallet = Wallet::new("did:duxnet:me".to_string(), 100);
    let mut tx = Wallet::new("did:duxnet:someone".to_string(), 100)
        .create_transaction("dest".to_string(), 1, Currency::USDC, 150)
        .unwrap();
    wallet.sign_transaction(&mut tx, 160);
    assert_eq!(tx.timestamp, 160);
    assert!(wallet.verify_transaction(&tx, &wallet.get_public_key()));
}

#[test]
fn transactions_filtered_by_currency() {
    let mut wallet = Wallet::new("did:duxnet:me".to_string(), 100);
    wallet.receive_funds("a".to_string(), 1, Currency::BTC, "t1".to_string(), vec![], 1);
    wallet.receive_funds("b".to_string(), 2, Currency::DOGE, "t2".to_string(), vec![], 2);
    wallet.receive_funds("c".to_string(), 3, Currency::BTC, "t3".to_string(), vec![], 3);
    let btc = wallet.get_transactions_by_currency(&Currency::BTC);
    assert_eq!(btc.len(), 2);
    assert_eq!(btc[0].id, "t1");
    assert_eq!(btc[1].id, "t3");
    assert_eq!(wallet.get_transactions_by_currency(&Currency::XMR).len(), 0);
}

#[test]
fn multisig_confirms_at_threshold_and_debits() {
    let participants = vec!["alice".to_string(), "bob".to_string(), "carol".to_string()];
    let mut shared = MultiSigWallet::new(participants, 2, Currency::USDC);
    assert!(shared.address.starts_with("multisig_"));
    shared.add_funds(100);
    let id = shared.create_transaction("dest".to_string(), 60, 10).unwrap();
    // a non-participant cannot sign
    assert_eq!(
        shared.add_signature(&id, "mallory".to_string(), vec![1]),
        Err(CoreError::SignerNotParticipant)
    );
    // first participant: below the threshold, still pending
    assert_eq!(shared.add_signature(&id, "alice".to_string(), vec![1]), Ok(false));
    assert_eq!(shared.balance, 100);
    // second participant: confirmed and debited
    assert_eq!(shared.add_signature(&id, "bob".to_string(), vec![2]), Ok(true));
    assert_eq!(shared.balance, 40);
    let pending = shared.get_pending_transactions();
    assert_eq!(pending[0].status, TransactionStatus::Confirmed);
}

#[test]
fn multisig_rejects_unknown_transfer_and_short_balance() {
    let mut shared = MultiSigWallet::new(vec!["alice".to_string()], 1, Currency::BTC);
    assert_eq!(
        shared.add_signature("missing", "alice".to_string(), vec![]),
        Err(CoreError::TransactionNotFound)
    );
    let r = shared.create_transaction("dest".to_string(), 1, 10);
    assert!(matches!(r, Err(CoreError::InsufficientBalance)));
}

#[test]
fn amounts_format_as_whole_coins() {
    assert_eq!(Currency::BTC.format_amount(0), "0 BTC");
    assert_eq!(Currency::BTC.format_amount(150_000_000), "1.5 BTC");
    assert_eq!(Currency::USDC.format_amount(1_234_567), "1.234567 USDC");
    assert_eq!(Currency::USDC.format_amount(1_000_000), "1 USDC");
    assert_eq!(Currency::USDC.format_amount(123), "0.000123 USDC");
    assert_eq!(Currency::DOGE.format_amount(10_000 * 100_000_000), "10000 DOGE");
}

#[test]
fn formatted_balances_and_wallet_info() {
    let wallet = Wallet::new("did:duxnet:me".to_string(), 100);
    // 1000 smallest units of a six-decimal currency
    assert_eq!(wallet.get_formatted_balance(&Currency::USDC), "0.001 USDC");
    let info = wallet.get_wallet_info();
    assert_eq!(info.did, "did:duxnet:me");
    assert_eq!(info.public_key.len(), 44);
    assert_eq!(info.addresses.len(), 6);
    assert_eq!(info.balances.len(), 6);
    assert_eq!(info.addresses[0].0, "BTC");
    assert_eq!(info.balances[2], ("USDC".to_string(), "0.001 USDC".to_string()));
    assert_eq!(info.total_transactions, 0);
}

#[test]
fn backup_restores_identity_but_not_balances() {
    let mut wallet = Wallet::new("did:duxnet:me".to_string(), 100);
    wallet.set_preferred_currency(Currency::DOGE, 110);
    wallet.add_funds(Currency::BTC, 7, 120);
    let backup = wallet.backup_wallet();
    let restored = Wallet::restore_wallet(&backup, 500).unwrap();
    assert_eq!(restored.did, "did:duxnet:me");
    assert_eq!(restored.export_private_key(), wallet.export_private_key());
    assert_eq!(*restored.get_preferred_currency(), Currency::DOGE);
    assert_eq!(restored.created_at, 100);
    // balances restart from the standard starting amounts
    assert_eq!(restored.get_balance(&Currency::BTC), 0);
    assert_eq!(restored.get_transaction_history().len(), 0);
}

#[test]
fn garbled_backup_is_rejected() {
    let wallet = Wallet::new("did:duxnet:me".to_string(), 100);
    let mut backup = wallet.backup_wallet();
    backup.pop();
    assert!(matches!(Wallet::restore_wallet(&backup, 1), Err(CoreError::InvalidBackup)));
    assert!(matches!(Wallet::restore_wallet(&vec![1, 2, 3], 1), Err(CoreError::InvalidBackup)));
}

#[test]
fn settling_transactions_moves_balances_once() {
    let mut sender = Wallet::new("did:duxnet:me".to_string(), 100);
    sender.add_funds(Currency::BTC, 50, 100);
    let tx = sender.create_transaction("did:duxnet:me".to_string(), 20, Currency::BTC, 100).unwrap();
    // a pending transfer only joins the history
    let mut pending_tx = tx.clone();
    pending_tx.status = TransactionStatus::Pending;
    // the status is part of the record, not the signed message
    sender.process_transaction(&pending_tx, 130).unwrap();
    assert_eq!(sender.get_balance(&Currency::BTC), 50);
    assert_eq!(sender.get_transaction_history().len(), 1);
    // processing the same identifier again does not duplicate history
    sender.process_transaction(&pending_tx, 131).unwrap();
    assert_eq!(sender.get_transaction_history().len(), 1);
    // a transfer signed under another key is rejected outright
    let mut stranger = Wallet::new("did:duxnet:other".to_string(), 100);
    let foreign = stranger
        .create_transaction("x".to_string(), 1, Currency::USDC, 100)
        .unwrap();
    assert_eq!(sender.process_transaction(&foreign, 140), Err(CoreError::InvalidSignature));
}
