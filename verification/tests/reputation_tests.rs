use duxnet::reputation::{ReputationSystem, SECONDS_PER_DAY};
use duxnet::types::{ReputationAttestation, SCORE_SCALE};

fn attestation(attester: &str, target: &str, score: u64, timestamp: u64) -> ReputationAttestation {
    ReputationAttestation {
        attester_did: attester.to_string(),
        target_did: target.to_string(),
        score,
        interaction_type: "trade".to_string(),
        timestamp,
        signature: vec![1; 64],
    }
}

#[test]
fn fresh_attestation_scores_exactly_its_score() {
    let now = 1_000_000;
    let mut ledger = ReputationSystem::new();
    let score = 750_000; // 0.75 in millionths
    ledger.add_attestation(attestation("a", "bob", score, now), now);
    assert_eq!(ledger.get_reputation("bob"), score);
}

#[test]
fn two_attestations_decay_weighted_average() {
    let now = 10 * SECONDS_PER_DAY;
    let mut ledger = ReputationSystem::new();
    // 1.0 at age zero days, 0.0 at age two days:
    // (1.0 * 1 + 0.0 * 0.9025) / (1 + 0.9025) in millionths, floored.
    ledger.add_attestation(attestation("a", "bob", SCORE_SCALE, now), now);
    ledger.add_attestation(attestation("b", "bob", 0, now - 2 * SECONDS_PER_DAY), now);
    assert_eq!(ledger.get_reputation("bob"), 525_624);
}

#[test]
fn removing_only_attestation_resets_score_to_zero() {
    let now = 5_000;
    let mut ledger = ReputationSystem::new();
    ledger.add_attestation(attestation("a", "bob", 600_000, now), now);
    assert_eq!(ledger.get_reputation("bob"), 600_000);
    ledger.remove_attestation("bob", "a", now, now);
    assert_eq!(ledger.get_reputation("bob"), 0);
    assert_eq!(ledger.get_attestations("bob").len(), 0);
}

#[test]
fn removal_matches_attester_and_timestamp_exactly() {
    let now = 5_000;
    let mut ledger = ReputationSystem::new();
    ledger.add_attestation(attestation("a", "bob", 600_000, now), now);
    ledger.add_attestation(attestation("b", "bob", 200_000, now), now);
    // wrong timestamp: nothing leaves
    ledger.remove_attestation("bob", "a", now - 1, now);
    assert_eq!(ledger.get_attestations("bob").len(), 2);
    // exact match: only that one leaves
    ledger.remove_attestation("bob", "a", now, now);
    let left = ledger.get_attestations("bob");
    assert_eq!(left.len(), 1);
    assert_eq!(left[0].attester_did, "b");
    assert_eq!(ledger.get_reputation("bob"), 200_000);
}

#[test]
fn unknown_identity_scores_zero() {
    let ledger = ReputationSystem::new();
    assert_eq!(ledger.get_reputation("nobody"), 0);
    assert_eq!(ledger.get_attestations("nobody").len(), 0);
}

#[test]
fn scores_are_stale_between_writes() {
    let now = 100 * SECONDS_PER_DAY;
    let mut ledger = ReputationSystem::new();
    ledger.add_attestation(attestation("a", "bob", 800_000, now), now);
    // recomputation happens only at write time; a later read returns the
    // value as of the last write
    assert_eq!(ledger.get_reputation("bob"), 800_000);
}

#[test]
fn top_nodes_sorted_descending_and_truncated() {
    let now = 1_000;
    let mut ledger = ReputationSystem::new();
    ledger.add_attestation(attestation("x", "low", 100_000, now), now);
    ledger.add_attestation(attestation("x", "high", 900_000, now), now);
    ledger.add_attestation(attestation("x", "mid", 500_000, now), now);
    let top = ledger.get_top_nodes(2);
    assert_eq!(top.len(), 2);
    assert_eq!(top[0].0, "high");
    assert_eq!(top[0].1, 900_000);
    assert_eq!(top[1].0, "mid");
    let all = ledger.get_top_nodes(10);
    assert_eq!(all.len(), 3);
    assert_eq!(all[2].0, "low");
}

#[test]
fn stats_count_identities_attestations_and_mean() {
    let now = 1_000;
    let mut ledger = ReputationSystem::new();
    ledger.add_attestation(attestation("x", "a", 600_000, now), now);
    ledger.add_attestation(attestation("y", "a", 200_000, now), now);
    ledger.add_attestation(attestation("x", "b", 100_000, now), now);
    let stats = ledger.get_stats();
    assert_eq!(stats.total_nodes, 2);
    assert_eq!(stats.total_attestations, 3);
    // identity a scores (600000 + 200000) / 2 = 400000, identity b 100000;
    // the mean across identities is 250000
    assert_eq!(stats.average_score, 250_000);
}
