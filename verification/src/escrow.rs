//! The escrow coordinator: a threshold-signature state machine per
//! contract.
//!
//! A contract starts `Created`. Re-signing by the same signer overwrites
//! rather than double-counting. When the number of distinct signers reaches
//! the threshold and the contract is `Created` it becomes `Funded`; when the
//! threshold is reached again while `InProgress` it becomes `Completed`. No
//! other automatic transition exists. Whether a signer is one of the
//! contract's parties is not checked before counting, and `update_state`
//! overwrites without consulting the transition table: both are deliberate
//! gaps of this design, left to the caller.

use vstd::prelude::*;
use vstd::pervasive::VecAdditionalExecFns;
use vstd::string::StringExecFns;

use crate::types::{
    EscrowContract, EscrowContractView, EscrowState, CoreError, signatures_view, clone_signatures,
};
use crate::text::str_eq;
use crate::crypto::new_uuid_string;

verus! {

/// The number of distinct signers that triggers an automatic transition.
pub const ESCROW_THRESHOLD: usize = 2;

/// Some contract carries the identifier.
pub open spec fn has_contract(s: Seq<EscrowContractView>, id: Seq<char>) -> bool {
    exists|i: int| 0 <= i < s.len() && s[i].id == id
}

/// The contract carrying the identifier (well-defined when ids are unique).
pub open spec fn contract_of(s: Seq<EscrowContractView>, id: Seq<char>) -> EscrowContractView
    recommends
        has_contract(s, id),
{
    s[choose|i: int| 0 <= i < s.len() && s[i].id == id]
}

/// The contract at an id-carrying index is the contract of that id.
pub proof fn lemma_contract_at(s: Seq<EscrowContractView>, id: Seq<char>, i: int)
    requires
        forall|p: int, q: int| 0 <= p < q < s.len() ==> s[p].id != s[q].id,
        0 <= i < s.len(),
        s[i].id == id,
    ensures
        has_contract(s, id),
        contract_of(s, id) == s[i],
{
    let j = choose|j: int| 0 <= j < s.len() && s[j].id == id;
}

/// Some signature is recorded for the signer.
pub open spec fn has_signer(sigs: Seq<(Seq<char>, Seq<u8>)>, signer: Seq<char>) -> bool {
    exists|i: int| 0 <= i < sigs.len() && sigs[i].0 == signer
}

/// The signer's recorded signature bytes.
pub open spec fn sig_val_of(sigs: Seq<(Seq<char>, Seq<u8>)>, signer: Seq<char>) -> Seq<u8>
    recommends
        has_signer(sigs, signer),
{
    sigs[choose|i: int| 0 <= i < sigs.len() && sigs[i].0 == signer].1
}

/// The signature at a signer-carrying index is the signer's signature.
pub proof fn lemma_signer_at(sigs: Seq<(Seq<char>, Seq<u8>)>, signer: Seq<char>, i: int)
    requires
        forall|p: int, q: int| 0 <= p < q < sigs.len() ==> sigs[p].0 != sigs[q].0,
        0 <= i < sigs.len(),
        sigs[i].0 == signer,
    ensures
        has_signer(sigs, signer),
        sig_val_of(sigs, signer) == sigs[i].1,
{
    let j = choose|j: int| 0 <= j < sigs.len() && sigs[j].0 == signer;
}

/// The state a contract moves to once its distinct-signer count is known:
/// reaching the threshold funds a `Created` contract and completes an
/// `InProgress` one; nothing else moves.
pub open spec fn next_state(state: EscrowState, signer_count: int, threshold: int) -> EscrowState {
    if signer_count >= threshold {
        match state {
            EscrowState::Created => EscrowState::Funded,
            EscrowState::InProgress => EscrowState::Completed,
            _ => state,
        }
    } else {
        state
    }
}

/// The threshold transition table, spelled out: below the threshold nothing
/// moves; at or above it, `Created` funds and `InProgress` completes, and a
/// contract already `Funded` stays `Funded` — a later signature does not
/// re-trigger the transition.
pub proof fn lemma_threshold_transitions(state: EscrowState, signer_count: int, threshold: int)
    ensures
        signer_count < threshold ==> next_state(state, signer_count, threshold) == state,
        signer_count >= threshold && state == EscrowState::Created ==> next_state(
            state,
            signer_count,
            threshold,
        ) == EscrowState::Funded,
        signer_count >= threshold && state == EscrowState::Funded ==> next_state(
            state,
            signer_count,
            threshold,
        ) == EscrowState::Funded,
        signer_count >= threshold && state == EscrowState::InProgress ==> next_state(
            state,
            signer_count,
            threshold,
        ) == EscrowState::Completed,
        signer_count >= threshold && (state == EscrowState::Completed || state
            == EscrowState::Disputed || state == EscrowState::Refunded) ==> next_state(
            state,
            signer_count,
            threshold,
        ) == state,
{
}

/// A contract is pending while work on it can still move forward.
pub open spec fn is_pending(state: EscrowState) -> bool {
    state == EscrowState::Created || state == EscrowState::Funded || state
        == EscrowState::InProgress
}

/// A contract is settled once completed or refunded.
pub open spec fn is_settled(state: EscrowState) -> bool {
    state == EscrowState::Completed || state == EscrowState::Refunded
}

/// An identity is a party to a contract as buyer, seller, or arbiter.
pub open spec fn involves(c: EscrowContractView, did: Seq<char>) -> bool {
    c.buyer_did == did || c.seller_did == did || c.arbiters.contains(did)
}

/// The contracts an identity is a party to, in storage order.
pub open spec fn contracts_for(s: Seq<EscrowContractView>, did: Seq<char>) -> Seq<
    EscrowContractView,
>
    decreases s.len(),
{
    if s.len() == 0 {
        Seq::<EscrowContractView>::empty()
    } else {
        contracts_for(s.drop_last(), did) + if involves(s.last(), did) {
            seq![s.last()]
        } else {
            Seq::<EscrowContractView>::empty()
        }
    }
}

/// The pending contracts, in storage order.
pub open spec fn pending_contracts(s: Seq<EscrowContractView>) -> Seq<EscrowContractView>
    decreases s.len(),
{
    if s.len() == 0 {
        Seq::<EscrowContractView>::empty()
    } else {
        pending_contracts(s.drop_last()) + if is_pending(s.last().state) {
            seq![s.last()]
        } else {
            Seq::<EscrowContractView>::empty()
        }
    }
}

/// The settled contracts, in storage order.
pub open spec fn settled_contracts(s: Seq<EscrowContractView>) -> Seq<EscrowContractView>
    decreases s.len(),
{
    if s.len() == 0 {
        Seq::<EscrowContractView>::empty()
    } else {
        settled_contracts(s.drop_last()) + if is_settled(s.last().state) {
            seq![s.last()]
        } else {
            Seq::<EscrowContractView>::empty()
        }
    }
}

/// How many contracts stand in a state.
pub open spec fn count_in_state(s: Seq<EscrowContractView>, state: EscrowState) -> nat
    decreases s.len(),
{
    if s.len() == 0 {
        0
    } else {
        count_in_state(s.drop_last(), state) + if s.last().state == state {
            1nat
        } else {
            0nat
        }
    }
}

/// Whether a contract's amount counts as locked: `Created` has not been
/// funded yet and `Refunded` has been given back, so neither counts.
pub open spec fn amount_locked(state: EscrowState) -> bool {
    state == EscrowState::Funded || state == EscrowState::InProgress || state
        == EscrowState::Completed || state == EscrowState::Disputed
}

/// The total amount locked across the contracts.
pub open spec fn locked_amount(s: Seq<EscrowContractView>) -> int
    decreases s.len(),
{
    if s.len() == 0 {
        0
    } else {
        locked_amount(s.drop_last()) + if amount_locked(s.last().state) {
            s.last().amount as int
        } else {
            0
        }
    }
}

/// A locked total is nonnegative and within the count times the largest
/// amount.
pub proof fn lemma_locked_amount_bounds(s: Seq<EscrowContractView>)
    ensures
        0 <= locked_amount(s),
        locked_amount(s) <= s.len() * (u64::MAX as int),
    decreases s.len(),
{
    if s.len() > 0 {
        lemma_locked_amount_bounds(s.drop_last());
    }
}

/// Per-state counts and the locked total, surfaced to the API boundary.
#[derive(Debug, Clone, Copy, PartialEq, Eq, Structural)]
pub struct EscrowStats {
    pub total_contracts: usize,
    pub created: usize,
    pub funded: usize,
    pub in_progress: usize,
    pub completed: usize,
    pub disputed: usize,
    pub refunded: usize,
    pub total_amount: u128,
}

/// Mathematical image of the coordinator.
pub struct EscrowManagerView {
    pub contracts: Seq<EscrowContractView>,
    pub threshold: usize,
}

/// The escrow coordinator: the authoritative map of contracts and the
/// signature threshold.
pub struct EscrowManager {
    pub contracts: Vec<EscrowContract>,
    pub threshold: usize,
}

impl View for EscrowManager {
    type V = EscrowManagerView;

    open spec fn view(&self) -> EscrowManagerView {
        EscrowManagerView {
            contracts: self.contracts@.map_values(|c: EscrowContract| c@),
            threshold: self.threshold,
        }
    }
}

/// The index of a contract, if any.
fn find_contract_index(contracts: &Vec<EscrowContract>, id: &str) -> (r: Option<usize>)
    ensures
        r matches Some(i) ==> i < contracts@.len() && contracts@[i as int]@.id == id@,
        r is None ==> forall|j: int| 0 <= j < contracts@.len() ==> contracts@[j]@.id != id@,
{
    let mut i: usize = 0;
    while i < contracts.len()
        invariant
            i <= contracts@.len(),
            forall|j: int| 0 <= j < i ==> contracts@[j]@.id != id@,
        decreases contracts@.len() - i,
    {
        if str_eq(contracts[i].id.as_str(), id) {
            return Some(i);
        }
        i += 1;
    }
    None
}

/// Records or overwrites one signer's signature in a signature list.
pub(crate) fn upsert_signature(sigs: &Vec<(String, Vec<u8>)>, signer: String, signature: Vec<u8>) -> (r: Vec<
    (String, Vec<u8>),
>)
    requires
        forall|p: int, q: int|
            0 <= p < q < signatures_view(sigs@).len() ==> signatures_view(sigs@)[p].0
                != signatures_view(sigs@)[q].0,
    ensures
        ({
            let s0 = signatures_view(sigs@);
            let s1 = signatures_view(r@);
            &&& forall|p: int, q: int| 0 <= p < q < s1.len() ==> s1[p].0 != s1[q].0
            &&& has_signer(s1, signer@)
            &&& sig_val_of(s1, signer@) == signature@
            &&& forall|k: Seq<char>| has_signer(s1, k) <==> has_signer(s0, k) || k == signer@
            &&& forall|k: Seq<char>|
                k != signer@ && has_signer(s0, k) ==> #[trigger] sig_val_of(s1, k) == sig_val_of(
                    s0,
                    k,
                )
            &&& s1.len() == if has_signer(s0, signer@) {
                s0.len() as int
            } else {
                s0.len() as int + 1
            }
        }),
{
    let ghost s0 = signatures_view(sigs@);
    let mut out = clone_signatures(sigs);
    let mut i: usize = 0;
    while i < out.len()
        invariant
            s0 == signatures_view(sigs@),
            signatures_view(out@) == s0,
            forall|p: int, q: int| 0 <= p < q < s0.len() ==> s0[p].0 != s0[q].0,
            i <= out@.len(),
            forall|j: int| 0 <= j < i ==> s0[j].0 != signer@,
        decreases out@.len() - i,
    {
        proof {
            assert(s0[i as int].0 == out@[i as int].0@);
        }
        if str_eq(out[i].0.as_str(), signer.as_str()) {
            out.set(i, (signer, signature));
            proof {
                let s1 = signatures_view(out@);
                assert(s1 =~= s0.update(i as int, (s0[i as int].0, signature@)));
                assert(forall|p: int| 0 <= p < s1.len() ==> s1[p].0 == s0[p].0);
                lemma_signer_at(s1, s0[i as int].0, i as int);
                assert forall|k: Seq<char>|
                    has_signer(s1, k) <==> has_signer(s0, k) || k == signer@ by {
                    if has_signer(s1, k) {
                        let p = choose|p: int| 0 <= p < s1.len() && s1[p].0 == k;
                        assert(s0[p].0 == k);
                    }
                    if has_signer(s0, k) {
                        let p = choose|p: int| 0 <= p < s0.len() && s0[p].0 == k;
                        assert(s1[p].0 == k);
                    }
                }
                assert forall|k: Seq<char>| k != signer@ && has_signer(s0, k) implies sig_val_of(
                    s1,
                    k,
                ) == sig_val_of(s0, k) by {
                    let p = choose|p: int| 0 <= p < s0.len() && s0[p].0 == k;
                    lemma_signer_at(s0, k, p);
                    lemma_signer_at(s1, k, p);
                }
                lemma_signer_at(s0, signer@, i as int);
                assert forall|p: int, q: int| 0 <= p < q < s1.len() implies s1[p].0 != s1[q].0 by {
                    assert(s1[p].0 == s0[p].0 && s1[q].0 == s0[q].0);
                }
            }
            return out;
        }
        i += 1;
    }
    let ghost sv = signer@;
    out.push((signer, signature));
    proof {
        let s1 = signatures_view(out@);
        assert(s1 =~= s0.push((sv, signature@)));
        assert(forall|p: int| 0 <= p < s0.len() ==> s0[p].0 != sv);
        assert(!has_signer(s0, sv));
        assert forall|p: int, q: int| 0 <= p < q < s1.len() implies s1[p].0 != s1[q].0 by {
            if q < s0.len() {
                assert(s1[p] == s0[p] && s1[q] == s0[q]);
            } else {
                assert(s1[q].0 == sv);
                assert(s1[p] == s0[p]);
            }
        }
        lemma_signer_at(s1, sv, s0.len() as int);
        assert forall|k: Seq<char>| has_signer(s1, k) <==> has_signer(s0, k) || k == sv by {
            if has_signer(s1, k) {
                let p = choose|p: int| 0 <= p < s1.len() && s1[p].0 == k;
                if p < s0.len() {
                    assert(s0[p].0 == k);
                }
            }
            if has_signer(s0, k) {
                let p = choose|p: int| 0 <= p < s0.len() && s0[p].0 == k;
                assert(s1[p].0 == k);
            }
        }
        assert forall|k: Seq<char>| k != sv && has_signer(s0, k) implies sig_val_of(s1, k)
            == sig_val_of(s0, k) by {
            let p = choose|p: int| 0 <= p < s0.len() && s0[p].0 == k;
            lemma_signer_at(s0, k, p);
            lemma_signer_at(s1, k, p);
        }
    }
    out
}

impl EscrowManager {
    /// Internal consistency: unique contract ids, unique signers within
    /// each contract, and the fixed threshold.
    pub open spec fn wf(&self) -> bool {
        &&& self.threshold == ESCROW_THRESHOLD
        &&& forall|i: int, j: int|
            0 <= i < j < self@.contracts.len() ==> self@.contracts[i].id != self@.contracts[j].id
        &&& forall|i: int, p: int, q: int|
            0 <= i < self@.contracts.len() && 0 <= p < q < self@.contracts[i].signatures.len()
                ==> (#[trigger] self@.contracts[i].signatures[p]).0
                != (#[trigger] self@.contracts[i].signatures[q]).0
    }

    /// An empty coordinator with the default two-signer threshold.
    pub fn new() -> (r: Self)
        ensures
            r.wf(),
            r@.contracts.len() == 0,
            r@.threshold == ESCROW_THRESHOLD,
    {
        let r = EscrowManager { contracts: Vec::new(), threshold: ESCROW_THRESHOLD };
        proof {
            assert(r@.contracts =~= Seq::<EscrowContractView>::empty());
        }
        r
    }

    /// Opens a contract: a fresh identifier is drawn, the multisig address
    /// label is derived from it, the signer map starts empty, and the state
    /// starts `Created`. The identifier comes back.
    pub fn create_escrow(
        &mut self,
        buyer_did: String,
        seller_did: String,
        arbiters: Vec<String>,
        amount: u64,
        now: u64,
    ) -> (r: String)
        requires
            old(self).wf(),
        ensures
            final(self).wf(),
            final(self)@.threshold == old(self)@.threshold,
            r@.len() == 36,
            has_contract(final(self)@.contracts, r@),
            contract_of(final(self)@.contracts, r@) == (EscrowContractView {
                id: r@,
                buyer_did: buyer_did@,
                seller_did: seller_did@,
                arbiters: arbiters.deep_view(),
                amount,
                state: EscrowState::Created,
                multisig_address: "multisig_"@ + r@.subrange(0, 8),
                signatures: Seq::<(Seq<char>, Seq<u8>)>::empty(),
                created_at: now,
            }),
            forall|k: Seq<char>|
                has_contract(final(self)@.contracts, k) <==> has_contract(old(self)@.contracts, k)
                    || k == r@,
            forall|k: Seq<char>|
                k != r@ && has_contract(old(self)@.contracts, k) ==> #[trigger] contract_of(
                    final(self)@.contracts,
                    k,
                ) == contract_of(old(self)@.contracts, k),
    {
        let escrow_id = new_uuid_string();
        let multisig_address = String::from_str("multisig_").concat(
            escrow_id.as_str().substring_ascii(0, 8),
        );
        let contract = EscrowContract {
            id: escrow_id.clone(),
            buyer_did,
            seller_did,
            arbiters,
            amount,
            state: EscrowState::Created,
            multisig_address,
            signatures: Vec::new(),
            created_at: now,
        };
        let ghost cv = contract@;
        let ghost c0 = self@.contracts;
        proof {
            assert(cv.signatures =~= Seq::<(Seq<char>, Seq<u8>)>::empty());
        }
        match find_contract_index(&self.contracts, escrow_id.as_str()) {
            Some(i) => {
                self.contracts.set(i, contract);
                proof {
                    let c1 = self@.contracts;
                    assert(c1 =~= c0.update(i as int, cv));
                    assert(c0[i as int].id == cv.id);
                    assert(forall|p: int| 0 <= p < c1.len() ==> c1[p].id == c0[p].id);
                    lemma_contract_at(c1, cv.id, i as int);
                    assert forall|k: Seq<char>|
                        has_contract(c1, k) <==> has_contract(c0, k) || k == cv.id by {
                        if has_contract(c1, k) {
                            let p = choose|p: int| 0 <= p < c1.len() && c1[p].id == k;
                            assert(c0[p].id == k);
                        }
                        if has_contract(c0, k) {
                            let p = choose|p: int| 0 <= p < c0.len() && c0[p].id == k;
                            assert(c1[p].id == k);
                        }
                    }
                    assert forall|k: Seq<char>| k != cv.id && has_contract(c0, k) implies
                        contract_of(c1, k) == contract_of(c0, k) by {
                        let p = choose|p: int| 0 <= p < c0.len() && c0[p].id == k;
                        assert(p != i) by {
                            lemma_contract_at(c0, cv.id, i as int);
                        }
                        lemma_contract_at(c0, k, p);
                        lemma_contract_at(c1, k, p);
                    }
                    assert forall|p: int, q1: int, q2: int|
                        0 <= p < c1.len() && 0 <= q1 < q2 < c1[p].signatures.len() implies (
                    #[trigger] c1[p].signatures[q1]).0 != (#[trigger] c1[p].signatures[q2]).0 by {
                        if p != i {
                            assert(c1[p] == c0[p]);
                        } else {
                            assert(c1[p].signatures.len() == 0);
                        }
                    }
                }
            },
            None => {
                self.contracts.push(contract);
                proof {
                    let c1 = self@.contracts;
                    assert(c1 =~= c0.push(cv));
                    assert forall|p: int| 0 <= p < c0.len() implies c0[p].id != cv.id by {
                        assert(c0[p].id == old(self).contracts@[p]@.id);
                    }
                    assert forall|p: int, q: int| 0 <= p < q < c1.len() implies c1[p].id
                        != c1[q].id by {
                        if q < c0.len() {
                            assert(c1[p] == c0[p] && c1[q] == c0[q]);
                        } else {
                            assert(c1[q].id == cv.id);
                            assert(c1[p] == c0[p]);
                        }
                    }
                    lemma_contract_at(c1, cv.id, c0.len() as int);
                    assert forall|k: Seq<char>|
                        has_contract(c1, k) <==> has_contract(c0, k) || k == cv.id by {
                        if has_contract(c1, k) {
                            let p = choose|p: int| 0 <= p < c1.len() && c1[p].id == k;
                            if p < c0.len() {
                                assert(c0[p].id == k);
                            }
                        }
                        if has_contract(c0, k) {
                            let p = choose|p: int| 0 <= p < c0.len() && c0[p].id == k;
                            assert(c1[p].id == k);
                        }
                    }
                    assert forall|k: Seq<char>| k != cv.id && has_contract(c0, k) implies
                        contract_of(c1, k) == contract_of(c0, k) by {
                        let p = choose|p: int| 0 <= p < c0.len() && c0[p].id == k;
                        lemma_contract_at(c0, k, p);
                        lemma_contract_at(c1, k, p);
                    }
                    assert forall|p: int, q1: int, q2: int|
                        0 <= p < c1.len() && 0 <= q1 < q2 < c1[p].signatures.len() implies (
                    #[trigger] c1[p].signatures[q1]).0 != (#[trigger] c1[p].signatures[q2]).0 by {
                        if p < c0.len() {
                            assert(c1[p] == c0[p]);
                        } else {
                            assert(c1[p].signatures.len() == 0);
                        }
                    }
                }
            },
        }
        escrow_id
    }

    /// Records or overwrites one signer's signature on a contract, then
    /// applies the threshold transition to the new distinct-signer count.
    /// An unknown contract identifier is reported and changes nothing.
    pub fn add_signature(&mut self, escrow_id: &str, signer_did: &str, signature: Vec<u8>) -> (r:
        Result<(), CoreError>)
        requires
            old(self).wf(),
        ensures
            final(self).wf(),
            final(self)@.threshold == old(self)@.threshold,
            r is Ok <==> has_contract(old(self)@.contracts, escrow_id@),
            r is Err ==> r == Result::<(), CoreError>::Err(CoreError::EscrowNotFound)
                && *final(self) == *old(self),
            has_contract(old(self)@.contracts, escrow_id@) ==> ({
                let c0 = contract_of(old(self)@.contracts, escrow_id@);
                let c1 = contract_of(final(self)@.contracts, escrow_id@);
                let n1 = if has_signer(c0.signatures, signer_did@) {
                    c0.signatures.len() as int
                } else {
                    c0.signatures.len() as int + 1
                };
                &&& c1.id == c0.id
                &&& c1.buyer_did == c0.buyer_did
                &&& c1.seller_did == c0.seller_did
                &&& c1.arbiters == c0.arbiters
                &&& c1.amount == c0.amount
                &&& c1.multisig_address == c0.multisig_address
                &&& c1.created_at == c0.created_at
                &&& c1.signatures.len() == n1
                &&& has_signer(c1.signatures, signer_did@)
                &&& sig_val_of(c1.signatures, signer_did@) == signature@
                &&& (forall|k: Seq<char>|
                    has_signer(c1.signatures, k) <==> has_signer(c0.signatures, k) || k
                        == signer_did@)
                &&& (forall|k: Seq<char>|
                    k != signer_did@ && has_signer(c0.signatures, k) ==> #[trigger] sig_val_of(
                        c1.signatures,
                        k,
                    ) == sig_val_of(c0.signatures, k))
                &&& c1.state == next_state(c0.state, n1, old(self)@.threshold as int)
            }),
            forall|k: Seq<char>|
                has_contract(final(self)@.contracts, k) <==> has_contract(
                    old(self)@.contracts,
                    k,
                ),
            forall|k: Seq<char>|
                k != escrow_id@ && has_contract(old(self)@.contracts, k) ==> #[trigger] contract_of(
                    final(self)@.contracts,
                    k,
                ) == contract_of(old(self)@.contracts, k),
    {
        let ghost c0s = self@.contracts;
        match find_contract_index(&self.contracts, escrow_id) {
            Some(i) => {
                proof {
                    lemma_contract_at(c0s, escrow_id@, i as int);
                }
                let contract = &self.contracts[i];
                let new_sigs = upsert_signature(
                    &contract.signatures,
                    String::from_str(signer_did),
                    signature,
                );
                let count = new_sigs.len();
                let new_state = if count >= self.threshold {
                    match contract.state {
                        EscrowState::Created => EscrowState::Funded,
                        EscrowState::InProgress => EscrowState::Completed,
                        other => other,
                    }
                } else {
                    contract.state
                };
                let updated = EscrowContract {
                    id: contract.id.clone(),
                    buyer_did: contract.buyer_did.clone(),
                    seller_did: contract.seller_did.clone(),
                    arbiters: crate::types::clone_strings(&contract.arbiters),
                    amount: contract.amount,
                    state: new_state,
                    multisig_address: contract.multisig_address.clone(),
                    signatures: new_sigs,
                    created_at: contract.created_at,
                };
                let ghost uv = updated@;
                self.contracts.set(i, updated);
                proof {
                    let c1s = self@.contracts;
                    assert(c1s =~= c0s.update(i as int, uv));
                    assert(uv.id == c0s[i as int].id);
                    assert(forall|p: int| 0 <= p < c1s.len() ==> c1s[p].id == c0s[p].id);
                    lemma_contract_at(c1s, escrow_id@, i as int);
                    assert forall|k: Seq<char>|
                        has_contract(c1s, k) <==> has_contract(c0s, k) by {
                        if has_contract(c1s, k) {
                            let p = choose|p: int| 0 <= p < c1s.len() && c1s[p].id == k;
                            assert(c0s[p].id == k);
                        }
                        if has_contract(c0s, k) {
                            let p = choose|p: int| 0 <= p < c0s.len() && c0s[p].id == k;
                            assert(c1s[p].id == k);
                        }
                    }
                    assert forall|k: Seq<char>| k != escrow_id@ && has_contract(c0s, k) implies
                        contract_of(c1s, k) == contract_of(c0s, k) by {
                        let p = choose|p: int| 0 <= p < c0s.len() && c0s[p].id == k;
                        assert(p != i);
                        lemma_contract_at(c0s, k, p);
                        lemma_contract_at(c1s, k, p);
                    }
                    assert forall|p: int, q1: int, q2: int|
                        0 <= p < c1s.len() && 0 <= q1 < q2 < c1s[p].signatures.len() implies (
                    #[trigger] c1s[p].signatures[q1]).0 != (#[trigger] c1s[p].signatures[q2]).0 by {
                        if p != i {
                            assert(c1s[p] == c0s[p]);
                        } else {
                            assert(c1s[p].signatures == uv.signatures);
                        }
                    }
                }
                Ok(())
            },
            None => {
                proof {
                    assert forall|p: int| 0 <= p < c0s.len() implies c0s[p].id != escrow_id@ by {
                        assert(c0s[p].id == self.contracts@[p]@.id);
                    }
                }
                Err(CoreError::EscrowNotFound)
            },
        }
    }

    /// The contract carrying the identifier, if any.
    pub fn get_contract(&self, escrow_id: &str) -> (r: Option<EscrowContract>)
        requires
            self.wf(),
        ensures
            r is Some <==> has_contract(self@.contracts, escrow_id@),
            r matches Some(c) ==> c@ == contract_of(self@.contracts, escrow_id@),
    {
        match find_contract_index(&self.contracts, escrow_id) {
            Some(i) => {
                proof {
                    lemma_contract_at(self@.contracts, escrow_id@, i as int);
                }
                Some(self.contracts[i].clone())
            },
            None => {
                proof {
                    assert forall|p: int| 0 <= p < self@.contracts.len() implies
                        self@.contracts[p].id != escrow_id@ by {
                        assert(self@.contracts[p].id == self.contracts@[p]@.id);
                    }
                }
                None
            },
        }
    }

    /// Overwrites a contract's state with no validation against the
    /// transition table — a deliberate gap of this design. An unknown
    /// identifier is reported and changes nothing.
    pub fn update_state(&mut self, escrow_id: &str, new_state: EscrowState) -> (r: Result<
        (),
        CoreError,
    >)
        requires
            old(self).wf(),
        ensures
            final(self).wf(),
            final(self)@.threshold == old(self)@.threshold,
            r is Ok <==> has_contract(old(self)@.contracts, escrow_id@),
            r is Err ==> r == Result::<(), CoreError>::Err(CoreError::EscrowNotFound)
                && *final(self) == *old(self),
            has_contract(old(self)@.contracts, escrow_id@) ==> ({
                let c0 = contract_of(old(self)@.contracts, escrow_id@);
                let c1 = contract_of(final(self)@.contracts, escrow_id@);
                c1 == EscrowContractView { state: new_state, ..c0 }
            }),
            forall|k: Seq<char>|
                has_contract(final(self)@.contracts, k) <==> has_contract(
                    old(self)@.contracts,
                    k,
                ),
            forall|k: Seq<char>|
                k != escrow_id@ && has_contract(old(self)@.contracts, k) ==> #[trigger] contract_of(
                    final(self)@.contracts,
                    k,
                ) == contract_of(old(self)@.contracts, k),
    {
        let ghost c0s = self@.contracts;
        match find_contract_index(&self.contracts, escrow_id) {
            Some(i) => {
                proof {
                    lemma_contract_at(c0s, escrow_id@, i as int);
                }
                let contract = &self.contracts[i];
                let updated = EscrowContract {
                    id: contract.id.clone(),
                    buyer_did: contract.buyer_did.clone(),
                    seller_did: contract.seller_did.clone(),
                    arbiters: crate::types::clone_strings(&contract.arbiters),
                    amount: contract.amount,
                    state: new_state,
                    multisig_address: contract.multisig_address.clone(),
                    signatures: clone_signatures(&contract.signatures),
                    created_at: contract.created_at,
                };
                let ghost uv = updated@;
                self.contracts.set(i, updated);
                proof {
                    let c1s = self@.contracts;
                    assert(c1s =~= c0s.update(i as int, uv));
                    assert(uv.id == c0s[i as int].id);
                    assert(forall|p: int| 0 <= p < c1s.len() ==> c1s[p].id == c0s[p].id);
                    lemma_contract_at(c1s, escrow_id@, i as int);
                    assert(uv == EscrowContractView { state: new_state, ..c0s[i as int] });
                    assert forall|k: Seq<char>|
                        has_contract(c1s, k) <==> has_contract(c0s, k) by {
                        if has_contract(c1s, k) {
                            let p = choose|p: int| 0 <= p < c1s.len() && c1s[p].id == k;
                            assert(c0s[p].id == k);
                        }
                        if has_contract(c0s, k) {
                            let p = choose|p: int| 0 <= p < c0s.len() && c0s[p].id == k;
                            assert(c1s[p].id == k);
                        }
                    }
                    assert forall|k: Seq<char>| k != escrow_id@ && has_contract(c0s, k) implies
                        contract_of(c1s, k) == contract_of(c0s, k) by {
                        let p = choose|p: int| 0 <= p < c0s.len() && c0s[p].id == k;
                        assert(p != i);
                        lemma_contract_at(c0s, k, p);
                        lemma_contract_at(c1s, k, p);
                    }
                    assert forall|p: int, q1: int, q2: int|
                        0 <= p < c1s.len() && 0 <= q1 < q2 < c1s[p].signatures.len() implies (
                    #[trigger] c1s[p].signatures[q1]).0 != (#[trigger] c1s[p].signatures[q2]).0 by {
                        if p != i {
                            assert(c1s[p] == c0s[p]);
                        } else {
                            assert(c1s[p].signatures == c0s[p].signatures);
                        }
                    }
                }
                Ok(())
            },
            None => {
                proof {
                    assert forall|p: int| 0 <= p < c0s.len() implies c0s[p].id != escrow_id@ by {
                        assert(c0s[p].id == self.contracts@[p]@.id);
                    }
                }
                Err(CoreError::EscrowNotFound)
            },
        }
    }

    /// The contracts an identity is a party to, in storage order.
    pub fn get_contracts_for_did(&self, did: &str) -> (r: Vec<EscrowContract>)
        ensures
            r@.map_values(|c: EscrowContract| c@) == contracts_for(self@.contracts, did@),
    {
        let mut found: Vec<EscrowContract> = Vec::new();
        let mut i: usize = 0;
        proof {
            assert(found@.map_values(|c: EscrowContract| c@) =~= contracts_for(
                self@.contracts.take(0),
                did@,
            ));
        }
        while i < self.contracts.len()
            invariant
                i <= self@.contracts.len(),
                found@.map_values(|c: EscrowContract| c@) == contracts_for(
                    self@.contracts.take(i as int),
                    did@,
                ),
            decreases self@.contracts.len() - i,
        {
            let ghost fv = found@.map_values(|c: EscrowContract| c@);
            let c = &self.contracts[i];
            let hit = str_eq(c.buyer_did.as_str(), did) || str_eq(c.seller_did.as_str(), did)
                || contains_string(&c.arbiters, did);
            if hit {
                found.push(c.clone());
            }
            proof {
                let s = self@.contracts;
                assert(s.take(i + 1).drop_last() =~= s.take(i as int));
                assert(s.take(i + 1).last() == s[i as int]);
                assert(hit == involves(s[i as int], did@));
                if hit {
                    assert(found@.map_values(|c: EscrowContract| c@) =~= fv + seq![s[i as int]]);
                } else {
                    assert(found@.map_values(|c: EscrowContract| c@) =~= fv);
                    assert(fv + Seq::<EscrowContractView>::empty() =~= fv);
                }
            }
            i += 1;
        }
        proof {
            assert(self@.contracts.take(self@.contracts.len() as int) =~= self@.contracts);
        }
        found
    }

    /// The contracts still pending (`Created`, `Funded`, or `InProgress`),
    /// in storage order.
    pub fn get_pending_contracts(&self) -> (r: Vec<EscrowContract>)
        ensures
            r@.map_values(|c: EscrowContract| c@) == pending_contracts(self@.contracts),
    {
        let mut found: Vec<EscrowContract> = Vec::new();
        let mut i: usize = 0;
        proof {
            assert(found@.map_values(|c: EscrowContract| c@) =~= pending_contracts(
                self@.contracts.take(0),
            ));
        }
        while i < self.contracts.len()
            invariant
                i <= self@.contracts.len(),
                found@.map_values(|c: EscrowContract| c@) == pending_contracts(
                    self@.contracts.take(i as int),
                ),
            decreases self@.contracts.len() - i,
        {
            let ghost fv = found@.map_values(|c: EscrowContract| c@);
            let c = &self.contracts[i];
            let hit = match c.state {
                EscrowState::Created => true,
                EscrowState::Funded => true,
                EscrowState::InProgress => true,
                _ => false,
            };
            if hit {
                found.push(c.clone());
            }
            proof {
                let s = self@.contracts;
                assert(s.take(i + 1).drop_last() =~= s.take(i as int));
                assert(s.take(i + 1).last() == s[i as int]);
                assert(hit == is_pending(s[i as int].state));
                if hit {
                    assert(found@.map_values(|c: EscrowContract| c@) =~= fv + seq![s[i as int]]);
                } else {
                    assert(found@.map_values(|c: EscrowContract| c@) =~= fv);
                    assert(fv + Seq::<EscrowContractView>::empty() =~= fv);
                }
            }
            i += 1;
        }
        proof {
            assert(self@.contracts.take(self@.contracts.len() as int) =~= self@.contracts);
        }
        found
    }

    /// The contracts settled (`Completed` or `Refunded`), in storage order.
    pub fn get_completed_contracts(&self) -> (r: Vec<EscrowContract>)
        ensures
            r@.map_values(|c: EscrowContract| c@) == settled_contracts(self@.contracts),
    {
        let mut found: Vec<EscrowContract> = Vec::new();
        let mut i: usize = 0;
        proof {
            assert(found@.map_values(|c: EscrowContract| c@) =~= settled_contracts(
                self@.contracts.take(0),
            ));
        }
        while i < self.contracts.len()
            invariant
                i <= self@.contracts.len(),
                found@.map_values(|c: EscrowContract| c@) == settled_contracts(
                    self@.contracts.take(i as int),
                ),
            decreases self@.contracts.len() - i,
        {
            let ghost fv = found@.map_values(|c: EscrowContract| c@);
            let c = &self.contracts[i];
            let hit = match c.state {
                EscrowState::Completed => true,
                EscrowState::Refunded => true,
                _ => false,
            };
            if hit {
                found.push(c.clone());
            }
            proof {
                let s = self@.contracts;
                assert(s.take(i + 1).drop_last() =~= s.take(i as int));
                assert(s.take(i + 1).last() == s[i as int]);
                assert(hit == is_settled(s[i as int].state));
                if hit {
                    assert(found@.map_values(|c: EscrowContract| c@) =~= fv + seq![s[i as int]]);
                } else {
                    assert(found@.map_values(|c: EscrowContract| c@) =~= fv);
                    assert(fv + Seq::<EscrowContractView>::empty() =~= fv);
                }
            }
            i += 1;
        }
        proof {
            assert(self@.contracts.take(self@.contracts.len() as int) =~= self@.contracts);
        }
        found
    }

    /// Per-state counts and the locked total. An amount counts as locked in
    /// `Funded`, `InProgress`, `Completed`, and `Disputed`; `Created` and
    /// `Refunded` are excluded by design.
    pub fn get_stats(&self) -> (r: EscrowStats)
        ensures
            r.total_contracts == self@.contracts.len(),
            r.created == count_in_state(self@.contracts, EscrowState::Created),
            r.funded == count_in_state(self@.contracts, EscrowState::Funded),
            r.in_progress == count_in_state(self@.contracts, EscrowState::InProgress),
            r.completed == count_in_state(self@.contracts, EscrowState::Completed),
            r.disputed == count_in_state(self@.contracts, EscrowState::Disputed),
            r.refunded == count_in_state(self@.contracts, EscrowState::Refunded),
            r.total_amount == locked_amount(self@.contracts),
    {
        let mut created: usize = 0;
        let mut funded: usize = 0;
        let mut in_progress: usize = 0;
        let mut completed: usize = 0;
        let mut disputed: usize = 0;
        let mut refunded: usize = 0;
        let mut total_amount: u128 = 0;
        let mut i: usize = 0;
        proof {
            assert(self@.contracts.take(0) =~= Seq::<EscrowContractView>::empty());
        }
        while i < self.contracts.len()
            invariant
                i <= self@.contracts.len(),
                created == count_in_state(self@.contracts.take(i as int), EscrowState::Created),
                funded == count_in_state(self@.contracts.take(i as int), EscrowState::Funded),
                in_progress == count_in_state(
                    self@.contracts.take(i as int),
                    EscrowState::InProgress,
                ),
                completed == count_in_state(self@.contracts.take(i as int), EscrowState::Completed),
                disputed == count_in_state(self@.contracts.take(i as int), EscrowState::Disputed),
                refunded == count_in_state(self@.contracts.take(i as int), EscrowState::Refunded),
                total_amount == locked_amount(self@.contracts.take(i as int)),
                created <= i && funded <= i && in_progress <= i && completed <= i && disputed <= i
                    && refunded <= i,
                total_amount <= i * (u64::MAX as int),
            decreases self@.contracts.len() - i,
        {
            let c = &self.contracts[i];
            proof {
                let s = self@.contracts;
                assert(s.take(i + 1).drop_last() =~= s.take(i as int));
                assert(s.take(i + 1).last() == s[i as int]);
            }
            match c.state {
                EscrowState::Created => {
                    created += 1;
                },
                EscrowState::Funded => {
                    funded += 1;
                    total_amount += c.amount as u128;
                },
                EscrowState::InProgress => {
                    in_progress += 1;
                    total_amount += c.amount as u128;
                },
                EscrowState::Completed => {
                    completed += 1;
                    total_amount += c.amount as u128;
                },
                EscrowState::Disputed => {
                    disputed += 1;
                    total_amount += c.amount as u128;
                },
                EscrowState::Refunded => {
                    refunded += 1;
                },
            }
            i += 1;
        }
        proof {
            assert(self@.contracts.take(self@.contracts.len() as int) =~= self@.contracts);
        }
        EscrowStats {
            total_contracts: self.contracts.len(),
            created,
            funded,
            in_progress,
            completed,
            disputed,
            refunded,
            total_amount,
        }
    }
}

/// Whether a string list holds the given characters.
pub fn contains_string(v: &Vec<String>, s: &str) -> (r: bool)
    ensures
        r == v.deep_view().contains(s@),
{
    let mut i: usize = 0;
    while i < v.len()
        invariant
            i <= v@.len(),
            forall|j: int| 0 <= j < i ==> v.deep_view()[j] != s@,
        decreases v@.len() - i,
    {
        if str_eq(v[i].as_str(), s) {
            proof {
                assert(v.deep_view()[i as int] == s@);
            }
            return true;
        }
        i += 1;
    }
    proof {
        assert(!v.deep_view().contains(s@));
    }
    false
}

} // verus!
