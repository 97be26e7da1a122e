//! The identity capability: an ed25519 keypair behind a decentralized
//! identity record, able to sign messages and verify signatures.
//!
//! Attestations are verified against this manager's own public key; a real
//! deployment would resolve the attester's identity instead, a documented
//! simplification of this design.

use vstd::prelude::*;
use vstd::string::StringExecFns;

use crate::types::{DID, ReputationAttestation, CoreError, clone_bytes};
use crate::crypto::{pk_of, sig_of, sig_checks, derive_public_key, sign_bytes, verify_bytes,
    hex_of, hex_encode, random_seed};
use crate::codec::{enc_str, enc_u64, enc_state, write_str, write_u64, write_state};
use crate::registry::strings_without;
use crate::text::str_eq;
use crate::types::EscrowState;

verus! {

/// The identity string derived from a public key: a fixed prefix and the
/// hex of the key's first sixteen bytes.
pub open spec fn did_id_of(public_key: Seq<u8>) -> Seq<char>
    recommends
        public_key.len() >= 16,
{
    "did:duxnet:"@ + hex_of(public_key.take(16))
}

/// The byte message an attestation signs: the attester, target, score, and
/// interaction type, in the codec's encoding.
pub open spec fn attestation_message(
    attester: Seq<char>,
    target: Seq<char>,
    score: u64,
    interaction_type: Seq<char>,
) -> Seq<u8> {
    enc_str(attester) + enc_str(target) + enc_u64(score) + enc_str(interaction_type)
}

/// The byte message an escrow signature signs: the contract identifier and
/// the state, in the codec's encoding.
pub open spec fn escrow_message(escrow_id: Seq<char>, state: EscrowState) -> Seq<u8> {
    enc_str(escrow_id) + enc_state(state)
}

/// The identity manager: the 32-byte secret seed and the identity record
/// derived from it.
pub struct DIDManager {
    pub secret_key: Vec<u8>,
    pub did: DID,
}

impl DIDManager {
    /// Internal consistency: the key lengths and the derivation of the
    /// public key and identity string from the seed.
    pub open spec fn wf(&self) -> bool {
        &&& self.secret_key@.len() == 32
        &&& self.did@.public_key == pk_of(self.secret_key@)
        &&& self.did@.public_key.len() == 32
        &&& self.did@.id == did_id_of(self.did@.public_key)
    }

    /// A fresh identity from the operating system's entropy source, with
    /// the given endpoints.
    pub fn new(endpoints: Vec<String>, now: u64) -> (r: Self)
        ensures
            r.wf(),
            r.did@.endpoints == endpoints.deep_view(),
            r.did@.created_at == now,
    {
        let secret_key = random_seed();
        let public_key = derive_public_key(secret_key.as_slice());
        let mut prefix: Vec<u8> = Vec::new();
        let mut i: usize = 0;
        while i < 16
            invariant
                public_key@.len() == 32,
                i <= 16,
                prefix@ == public_key@.take(i as int),
            decreases 16 - i,
        {
            prefix.push(public_key[i]);
            i += 1;
            proof {
                assert(prefix@ =~= public_key@.take(i as int));
            }
        }
        let id = String::from_str("did:duxnet:").concat(hex_encode(prefix.as_slice()).as_str());
        DIDManager {
            secret_key,
            did: DID { id, public_key, endpoints, created_at: now },
        }
    }

    /// Rebuilds an identity from an exported 32-byte seed; any other length
    /// is rejected.
    pub fn import_private_key(secret_key_bytes: Vec<u8>, endpoints: Vec<String>, now: u64) -> (r:
        Result<Self, CoreError>)
        ensures
            r is Ok <==> secret_key_bytes@.len() == 32,
            r is Err ==> r == Result::<Self, CoreError>::Err(CoreError::InvalidKeyLength),
            r matches Ok(m) ==> ({
                &&& m.wf()
                &&& m.secret_key@ == secret_key_bytes@
                &&& m.did@.endpoints == endpoints.deep_view()
                &&& m.did@.created_at == now
            }),
    {
        if secret_key_bytes.len() != 32 {
            return Err(CoreError::InvalidKeyLength);
        }
        let public_key = derive_public_key(secret_key_bytes.as_slice());
        let mut prefix: Vec<u8> = Vec::new();
        let mut i: usize = 0;
        while i < 16
            invariant
                public_key@.len() == 32,
                i <= 16,
                prefix@ == public_key@.take(i as int),
            decreases 16 - i,
        {
            prefix.push(public_key[i]);
            i += 1;
            proof {
                assert(prefix@ =~= public_key@.take(i as int));
            }
        }
        let id = String::from_str("did:duxnet:").concat(hex_encode(prefix.as_slice()).as_str());
        Ok(
            DIDManager {
                secret_key: secret_key_bytes,
                did: DID { id, public_key, endpoints, created_at: now },
            },
        )
    }

    /// Signs a message with this identity's key.
    pub fn sign_message(&self, message: &[u8]) -> (r: Vec<u8>)
        requires
            self.wf(),
        ensures
            r@ == sig_of(self.secret_key@, message@),
            r@.len() == 64,
    {
        sign_bytes(self.secret_key.as_slice(), message)
    }

    /// Verifies a signature over a message against this identity's own
    /// public key; signature bytes of the wrong length are rejected.
    pub fn verify_signature(&self, sig_bytes: &[u8], message: &[u8]) -> (r: Result<
        bool,
        CoreError,
    >)
        requires
            self.wf(),
        ensures
            r is Ok <==> sig_bytes@.len() == 64,
            r is Err ==> r == Result::<bool, CoreError>::Err(CoreError::InvalidSignature),
            r matches Ok(b) ==> b == sig_checks(sig_bytes@, message@, self.did@.public_key),
    {
        if sig_bytes.len() != 64 {
            return Err(CoreError::InvalidSignature);
        }
        Ok(verify_bytes(sig_bytes, message, self.did.public_key.as_slice()))
    }

    /// This identity's record.
    pub fn get_did(&self) -> (r: &DID)
        ensures
            r@ == self.did@,
    {
        &self.did
    }

    /// This identity's public key bytes.
    pub fn get_public_key(&self) -> (r: Vec<u8>)
        requires
            self.wf(),
        ensures
            r@ == pk_of(self.secret_key@),
            r@.len() == 32,
    {
        clone_bytes(&self.did.public_key)
    }

    /// Builds and signs an attestation about a target as of `now`. The
    /// signature covers the attester, target, score, and interaction type.
    pub fn create_attestation(
        &self,
        target_did: String,
        score: u64,
        interaction_type: String,
        now: u64,
    ) -> (r: ReputationAttestation)
        requires
            self.wf(),
        ensures
            r@.attester_did == self.did@.id,
            r@.target_did == target_did@,
            r@.score == score,
            r@.interaction_type == interaction_type@,
            r@.timestamp == now,
            r@.signature == sig_of(
                self.secret_key@,
                attestation_message(self.did@.id, target_did@, score, interaction_type@),
            ),
    {
        let mut message: Vec<u8> = Vec::new();
        write_str(&mut message, &self.did.id);
        write_str(&mut message, &target_did);
        write_u64(&mut message, score);
        write_str(&mut message, &interaction_type);
        proof {
            assert(message@ =~= attestation_message(
                self.did@.id,
                target_did@,
                score,
                interaction_type@,
            ));
        }
        let signature = self.sign_message(message.as_slice());
        ReputationAttestation {
            attester_did: self.did.id.clone(),
            target_did,
            score,
            interaction_type,
            timestamp: now,
            signature,
        }
    }

    /// Verifies an attestation's signature against this manager's own
    /// public key — a stand-in for resolving the attester's identity.
    pub fn verify_attestation(&self, attestation: &ReputationAttestation) -> (r: bool)
        requires
            self.wf(),
        ensures
            attestation@.signature.len() == 64 ==> r == sig_checks(
                attestation@.signature,
                attestation_message(
                    attestation@.attester_did,
                    attestation@.target_did,
                    attestation@.score,
                    attestation@.interaction_type,
                ),
                self.did@.public_key,
            ),
            attestation@.signature.len() != 64 ==> r == false,
    {
        let mut message: Vec<u8> = Vec::new();
        write_str(&mut message, &attestation.attester_did);
        write_str(&mut message, &attestation.target_did);
        write_u64(&mut message, attestation.score);
        write_str(&mut message, &attestation.interaction_type);
        proof {
            assert(message@ =~= attestation_message(
                attestation@.attester_did,
                attestation@.target_did,
                attestation@.score,
                attestation@.interaction_type,
            ));
        }
        match self.verify_signature(attestation.signature.as_slice(), message.as_slice()) {
            Ok(b) => b,
            Err(_) => false,
        }
    }

    /// Signs a contract identifier together with a state.
    pub fn sign_escrow_contract(&self, escrow_id: &String, state: EscrowState) -> (r: Vec<u8>)
        requires
            self.wf(),
        ensures
            r@ == sig_of(self.secret_key@, escrow_message(escrow_id@, state)),
            r@.len() == 64,
    {
        let mut message: Vec<u8> = Vec::new();
        write_str(&mut message, escrow_id);
        write_state(&mut message, state);
        proof {
            assert(message@ =~= escrow_message(escrow_id@, state));
        }
        self.sign_message(message.as_slice())
    }

    /// Verifies an escrow signature over a contract identifier and state
    /// against the given public key; wrong-length inputs verify as false.
    pub fn verify_escrow_signature(
        &self,
        escrow_id: &String,
        state: EscrowState,
        signature: &[u8],
        public_key: &[u8],
    ) -> (r: bool)
        ensures
            signature@.len() == 64 && public_key@.len() == 32 ==> r == sig_checks(
                signature@,
                escrow_message(escrow_id@, state),
                public_key@,
            ),
            !(signature@.len() == 64 && public_key@.len() == 32) ==> r == false,
    {
        if signature.len() != 64 || public_key.len() != 32 {
            return false;
        }
        let mut message: Vec<u8> = Vec::new();
        write_str(&mut message, escrow_id);
        write_state(&mut message, state);
        proof {
            assert(message@ =~= escrow_message(escrow_id@, state));
        }
        verify_bytes(signature, message.as_slice(), public_key)
    }

    /// A copy of the 32-byte secret seed.
    pub fn export_private_key(&self) -> (r: Vec<u8>)
        ensures
            r@ == self.secret_key@,
    {
        clone_bytes(&self.secret_key)
    }

    /// Adds an endpoint unless it is already present.
    pub fn add_endpoint(&mut self, endpoint: String)
        ensures
            final(self).secret_key@ == old(self).secret_key@,
            final(self).did@.id == old(self).did@.id,
            final(self).did@.public_key == old(self).did@.public_key,
            final(self).did@.created_at == old(self).did@.created_at,
            old(self).did@.endpoints.contains(endpoint@) ==> final(self).did@.endpoints == old(
                self,
            ).did@.endpoints,
            !old(self).did@.endpoints.contains(endpoint@) ==> final(self).did@.endpoints == old(
                self,
            ).did@.endpoints.push(endpoint@),
    {
        let ghost e0 = self.did@.endpoints;
        let mut i: usize = 0;
        while i < self.did.endpoints.len()
            invariant
                *self == *old(self),
                i <= self.did.endpoints@.len(),
                forall|j: int| 0 <= j < i ==> old(self).did@.endpoints[j] != endpoint@,
            decreases self.did.endpoints@.len() - i,
        {
            if str_eq(self.did.endpoints[i].as_str(), endpoint.as_str()) {
                proof {
                    assert(old(self).did@.endpoints[i as int] == endpoint@);
                    assert(old(self).did@.endpoints.contains(endpoint@));
                }
                return ;
            }
            i += 1;
        }
        proof {
            assert(!e0.contains(endpoint@));
        }
        self.did.endpoints.push(endpoint);
        proof {
            assert(self.did@.endpoints =~= e0.push(endpoint@));
        }
    }

    /// Drops every occurrence of an endpoint.
    pub fn remove_endpoint(&mut self, endpoint: &str)
        ensures
            final(self).secret_key@ == old(self).secret_key@,
            final(self).did@.id == old(self).did@.id,
            final(self).did@.public_key == old(self).did@.public_key,
            final(self).did@.created_at == old(self).did@.created_at,
            final(self).did@.endpoints == strings_without(old(self).did@.endpoints, endpoint@),
    {
        let mut kept: Vec<String> = Vec::new();
        let mut i: usize = 0;
        proof {
            assert(kept.deep_view() =~= strings_without(
                old(self).did@.endpoints.take(0),
                endpoint@,
            ));
        }
        while i < self.did.endpoints.len()
            invariant
                *self == *old(self),
                i <= self.did.endpoints@.len(),
                kept.deep_view() == strings_without(
                    old(self).did@.endpoints.take(i as int),
                    endpoint@,
                ),
            decreases self.did.endpoints@.len() - i,
        {
            let ghost e0 = old(self).did@.endpoints;
            let ghost kv = kept.deep_view();
            if !str_eq(self.did.endpoints[i].as_str(), endpoint) {
                kept.push(self.did.endpoints[i].clone());
            }
            proof {
                assert(e0.take(i + 1).drop_last() =~= e0.take(i as int));
                assert(e0.take(i + 1).last() == e0[i as int]);
                if e0[i as int] != endpoint@ {
                    assert(kept.deep_view() =~= kv + seq![e0[i as int]]);
                } else {
                    assert(kept.deep_view() =~= kv);
                    assert(kv + Seq::<Seq<char>>::empty() =~= kv);
                }
            }
            i += 1;
        }
        proof {
            let e0 = old(self).did@.endpoints;
            assert(e0.take(e0.len() as int) =~= e0);
        }
        self.did.endpoints = kept;
    }

    /// Replaces the endpoint list.
    pub fn update_endpoints(&mut self, endpoints: Vec<String>)
        ensures
            final(self).secret_key@ == old(self).secret_key@,
            final(self).did@.id == old(self).did@.id,
            final(self).did@.public_key == old(self).did@.public_key,
            final(self).did@.created_at == old(self).did@.created_at,
            final(self).did@.endpoints == endpoints.deep_view(),
    {
        self.did.endpoints = endpoints;
    }
}

} // verus!
