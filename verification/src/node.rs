//! The node orchestrator: one instance of each subsystem and the identity
//! capability, composed into a single node's lifecycle.
//!
//! The orchestrator is the only component that sequences calls across
//! subsystems. Mirroring an escrow contract into the content registry and
//! recording it in the coordinator are two independent writes with no
//! atomicity between them: a reader between the two can observe a contract
//! known to one store and not the other, an eventual-consistency gap this
//! design preserves. Network polling and the fixed-interval sleep live
//! outside this type; the host drives `poll_once` and checks the running
//! flag once per period.

use vstd::prelude::*;
use vstd::string::StringExecFns;

use crate::types::{
    NodeId, ServiceId, TaskId, Task, TaskRequirements, ServiceMetadata, ReputationAttestation,
    NetworkMessage, MAX_SCORE,
};
use crate::identity::DIDManager;
use crate::registry::{DHT, service_key, entry_of, has_key, found_services};
use crate::reputation::{ReputationSystem, score_of, atts_of, spec_score, has_score, has_target};
use crate::escrow::{EscrowManager, has_contract, contract_of};
use crate::tasks::{TaskEngine, has_pending, pending_of};
use crate::codec::enc_service;
use crate::crypto::new_uuid_string;
use crate::text::u64_to_string;

verus! {

/// The two fixed default arbiter identities every escrow is created with;
/// there is no arbiter-selection policy in this design.
pub open spec fn default_arbiters() -> Seq<Seq<char>> {
    seq!["did:duxnet:arbiter1"@, "did:duxnet:arbiter2"@]
}

/// One marketplace node: its identity, its four subsystems, and the running
/// flag its polling loop checks.
pub struct DuxNetNode {
    pub node_id: NodeId,
    pub did_manager: DIDManager,
    pub dht: DHT,
    pub reputation_system: ReputationSystem,
    pub escrow_manager: EscrowManager,
    pub task_engine: TaskEngine,
    pub is_running: bool,
}

impl DuxNetNode {
    /// Internal consistency of every subsystem, and at least one endpoint
    /// to advertise services at.
    pub open spec fn wf(&self) -> bool {
        &&& self.did_manager.wf()
        &&& self.dht.wf()
        &&& self.reputation_system.wf()
        &&& self.escrow_manager.wf()
        &&& self.task_engine.wf()
        &&& self.did_manager.did@.endpoints.len() > 0
    }

    /// A fresh node listening on a local port: a new identity, empty
    /// subsystems, and the running flag cleared.
    pub fn new(port: u16, now: u64) -> (r: Self)
        ensures
            r.wf(),
            !r.is_running,
            r.dht@.entries.len() == 0,
            r.dht@.peers.len() == 0,
            r.reputation_system@.attestations.len() == 0,
            r.reputation_system@.scores.len() == 0,
            r.escrow_manager@.contracts.len() == 0,
            r.task_engine@.pending.len() == 0,
            r.task_engine@.processing.len() == 0,
            r.task_engine@.completed.len() == 0,
    {
        let node_id = NodeId(new_uuid_string());
        let endpoint = String::from_str("tcp://127.0.0.1:").concat(
            u64_to_string(port as u64).as_str(),
        );
        let mut endpoints: Vec<String> = Vec::new();
        endpoints.push(endpoint);
        let did_manager = DIDManager::new(endpoints, now);
        let dht = DHT::new(node_id.clone());
        DuxNetNode {
            node_id,
            did_manager,
            dht,
            reputation_system: ReputationSystem::new(),
            escrow_manager: EscrowManager::new(),
            task_engine: TaskEngine::new(),
            is_running: false,
        }
    }

    /// Raises the running flag; the host's loop then drives `poll_once`
    /// until `stop` clears it.
    pub fn start(&mut self)
        ensures
            *final(self) == (DuxNetNode { is_running: true, ..*old(self) }),
    {
        self.is_running = true;
    }

    /// Clears the running flag; the host's loop exits at its next check.
    pub fn stop(&mut self)
        ensures
            *final(self) == (DuxNetNode { is_running: false, ..*old(self) }),
    {
        self.is_running = false;
    }

    /// One iteration of the node's periodic work: while running, every
    /// pending task is driven to completion by the local executor. The host
    /// polls the network and sleeps between calls.
    pub fn poll_once(&mut self, now: u64)
        requires
            old(self).wf(),
        ensures
            final(self).wf(),
            !old(self).is_running ==> *final(self) == *old(self),
            old(self).is_running ==> final(self).task_engine@.pending.len() == 0,
            final(self).is_running == old(self).is_running,
            final(self).dht == old(self).dht,
            final(self).escrow_manager == old(self).escrow_manager,
            final(self).reputation_system == old(self).reputation_system,
    {
        if self.is_running {
            self.task_engine.process_pending_tasks(now);
        }
    }

    /// Advertises a service under a fresh identifier: the stored record
    /// snapshots this node's identity, first endpoint, and its reputation
    /// as of now — later reputation changes do not propagate into it.
    pub fn register_service(&mut self, name: String, description: String, price: u64, now: u64)
        -> (r: ServiceId)
        requires
            old(self).wf(),
        ensures
            final(self).wf(),
            r@.len() == 36,
            has_key(final(self).dht@.entries, service_key(r@)),
            ({
                let e = entry_of(final(self).dht@.entries, service_key(r@));
                &&& e.timestamp == now
                &&& e.ttl == crate::registry::SERVICE_TTL
                &&& exists|s: crate::types::ServiceMetadataView|
                    {
                        &&& e.value == #[trigger] enc_service(s)
                        &&& s.id == r@
                        &&& s.provider_did == old(self).did_manager.did@.id
                        &&& s.name == name@
                        &&& s.description == description@
                        &&& s.endpoint == old(self).did_manager.did@.endpoints[0]
                        &&& s.price == price
                        &&& s.reputation_score == score_of(
                            old(self).reputation_system@.scores,
                            old(self).did_manager.did@.id,
                        )
                        &&& s.last_updated == now
                    }
            }),
            forall|k: Seq<char>|
                has_key(final(self).dht@.entries, k) <==> has_key(old(self).dht@.entries, k) || k
                    == service_key(r@),
            forall|k: Seq<char>|
                k != service_key(r@) && has_key(old(self).dht@.entries, k) ==> #[trigger] entry_of(
                    final(self).dht@.entries,
                    k,
                ) == entry_of(old(self).dht@.entries, k),
            final(self).task_engine == old(self).task_engine,
            final(self).escrow_manager == old(self).escrow_manager,
            final(self).reputation_system == old(self).reputation_system,
    {
        let service_id = ServiceId(new_uuid_string());
        let reputation_score = self.reputation_system.get_reputation(
            self.did_manager.did.id.as_str(),
        );
        let service = ServiceMetadata {
            id: service_id.clone(),
            provider_did: self.did_manager.did.id.clone(),
            name,
            description,
            endpoint: self.did_manager.did.endpoints[0].clone(),
            price,
            reputation_score,
            last_updated: now,
        };
        self.dht.announce_service(&service, now);
        service_id
    }

    /// Finds the advertised services whose name or description contains the
    /// query, ignoring ASCII case.
    pub fn find_services(&self, query: &str) -> (r: Vec<ServiceMetadata>)
        ensures
            r@.map_values(|s: ServiceMetadata| s@) == found_services(self.dht@.entries, query@),
    {
        self.dht.find_services(query)
    }

    /// Opens an escrow contract for a service: this node buys, the given
    /// seller sells, and the two fixed default arbiters stand by.
    pub fn create_escrow_for_service(
        &mut self,
        service_id: &ServiceId,
        seller_did: String,
        amount: u64,
        now: u64,
    ) -> (r: String)
        requires
            old(self).wf(),
        ensures
            final(self).wf(),
            r@.len() == 36,
            has_contract(final(self).escrow_manager@.contracts, r@),
            ({
                let c = contract_of(final(self).escrow_manager@.contracts, r@);
                &&& c.buyer_did == old(self).did_manager.did@.id
                &&& c.seller_did == seller_did@
                &&& c.arbiters == default_arbiters()
                &&& c.amount == amount
                &&& c.state == crate::types::EscrowState::Created
                &&& c.signatures.len() == 0
                &&& c.created_at == now
            }),
            forall|k: Seq<char>|
                k != r@ && has_contract(old(self).escrow_manager@.contracts, k)
                    ==> #[trigger] contract_of(final(self).escrow_manager@.contracts, k)
                    == contract_of(old(self).escrow_manager@.contracts, k),
            final(self).dht == old(self).dht,
            final(self).task_engine == old(self).task_engine,
            final(self).reputation_system == old(self).reputation_system,
    {
        let mut arbiters: Vec<String> = Vec::new();
        arbiters.push(String::from_str("did:duxnet:arbiter1"));
        arbiters.push(String::from_str("did:duxnet:arbiter2"));
        proof {
            assert(arbiters.deep_view() =~= default_arbiters());
        }
        let buyer = self.did_manager.did.id.clone();
        self.escrow_manager.create_escrow(buyer, seller_did, arbiters, amount, now)
    }

    /// Submits a unit of work for a service under a fresh task identifier;
    /// the escrow linkage starts empty.
    pub fn submit_task(
        &mut self,
        service_id: ServiceId,
        payload: Vec<u8>,
        requirements: TaskRequirements,
        now: u64,
    ) -> (r: TaskId)
        requires
            old(self).wf(),
        ensures
            final(self).wf(),
            r@.len() == 36,
            has_pending(final(self).task_engine@.pending, r@),
            ({
                let t = pending_of(final(self).task_engine@.pending, r@);
                &&& t.id == r@
                &&& t.escrow_id.len() == 0
                &&& t.service_id == service_id@
                &&& t.payload == payload@
                &&& t.requirements == requirements
                &&& t.created_at == now
            }),
            forall|k: Seq<char>|
                k != r@ && has_pending(old(self).task_engine@.pending, k) ==> #[trigger] pending_of(
                    final(self).task_engine@.pending,
                    k,
                ) == pending_of(old(self).task_engine@.pending, k),
            final(self).dht == old(self).dht,
            final(self).escrow_manager == old(self).escrow_manager,
            final(self).reputation_system == old(self).reputation_system,
    {
        let task_id = TaskId(new_uuid_string());
        let task = Task {
            id: task_id.clone(),
            escrow_id: String::new(),
            service_id,
            payload,
            requirements,
            created_at: now,
        };
        self.task_engine.submit_task(task);
        task_id
    }

    /// Routes one inbound message to the matching subsystem call and says
    /// what, if anything, goes back out. Queries and pings get replies;
    /// everything else is absorbed into subsystem state. An attestation
    /// with an inadmissible score is dropped. An inbound escrow contract is
    /// mirrored into the content registry only; the coordinator's own map
    /// stays authoritative for contracts opened here — the two stores are
    /// deliberately not kept atomic.
    pub fn handle_message(&mut self, msg: NetworkMessage, now: u64) -> (r: Option<NetworkMessage>)
        requires
            old(self).wf(),
        ensures
            final(self).wf(),
            final(self).is_running == old(self).is_running,
            msg is Ping ==> (r matches Some(out) && out is Pong),
            msg is Pong ==> (r is None && *final(self) == *old(self)),
            (msg matches NetworkMessage::ServiceQuery(q) ==> (r matches Some(
                NetworkMessage::ServiceResponse(list),
            ) && list@.map_values(|s: ServiceMetadata| s@) == found_services(
                old(self).dht@.entries,
                q@,
            ) && *final(self) == *old(self))),
            (msg matches NetworkMessage::ReputationQuery(target) ==> (r matches Some(
                NetworkMessage::ReputationResponse(t2, score),
            ) && t2@ == target@ && score == score_of(old(self).reputation_system@.scores, target@)
                && *final(self) == *old(self))),
            (msg matches NetworkMessage::TaskSubmission(t) ==> (r is None && has_pending(
                final(self).task_engine@.pending,
                t@.id,
            ) && pending_of(final(self).task_engine@.pending, t@.id) == t@)),
            (msg matches NetworkMessage::TaskCompletion(result) ==> (r is None
                && crate::tasks::has_completed(final(self).task_engine@.completed, result@.task_id)
                && crate::tasks::completed_of(
                final(self).task_engine@.completed,
                result@.task_id,
            ) == result@)),
            (msg matches NetworkMessage::ReputationAttestation(a) ==> (r is None && (a.score
                <= MAX_SCORE ==> score_of(
                final(self).reputation_system@.scores,
                a@.target_did,
            ) == spec_score(
                atts_of(final(self).reputation_system@.attestations, a@.target_did),
                now,
            )) && (a.score > MAX_SCORE ==> *final(self) == *old(self)))),
            (msg matches NetworkMessage::ServiceAnnouncement(s) ==> (r is None && has_key(
                final(self).dht@.entries,
                service_key(s@.id),
            ))),
            (msg matches NetworkMessage::EscrowCreation(c) ==> (r is None && has_key(
                final(self).dht@.entries,
                crate::registry::escrow_key(c@.id),
            ))),
            (msg matches NetworkMessage::EscrowStateUpdate(id, st) ==> (r is None && (
            has_contract(old(self).escrow_manager@.contracts, id@) ==> contract_of(
                final(self).escrow_manager@.contracts,
                id@,
            ).state == st))),
    {
        match msg {
            NetworkMessage::ServiceAnnouncement(service) => {
                self.dht.announce_service(&service, now);
                None
            },
            NetworkMessage::ServiceQuery(query) => {
                let services = self.dht.find_services(query.as_str());
                Some(NetworkMessage::ServiceResponse(services))
            },
            NetworkMessage::ServiceResponse(_) => None,
            NetworkMessage::TaskSubmission(task) => {
                self.task_engine.submit_task(task);
                None
            },
            NetworkMessage::TaskAcceptance(task_id, processor_did) => {
                let _accepted = self.task_engine.accept_task(&task_id, processor_did);
                None
            },
            NetworkMessage::TaskCompletion(result) => {
                self.task_engine.complete_task(result);
                None
            },
            NetworkMessage::EscrowCreation(contract) => {
                self.dht.store_escrow_contract(&contract, now);
                None
            },
            NetworkMessage::EscrowSignature(escrow_id, signer_did, signature) => {
                let _outcome = self.escrow_manager.add_signature(
                    escrow_id.as_str(),
                    signer_did.as_str(),
                    signature,
                );
                None
            },
            NetworkMessage::EscrowStateUpdate(escrow_id, new_state) => {
                let _outcome = self.escrow_manager.update_state(escrow_id.as_str(), new_state);
                None
            },
            NetworkMessage::ReputationAttestation(attestation) => {
                if attestation.score <= MAX_SCORE {
                    self.reputation_system.add_attestation(attestation, now);
                }
                None
            },
            NetworkMessage::ReputationQuery(target_did) => {
                let score = self.reputation_system.get_reputation(target_did.as_str());
                Some(NetworkMessage::ReputationResponse(target_did, score))
            },
            NetworkMessage::ReputationResponse(_, _) => None,
            NetworkMessage::Ping => Some(NetworkMessage::Pong),
            NetworkMessage::Pong => None,
        }
    }

    /// An identity's stored reputation score, in millionths; zero for an
    /// unknown identity.
    pub fn get_reputation(&self, did: &str) -> (r: u64)
        requires
            self.wf(),
        ensures
            r == score_of(self.reputation_system@.scores, did@),
    {
        self.reputation_system.get_reputation(did)
    }

    /// Appends an attestation to its target's log and recomputes that
    /// target's score as of now.
    pub fn add_reputation_attestation(&mut self, attestation: ReputationAttestation, now: u64)
        requires
            old(self).wf(),
            attestation.score <= MAX_SCORE,
        ensures
            final(self).wf(),
            has_target(final(self).reputation_system@.attestations, attestation@.target_did),
            atts_of(final(self).reputation_system@.attestations, attestation@.target_did)
                == atts_of(
                old(self).reputation_system@.attestations,
                attestation@.target_did,
            ).push(attestation@),
            has_score(final(self).reputation_system@.scores, attestation@.target_did),
            score_of(final(self).reputation_system@.scores, attestation@.target_did) == spec_score(
                atts_of(final(self).reputation_system@.attestations, attestation@.target_did),
                now,
            ),
            final(self).dht == old(self).dht,
            final(self).escrow_manager == old(self).escrow_manager,
            final(self).task_engine == old(self).task_engine,
    {
        self.reputation_system.add_attestation(attestation, now);
    }
}

} // verus!
