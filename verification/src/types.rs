//! Core data model: identifiers, service records, attestations, escrow
//! contracts, tasks, and the message vocabulary shared by the subsystems.
//!
//! Reputation scores are fixed-point values in millionths (`SCORE_SCALE`
//! units equal a score of 1.0), so that score arithmetic is exact.

use vstd::prelude::*;

verus! {

/// One whole unit of reputation score, in fixed-point millionths.
pub const SCORE_SCALE: u64 = 1_000_000;

/// Largest admissible attestation score (100 whole units, in millionths).
/// Bounding scores keeps every weighted-score accumulation inside `u128`.
pub const MAX_SCORE: u64 = 100_000_000;

/// The recoverable errors of the coordination core. No operation here is
/// fatal to the host process; the caller decides whether to retry, ignore,
/// or propagate.
#[derive(Debug, Clone, Copy, PartialEq, Eq, Structural)]
pub enum CoreError {
    EscrowNotFound,
    InsufficientBalance,
    SignerNotParticipant,
    TransactionNotFound,
    InvalidSignature,
    InvalidKeyLength,
    InvalidBackup,
}

impl CoreError {
    /// A short description of the error.
    pub fn message(&self) -> (r: &'static str)
        ensures
            r@ == self.spec_message(),
    {
        match self {
            CoreError::EscrowNotFound => "escrow contract not found",
            CoreError::InsufficientBalance => "insufficient balance",
            CoreError::SignerNotParticipant => "signer is not a participant",
            CoreError::TransactionNotFound => "transaction not found",
            CoreError::InvalidSignature => "invalid signature",
            CoreError::InvalidKeyLength => "invalid key length",
            CoreError::InvalidBackup => "backup data does not parse",
        }
    }

    /// The description each error carries.
    pub open spec fn spec_message(&self) -> Seq<char> {
        match self {
            CoreError::EscrowNotFound => "escrow contract not found"@,
            CoreError::InsufficientBalance => "insufficient balance"@,
            CoreError::SignerNotParticipant => "signer is not a participant"@,
            CoreError::TransactionNotFound => "transaction not found"@,
            CoreError::InvalidSignature => "invalid signature"@,
            CoreError::InvalidKeyLength => "invalid key length"@,
            CoreError::InvalidBackup => "backup data does not parse"@,
        }
    }
}

// ---------------------------------------------------------------------------
// Identifiers
// ---------------------------------------------------------------------------

/// Identifier of a node in the marketplace.
#[derive(Debug)]
pub struct NodeId(pub String);

/// Identifier of an advertised service.
#[derive(Debug)]
pub struct ServiceId(pub String);

/// Identifier of a unit of work.
#[derive(Debug)]
pub struct TaskId(pub String);

impl View for NodeId {
    type V = Seq<char>;

    open spec fn view(&self) -> Seq<char> {
        self.0@
    }
}

impl View for ServiceId {
    type V = Seq<char>;

    open spec fn view(&self) -> Seq<char> {
        self.0@
    }
}

impl View for TaskId {
    type V = Seq<char>;

    open spec fn view(&self) -> Seq<char> {
        self.0@
    }
}

impl Clone for NodeId {
    fn clone(&self) -> (r: Self)
        ensures
            r@ == self@,
    {
        NodeId(self.0.clone())
    }
}

impl Clone for ServiceId {
    fn clone(&self) -> (r: Self)
        ensures
            r@ == self@,
    {
        ServiceId(self.0.clone())
    }
}

impl Clone for TaskId {
    fn clone(&self) -> (r: Self)
        ensures
            r@ == self@,
    {
        TaskId(self.0.clone())
    }
}

// ---------------------------------------------------------------------------
// Cloning helpers with exact contracts
// ---------------------------------------------------------------------------

/// Copies a byte vector; the copy holds the same bytes.
pub fn clone_bytes(v: &Vec<u8>) -> (r: Vec<u8>)
    ensures
        r@ == v@,
{
    let mut r: Vec<u8> = Vec::new();
    let mut i: usize = 0;
    while i < v.len()
        invariant
            i <= v@.len(),
            r@ == v@.take(i as int),
        decreases v@.len() - i,
    {
        r.push(v[i]);
        i += 1;
        proof {
            assert(r@ =~= v@.take(i as int));
        }
    }
    proof {
        assert(r@ =~= v@);
    }
    r
}

/// Copies a vector of strings; the copy holds the same character sequences.
pub fn clone_strings(v: &Vec<String>) -> (r: Vec<String>)
    ensures
        r.deep_view() == v.deep_view(),
        r@.len() == v@.len(),
{
    let mut r: Vec<String> = Vec::new();
    let mut i: usize = 0;
    while i < v.len()
        invariant
            i <= v@.len(),
            r@.len() == i,
            forall|j: int| 0 <= j < i ==> r@[j]@ == v@[j]@,
        decreases v@.len() - i,
    {
        r.push(v[i].clone());
        i += 1;
    }
    proof {
        assert(r.deep_view() =~= v.deep_view());
    }
    r
}

// ---------------------------------------------------------------------------
// Decentralized identity record
// ---------------------------------------------------------------------------

/// A decentralized identity: the identifier string, the public key it is
/// derived from, the endpoints it can be reached at, and its creation time.
#[derive(Debug)]
pub struct DID {
    pub id: String,
    pub public_key: Vec<u8>,
    pub endpoints: Vec<String>,
    pub created_at: u64,
}

/// Mathematical image of a [`DID`].
pub struct DIDView {
    pub id: Seq<char>,
    pub public_key: Seq<u8>,
    pub endpoints: Seq<Seq<char>>,
    pub created_at: u64,
}

impl View for DID {
    type V = DIDView;

    open spec fn view(&self) -> DIDView {
        DIDView {
            id: self.id@,
            public_key: self.public_key@,
            endpoints: self.endpoints.deep_view(),
            created_at: self.created_at,
        }
    }
}

impl Clone for DID {
    fn clone(&self) -> (r: Self)
        ensures
            r@ == self@,
    {
        DID {
            id: self.id.clone(),
            public_key: clone_bytes(&self.public_key),
            endpoints: clone_strings(&self.endpoints),
            created_at: self.created_at,
        }
    }
}

// ---------------------------------------------------------------------------
// Service records
// ---------------------------------------------------------------------------

/// An advertised service, as stored in the content registry. The reputation
/// score is a point-in-time snapshot taken at registration; later reputation
/// changes do not propagate into stored records.
#[derive(Debug)]
pub struct ServiceMetadata {
    pub id: ServiceId,
    pub provider_did: String,
    pub name: String,
    pub description: String,
    pub endpoint: String,
    pub price: u64,
    pub reputation_score: u64,
    pub last_updated: u64,
}

/// Mathematical image of a [`ServiceMetadata`].
pub struct ServiceMetadataView {
    pub id: Seq<char>,
    pub provider_did: Seq<char>,
    pub name: Seq<char>,
    pub description: Seq<char>,
    pub endpoint: Seq<char>,
    pub price: u64,
    pub reputation_score: u64,
    pub last_updated: u64,
}

impl View for ServiceMetadata {
    type V = ServiceMetadataView;

    open spec fn view(&self) -> ServiceMetadataView {
        ServiceMetadataView {
            id: self.id@,
            provider_did: self.provider_did@,
            name: self.name@,
            description: self.description@,
            endpoint: self.endpoint@,
            price: self.price,
            reputation_score: self.reputation_score,
            last_updated: self.last_updated,
        }
    }
}

impl Clone for ServiceMetadata {
    fn clone(&self) -> (r: Self)
        ensures
            r@ == self@,
    {
        ServiceMetadata {
            id: self.id.clone(),
            provider_did: self.provider_did.clone(),
            name: self.name.clone(),
            description: self.description.clone(),
            endpoint: self.endpoint.clone(),
            price: self.price,
            reputation_score: self.reputation_score,
            last_updated: self.last_updated,
        }
    }
}

// ---------------------------------------------------------------------------
// Reputation attestations
// ---------------------------------------------------------------------------

/// A signed claim by one identity about another's trustworthiness.
/// Immutable once created. The score is in millionths (`SCORE_SCALE`).
#[derive(Debug)]
pub struct ReputationAttestation {
    pub attester_did: String,
    pub target_did: String,
    pub score: u64,
    pub interaction_type: String,
    pub timestamp: u64,
    pub signature: Vec<u8>,
}

/// Mathematical image of a [`ReputationAttestation`].
pub struct AttestationView {
    pub attester_did: Seq<char>,
    pub target_did: Seq<char>,
    pub score: u64,
    pub interaction_type: Seq<char>,
    pub timestamp: u64,
    pub signature: Seq<u8>,
}

impl View for ReputationAttestation {
    type V = AttestationView;

    open spec fn view(&self) -> AttestationView {
        AttestationView {
            attester_did: self.attester_did@,
            target_did: self.target_did@,
            score: self.score,
            interaction_type: self.interaction_type@,
            timestamp: self.timestamp,
            signature: self.signature@,
        }
    }
}

impl Clone for ReputationAttestation {
    fn clone(&self) -> (r: Self)
        ensures
            r@ == self@,
    {
        ReputationAttestation {
            attester_did: self.attester_did.clone(),
            target_did: self.target_did.clone(),
            score: self.score,
            interaction_type: self.interaction_type.clone(),
            timestamp: self.timestamp,
            signature: clone_bytes(&self.signature),
        }
    }
}

// ---------------------------------------------------------------------------
// Escrow contracts
// ---------------------------------------------------------------------------

/// The states of an escrow contract. `Created` is initial; `Completed` and
/// `Refunded` are terminal. `Disputed` and `Refunded` are reached only via
/// out-of-band state updates.
#[derive(Debug, Clone, Copy, PartialEq, Eq, Structural)]
pub enum EscrowState {
    Created,
    Funded,
    InProgress,
    Completed,
    Disputed,
    Refunded,
}

/// A multi-party escrow contract. Signatures are keyed by signer identity;
/// re-signing overwrites rather than double-counting. Whether a signer is an
/// authorized party is the caller's responsibility; this type does not check.
#[derive(Debug)]
pub struct EscrowContract {
    pub id: String,
    pub buyer_did: String,
    pub seller_did: String,
    pub arbiters: Vec<String>,
    pub amount: u64,
    pub state: EscrowState,
    pub multisig_address: String,
    pub signatures: Vec<(String, Vec<u8>)>,
    pub created_at: u64,
}

/// Mathematical image of an [`EscrowContract`].
pub struct EscrowContractView {
    pub id: Seq<char>,
    pub buyer_did: Seq<char>,
    pub seller_did: Seq<char>,
    pub arbiters: Seq<Seq<char>>,
    pub amount: u64,
    pub state: EscrowState,
    pub multisig_address: Seq<char>,
    pub signatures: Seq<(Seq<char>, Seq<u8>)>,
    pub created_at: u64,
}

/// Views of a signer/signature pair list.
pub open spec fn signatures_view(s: Seq<(String, Vec<u8>)>) -> Seq<(Seq<char>, Seq<u8>)> {
    s.map_values(|p: (String, Vec<u8>)| (p.0@, p.1@))
}

impl View for EscrowContract {
    type V = EscrowContractView;

    open spec fn view(&self) -> EscrowContractView {
        EscrowContractView {
            id: self.id@,
            buyer_did: self.buyer_did@,
            seller_did: self.seller_did@,
            arbiters: self.arbiters.deep_view(),
            amount: self.amount,
            state: self.state,
            multisig_address: self.multisig_address@,
            signatures: signatures_view(self.signatures@),
            created_at: self.created_at,
        }
    }
}

/// Copies a signer/signature pair list; the copy views the same.
pub fn clone_signatures(v: &Vec<(String, Vec<u8>)>) -> (r: Vec<(String, Vec<u8>)>)
    ensures
        signatures_view(r@) == signatures_view(v@),
        r@.len() == v@.len(),
{
    let mut r: Vec<(String, Vec<u8>)> = Vec::new();
    let mut i: usize = 0;
    while i < v.len()
        invariant
            i <= v@.len(),
            r@.len() == i,
            forall|j: int| 0 <= j < i ==> r@[j].0@ == v@[j].0@ && r@[j].1@ == v@[j].1@,
        decreases v@.len() - i,
    {
        let name = v[i].0.clone();
        let sig = clone_bytes(&v[i].1);
        r.push((name, sig));
        i += 1;
    }
    proof {
        assert(signatures_view(r@) =~= signatures_view(v@));
    }
    r
}

impl Clone for EscrowContract {
    fn clone(&self) -> (r: Self)
        ensures
            r@ == self@,
    {
        EscrowContract {
            id: self.id.clone(),
            buyer_did: self.buyer_did.clone(),
            seller_did: self.seller_did.clone(),
            arbiters: clone_strings(&self.arbiters),
            amount: self.amount,
            state: self.state,
            multisig_address: self.multisig_address.clone(),
            signatures: clone_signatures(&self.signatures),
            created_at: self.created_at,
        }
    }
}

// ---------------------------------------------------------------------------
// Tasks
// ---------------------------------------------------------------------------

/// Resource requirements of a task. `timeout_seconds` is inert data: it is
/// stored but never compared against elapsed time.
#[derive(Debug, Clone, Copy, PartialEq, Eq, Structural)]
pub struct TaskRequirements {
    pub cpu_cores: u32,
    pub memory_mb: u32,
    pub timeout_seconds: u32,
}

/// A unit of work submitted to the task engine.
#[derive(Debug)]
pub struct Task {
    pub id: TaskId,
    pub escrow_id: String,
    pub service_id: ServiceId,
    pub payload: Vec<u8>,
    pub requirements: TaskRequirements,
    pub created_at: u64,
}

/// Mathematical image of a [`Task`].
pub struct TaskView {
    pub id: Seq<char>,
    pub escrow_id: Seq<char>,
    pub service_id: Seq<char>,
    pub payload: Seq<u8>,
    pub requirements: TaskRequirements,
    pub created_at: u64,
}

impl View for Task {
    type V = TaskView;

    open spec fn view(&self) -> TaskView {
        TaskView {
            id: self.id@,
            escrow_id: self.escrow_id@,
            service_id: self.service_id@,
            payload: self.payload@,
            requirements: self.requirements,
            created_at: self.created_at,
        }
    }
}

impl Clone for Task {
    fn clone(&self) -> (r: Self)
        ensures
            r@ == self@,
    {
        Task {
            id: self.id.clone(),
            escrow_id: self.escrow_id.clone(),
            service_id: self.service_id.clone(),
            payload: clone_bytes(&self.payload),
            requirements: self.requirements,
            created_at: self.created_at,
        }
    }
}

/// The outcome of processing a task. The proof is a content-binding hash
/// over payload and result bytes, not a correctness proof.
#[derive(Debug)]
pub struct TaskResult {
    pub task_id: TaskId,
    pub processor_did: String,
    pub result: Vec<u8>,
    pub proof_bytes: Vec<u8>,
    pub completed_at: u64,
}

/// Mathematical image of a [`TaskResult`].
pub struct TaskResultView {
    pub task_id: Seq<char>,
    pub processor_did: Seq<char>,
    pub result: Seq<u8>,
    pub proof_bytes: Seq<u8>,
    pub completed_at: u64,
}

impl View for TaskResult {
    type V = TaskResultView;

    open spec fn view(&self) -> TaskResultView {
        TaskResultView {
            task_id: self.task_id@,
            processor_did: self.processor_did@,
            result: self.result@,
            proof_bytes: self.proof_bytes@,
            completed_at: self.completed_at,
        }
    }
}

impl Clone for TaskResult {
    fn clone(&self) -> (r: Self)
        ensures
            r@ == self@,
    {
        TaskResult {
            task_id: self.task_id.clone(),
            processor_did: self.processor_did.clone(),
            result: clone_bytes(&self.result),
            proof_bytes: clone_bytes(&self.proof_bytes),
            completed_at: self.completed_at,
        }
    }
}

/// Where a task stands in its lifecycle. There is no failed or timed-out
/// state in this design.
#[derive(Debug, Clone, Copy, PartialEq, Eq, Structural)]
pub enum TaskStatus {
    Pending,
    Processing,
    Completed,
    NotFound,
}

// ---------------------------------------------------------------------------
// Network messages
// ---------------------------------------------------------------------------

/// The tagged union of messages exchanged with peers. The orchestrator
/// routes each incoming kind to the matching subsystem call. The reputation
/// response carries a fixed-point score in millionths.
#[derive(Debug)]
pub enum NetworkMessage {
    ServiceAnnouncement(ServiceMetadata),
    ServiceQuery(String),
    ServiceResponse(Vec<ServiceMetadata>),
    TaskSubmission(Task),
    TaskAcceptance(TaskId, String),
    TaskCompletion(TaskResult),
    EscrowCreation(EscrowContract),
    EscrowSignature(String, String, Vec<u8>),
    EscrowStateUpdate(String, EscrowState),
    ReputationAttestation(ReputationAttestation),
    ReputationQuery(String),
    ReputationResponse(String, u64),
    Ping,
    Pong,
}

// ---------------------------------------------------------------------------
// API boundary records
// ---------------------------------------------------------------------------

/// Request to advertise a service.
#[derive(Debug)]
pub struct RegisterServiceRequest {
    pub name: String,
    pub description: String,
    pub price: u64,
}

/// Outcome of a service registration.
#[derive(Debug)]
pub struct RegisterServiceResponse {
    pub service_id: String,
    pub success: bool,
    pub message: String,
}

/// Request to search advertised services.
#[derive(Debug)]
pub struct FindServicesRequest {
    pub query: String,
}

/// Outcome of a service search.
#[derive(Debug)]
pub struct FindServicesResponse {
    pub services: Vec<ServiceMetadata>,
    pub success: bool,
    pub message: String,
}

/// Request to submit a unit of work.
#[derive(Debug)]
pub struct SubmitTaskRequest {
    pub service_id: String,
    pub payload: String,
    pub cpu_cores: u32,
    pub memory_mb: u32,
    pub timeout_seconds: u32,
}

/// Outcome of a task submission.
#[derive(Debug)]
pub struct SubmitTaskResponse {
    pub task_id: String,
    pub success: bool,
    pub message: String,
}

/// Request to open an escrow contract for a service.
#[derive(Debug)]
pub struct CreateEscrowRequest {
    pub service_id: String,
    pub seller_did: String,
    pub amount: u64,
}

/// Outcome of an escrow creation.
#[derive(Debug)]
pub struct CreateEscrowResponse {
    pub escrow_id: String,
    pub success: bool,
    pub message: String,
}

/// Aggregate status of a node, surfaced to the API boundary.
/// The reputation score is in millionths (`SCORE_SCALE`).
#[derive(Debug)]
pub struct NodeStatus {
    pub node_id: String,
    pub did: String,
    pub is_online: bool,
    pub uptime_seconds: u64,
    pub services_count: usize,
    pub reputation_score: u64,
    pub peers_count: usize,
}

} // verus!
