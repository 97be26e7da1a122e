//! The peer-network capability, as this design ships it: a mock transport
//! with a fixed topic table and a running flag. Wire-level delivery is an
//! external collaborator and is out of scope here; these calls keep its
//! shape so the orchestrator's loop has something to poll.

use vstd::prelude::*;
use vstd::string::StringExecFns;

use crate::types::{NetworkMessage, clone_strings};
use crate::text::{str_eq, u64_to_string};

verus! {

/// The mock peer network: an identifier, the topics it would subscribe to,
/// a running flag, and the peers it believes connected.
pub struct P2PNetwork {
    pub local_peer_id: String,
    pub topics: Vec<(String, String)>,
    pub is_running: bool,
    pub connected_peers: Vec<String>,
}

/// Counts surfaced to the API boundary.
#[derive(Debug)]
pub struct NetworkStats {
    pub local_peer_id: String,
    pub connected_peers: usize,
    pub subscribed_topics: usize,
}

/// The four fixed topics every node subscribes to.
pub open spec fn default_topics() -> Seq<Seq<char>> {
    seq!["services"@, "tasks"@, "escrow"@, "reputation"@]
}

impl P2PNetwork {
    /// A mock network for a local port, subscribed to the fixed topics and
    /// not yet running.
    pub fn new(port: u16) -> (r: Self)
        ensures
            r.local_peer_id@ == "peer_"@ + crate::text::dec_of(port as nat),
            !r.is_running,
            r.connected_peers@.len() == 0,
            r.topics@.len() == 4,
            forall|i: int| 0 <= i < 4 ==> (#[trigger] r.topics@[i]).0@ == default_topics()[i],
    {
        let local_peer_id = String::from_str("peer_").concat(u64_to_string(port as u64).as_str());
        let mut topics: Vec<(String, String)> = Vec::new();
        topics.push((String::from_str("services"), String::from_str("services")));
        topics.push((String::from_str("tasks"), String::from_str("tasks")));
        topics.push((String::from_str("escrow"), String::from_str("escrow")));
        topics.push((String::from_str("reputation"), String::from_str("reputation")));
        P2PNetwork { local_peer_id, topics, is_running: false, connected_peers: Vec::new() }
    }

    /// Raises the running flag.
    pub fn start(&mut self)
        ensures
            *final(self) == (P2PNetwork { is_running: true, ..*old(self) }),
    {
        self.is_running = true;
    }

    /// Clears the running flag.
    pub fn stop(&mut self)
        ensures
            *final(self) == (P2PNetwork { is_running: false, ..*old(self) }),
    {
        self.is_running = false;
    }

    /// One best-effort poll of the mock transport: no events ever arrive,
    /// so nothing comes back. A real transport would hand events to the
    /// orchestrator's router here.
    pub fn process_events(&self) -> (r: Option<NetworkMessage>)
        ensures
            r is None,
    {
        None
    }

    /// Whether the topic a message would go out on is one this node
    /// subscribes to; delivery itself is the excluded transport's concern.
    pub fn publish_message(&self, topic_name: &str, message: &NetworkMessage) -> (r: bool)
        ensures
            r == exists|i: int|
                0 <= i < self.topics@.len() && (#[trigger] self.topics@[i]).0@ == topic_name@,
    {
        let mut i: usize = 0;
        while i < self.topics.len()
            invariant
                i <= self.topics@.len(),
                forall|j: int| 0 <= j < i ==> (#[trigger] self.topics@[j]).0@ != topic_name@,
            decreases self.topics@.len() - i,
        {
            if str_eq(self.topics[i].0.as_str(), topic_name) {
                return true;
            }
            i += 1;
        }
        false
    }

    /// The peers believed connected.
    pub fn get_peers(&self) -> (r: Vec<String>)
        ensures
            r.deep_view() == self.connected_peers.deep_view(),
    {
        clone_strings(&self.connected_peers)
    }

    /// The identifier and counts of this mock network.
    pub fn get_stats(&self) -> (r: NetworkStats)
        ensures
            r.local_peer_id@ == self.local_peer_id@,
            r.connected_peers == self.connected_peers@.len(),
            r.subscribed_topics == self.topics@.len(),
    {
        NetworkStats {
            local_peer_id: self.local_peer_id.clone(),
            connected_peers: self.connected_peers.len(),
            subscribed_topics: self.topics.len(),
        }
    }
}

} // verus!
