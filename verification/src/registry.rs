//! The content registry: a key/value store with per-entry time-to-live and
//! a bounded first-in-first-out peer cache.
//!
//! An entry is readable exactly while `now < timestamp + ttl`; an expired
//! entry is observably absent even before it is physically removed by
//! `cleanup_expired_entries`. The peer cache holds at most `K_BUCKET_SIZE`
//! distinct peers and evicts the oldest on overflow; this stands in for a
//! distance-routed table, which this design deliberately does not build.

use vstd::prelude::*;
use vstd::pervasive::VecAdditionalExecFns;

use vstd::string::StringExecFns;

use crate::types::{
    NodeId, ServiceMetadata, ServiceMetadataView, ReputationAttestation, AttestationView,
    EscrowContract, clone_bytes, clone_strings,
};
use crate::text::{str_eq, str_starts_with, string_contains_ci, has_prefix, contains_ci, dec_of,
    u64_to_string};
use crate::codec::{
    enc_service, dec_service, encode_service, decode_service, enc_attestation, dec_attestation,
    encode_attestation, decode_attestation, enc_escrow, dec_escrow, encode_escrow, decode_escrow,
};

verus! {

/// Capacity of the bounded peer cache: inserting beyond it evicts the
/// oldest peer.
pub const K_BUCKET_SIZE: usize = 20;

/// One stored record: its key, opaque value bytes, the time it was stored,
/// and its time-to-live in seconds.
#[derive(Debug)]
pub struct DHTEntry {
    pub key: String,
    pub value: Vec<u8>,
    pub timestamp: u64,
    pub ttl: u64,
}

/// Mathematical image of a [`DHTEntry`].
pub struct DHTEntryView {
    pub key: Seq<char>,
    pub value: Seq<u8>,
    pub timestamp: u64,
    pub ttl: u64,
}

impl View for DHTEntry {
    type V = DHTEntryView;

    open spec fn view(&self) -> DHTEntryView {
        DHTEntryView { key: self.key@, value: self.value@, timestamp: self.timestamp, ttl: self.ttl }
    }
}

impl Clone for DHTEntry {
    fn clone(&self) -> (r: Self)
        ensures
            r@ == self@,
    {
        DHTEntry {
            key: self.key.clone(),
            value: clone_bytes(&self.value),
            timestamp: self.timestamp,
            ttl: self.ttl,
        }
    }
}

/// An entry is live while `now` lies strictly before its expiry instant.
pub open spec fn entry_live(e: DHTEntryView, now: u64) -> bool {
    (now as int) < e.timestamp + e.ttl
}

/// Some entry carries the key.
pub open spec fn has_key(entries: Seq<DHTEntryView>, key: Seq<char>) -> bool {
    exists|i: int| 0 <= i < entries.len() && entries[i].key == key
}

/// The entry carrying the key (well-defined when keys are unique).
pub open spec fn entry_of(entries: Seq<DHTEntryView>, key: Seq<char>) -> DHTEntryView
    recommends
        has_key(entries, key),
{
    entries[choose|i: int| 0 <= i < entries.len() && entries[i].key == key]
}

/// No two entries carry the same key.
pub open spec fn unique_keys(entries: Seq<DHTEntryView>) -> bool {
    forall|i: int, j: int| 0 <= i < j < entries.len() ==> entries[i].key != entries[j].key
}

/// The entry at a key-carrying index is the entry of that key.
pub proof fn lemma_entry_at(entries: Seq<DHTEntryView>, key: Seq<char>, i: int)
    requires
        unique_keys(entries),
        0 <= i < entries.len(),
        entries[i].key == key,
    ensures
        has_key(entries, key),
        entry_of(entries, key) == entries[i],
{
    let j = choose|j: int| 0 <= j < entries.len() && entries[j].key == key;
}

/// The live entries, in order.
pub open spec fn live_entries(entries: Seq<DHTEntryView>, now: u64) -> Seq<DHTEntryView>
    decreases entries.len(),
{
    if entries.len() == 0 {
        Seq::<DHTEntryView>::empty()
    } else {
        live_entries(entries.drop_last(), now) + if entry_live(entries.last(), now) {
            seq![entries.last()]
        } else {
            Seq::<DHTEntryView>::empty()
        }
    }
}

/// Every live entry was present before pruning.
pub proof fn lemma_live_entries_membership(entries: Seq<DHTEntryView>, now: u64)
    ensures
        forall|q: int|
            0 <= q < live_entries(entries, now).len() ==> entries.contains(
                #[trigger] live_entries(entries, now)[q],
            ),
    decreases entries.len(),
{
    if entries.len() == 0 {
    } else {
        let front = entries.drop_last();
        lemma_live_entries_membership(front, now);
        let l = live_entries(entries, now);
        let lf = live_entries(front, now);
        assert forall|q: int| 0 <= q < l.len() implies entries.contains(l[q]) by {
            if q < lf.len() {
                assert(front.contains(lf[q]));
                let t = choose|t: int| 0 <= t < front.len() && front[t] == lf[q];
                assert(entries[t] == l[q]);
            } else {
                assert(l[q] == entries.last());
                assert(entries[entries.len() - 1] == entries.last());
            }
        }
    }
}

/// Pruning keeps uniqueness and keeps exactly the live entries, unchanged.
#[verifier::rlimit(50)]
pub proof fn lemma_live_entries(entries: Seq<DHTEntryView>, now: u64)
    requires
        unique_keys(entries),
    ensures
        unique_keys(live_entries(entries, now)),
        live_entries(entries, now).len() <= entries.len(),
        forall|k: Seq<char>|
            has_key(live_entries(entries, now), k) <==> has_key(entries, k) && entry_live(
                #[trigger] entry_of(entries, k),
                now,
            ),
        forall|k: Seq<char>|
            has_key(live_entries(entries, now), k) ==> #[trigger] entry_of(
                live_entries(entries, now),
                k,
            ) == entry_of(entries, k),
    decreases entries.len(),
{
    if entries.len() == 0 {
    } else {
        let front = entries.drop_last();
        let last = entries.last();
        let lf = live_entries(front, now);
        let l = live_entries(entries, now);
        lemma_live_entries(front, now);
        lemma_live_entries_membership(front, now);
        assert(forall|q: int| 0 <= q < front.len() ==> front[q] == entries[q]);
        assert forall|k: Seq<char>| #[trigger] has_key(front, k) implies has_key(entries, k)
            && entry_of(entries, k) == entry_of(front, k) by {
            let q = choose|q: int| 0 <= q < front.len() && front[q].key == k;
            lemma_entry_at(front, k, q);
            lemma_entry_at(entries, k, q);
        }
        assert forall|k: Seq<char>| #[trigger] has_key(entries, k) && k != last.key implies
            has_key(front, k) && entry_of(front, k) == entry_of(entries, k) by {
            let q = choose|q: int| 0 <= q < entries.len() && entries[q].key == k;
            lemma_entry_at(entries, k, q);
            assert(q < entries.len() - 1);
            lemma_entry_at(front, k, q);
        }
        lemma_entry_at(entries, last.key, entries.len() - 1);
        assert(!has_key(front, last.key));
        if entry_live(last, now) {
            assert(l =~= lf.push(last));
            assert forall|i: int, j: int| 0 <= i < j < l.len() implies l[i].key != l[j].key by {
                if j < lf.len() {
                } else {
                    assert(l[j] == last);
                    assert(front.contains(lf[i]));
                    let q = choose|q: int| 0 <= q < front.len() && front[q] == lf[i];
                    assert(entries[q].key != last.key);
                }
            }
            assert forall|k: Seq<char>|
                has_key(l, k) <==> (has_key(entries, k) && entry_live(
                    entry_of(entries, k),
                    now,
                )) by {
                if has_key(l, k) {
                    let p = choose|p: int| 0 <= p < l.len() && l[p].key == k;
                    if p < lf.len() {
                        assert(lf[p] == l[p]);
                        assert(has_key(lf, k));
                        let ef = entry_of(front, k);
                        assert(has_key(front, k) && entry_live(ef, now));
                        assert(has_key(entries, k) && entry_of(entries, k) == ef);
                    } else {
                        assert(k == last.key);
                        assert(entry_of(entries, k) == last);
                    }
                }
                if has_key(entries, k) && entry_live(entry_of(entries, k), now) {
                    if k == last.key {
                        assert(l[l.len() - 1].key == k);
                    } else {
                        assert(has_key(front, k));
                        assert(entry_of(front, k) == entry_of(entries, k));
                        assert(entry_live(entry_of(front, k), now));
                        assert(has_key(lf, k));
                        let p = choose|p: int| 0 <= p < lf.len() && lf[p].key == k;
                        assert(l[p].key == k);
                    }
                }
            }
            assert forall|k: Seq<char>| has_key(l, k) implies entry_of(l, k) == entry_of(
                entries,
                k,
            ) by {
                let p = choose|p: int| 0 <= p < l.len() && l[p].key == k;
                lemma_entry_at(l, k, p);
                if p < lf.len() {
                    assert(l[p] == lf[p]);
                    lemma_entry_at(lf, k, p);
                    assert(entry_of(lf, k) == entry_of(front, k));
                } else {
                    assert(l[p] == last);
                    assert(k == last.key);
                }
            }
        } else {
            assert(l =~= lf);
            assert forall|k: Seq<char>|
                has_key(l, k) <==> (has_key(entries, k) && entry_live(
                    entry_of(entries, k),
                    now,
                )) by {
                if has_key(l, k) {
                    assert(has_key(lf, k));
                    let ef = entry_of(front, k);
                    assert(has_key(front, k) && entry_live(ef, now));
                    assert(has_key(entries, k) && entry_of(entries, k) == ef);
                }
                if has_key(entries, k) && entry_live(entry_of(entries, k), now) {
                    assert(k != last.key);
                    assert(has_key(front, k));
                    assert(entry_of(front, k) == entry_of(entries, k));
                    assert(entry_live(entry_of(front, k), now));
                    assert(has_key(lf, k));
                }
            }
        }
    }
}

/// The strings that are not the given one, in order.
pub open spec fn strings_without(peers: Seq<Seq<char>>, p: Seq<char>) -> Seq<Seq<char>>
    decreases peers.len(),
{
    if peers.len() == 0 {
        Seq::<Seq<char>>::empty()
    } else {
        strings_without(peers.drop_last(), p) + if peers.last() != p {
            seq![peers.last()]
        } else {
            Seq::<Seq<char>>::empty()
        }
    }
}

/// Every survivor of a removal was present before.
pub proof fn lemma_strings_without_membership(peers: Seq<Seq<char>>, p: Seq<char>)
    ensures
        forall|q: int|
            0 <= q < strings_without(peers, p).len() ==> peers.contains(
                #[trigger] strings_without(peers, p)[q],
            ),
    decreases peers.len(),
{
    if peers.len() == 0 {
    } else {
        let front = peers.drop_last();
        lemma_strings_without_membership(front, p);
        let w = strings_without(peers, p);
        let wf_ = strings_without(front, p);
        assert forall|q: int| 0 <= q < w.len() implies peers.contains(w[q]) by {
            if q < wf_.len() {
                assert(front.contains(wf_[q]));
                let t = choose|t: int| 0 <= t < front.len() && front[t] == wf_[q];
                assert(peers[t] == w[q]);
            } else {
                assert(w[q] == peers.last());
                assert(peers[peers.len() - 1] == peers.last());
            }
        }
    }
}

/// Removing a string keeps the list's length bound, its distinctness, and
/// the absence of the removed string.
pub proof fn lemma_strings_without(peers: Seq<Seq<char>>, p: Seq<char>)
    ensures
        strings_without(peers, p).len() <= peers.len(),
        !strings_without(peers, p).contains(p),
        (forall|i: int, j: int| 0 <= i < j < peers.len() ==> peers[i] != peers[j]) ==> forall|
            i: int,
            j: int,
        |
            0 <= i < j < strings_without(peers, p).len() ==> strings_without(peers, p)[i]
                != strings_without(peers, p)[j],
    decreases peers.len(),
{
    if peers.len() == 0 {
    } else {
        let front = peers.drop_last();
        lemma_strings_without(front, p);
        lemma_strings_without_membership(front, p);
        let w = strings_without(peers, p);
        let wf_ = strings_without(front, p);
        if w.contains(p) {
            let q = choose|q: int| 0 <= q < w.len() && w[q] == p;
            if q < wf_.len() {
                assert(wf_.contains(p));
            }
        }
        if forall|i: int, j: int| 0 <= i < j < peers.len() ==> peers[i] != peers[j] {
            assert(forall|i: int, j: int| 0 <= i < j < front.len() ==> front[i] != front[j]);
            if peers.last() != p {
                assert forall|i: int, j: int| 0 <= i < j < w.len() implies w[i] != w[j] by {
                    if j < wf_.len() {
                    } else {
                        assert(w[j] == peers.last());
                        assert(front.contains(w[i]));
                        let q = choose|q: int| 0 <= q < front.len() && front[q] == w[i];
                        assert(peers[q] != peers.last());
                    }
                }
            }
        }
    }
}

/// The index of the entry carrying a key, if any.
fn find_key_index(entries: &Vec<DHTEntry>, key: &str) -> (r: Option<usize>)
    ensures
        r matches Some(i) ==> i < entries@.len() && entries@[i as int]@.key == key@,
        r is None ==> forall|j: int| 0 <= j < entries@.len() ==> entries@[j]@.key != key@,
{
    let mut i: usize = 0;
    while i < entries.len()
        invariant
            i <= entries@.len(),
            forall|j: int| 0 <= j < i ==> entries@[j]@.key != key@,
        decreases entries@.len() - i,
    {
        if str_eq(entries[i].key.as_str(), key) {
            return Some(i);
        }
        i += 1;
    }
    None
}

/// The index of a string in a list, if any.
fn find_string_index(v: &Vec<String>, s: &str) -> (r: Option<usize>)
    ensures
        r matches Some(i) ==> i < v@.len() && v@[i as int]@ == s@,
        r is None ==> forall|j: int| 0 <= j < v@.len() ==> v@[j]@ != s@,
{
    let mut i: usize = 0;
    while i < v.len()
        invariant
            i <= v@.len(),
            forall|j: int| 0 <= j < i ==> v@[j]@ != s@,
        decreases v@.len() - i,
    {
        if str_eq(v[i].as_str(), s) {
            return Some(i);
        }
        i += 1;
    }
    None
}

/// Mathematical image of the registry.
pub struct DHTView {
    pub node_id: Seq<char>,
    pub entries: Seq<DHTEntryView>,
    pub peers: Seq<Seq<char>>,
    pub k_bucket_size: usize,
}

/// The content registry and peer cache of one node.
pub struct DHT {
    pub node_id: NodeId,
    pub entries: Vec<DHTEntry>,
    pub peers: Vec<String>,
    pub k_bucket_size: usize,
}

impl View for DHT {
    type V = DHTView;

    open spec fn view(&self) -> DHTView {
        DHTView {
            node_id: self.node_id@,
            entries: self.entries@.map_values(|e: DHTEntry| e@),
            peers: self.peers.deep_view(),
            k_bucket_size: self.k_bucket_size,
        }
    }
}

impl DHT {
    /// Internal consistency: fixed capacity, bounded peer cache, and no
    /// duplicate keys or peers.
    pub open spec fn wf(&self) -> bool {
        &&& self.k_bucket_size == K_BUCKET_SIZE
        &&& self@.peers.len() <= K_BUCKET_SIZE
        &&& unique_keys(self@.entries)
        &&& forall|i: int, j: int|
            0 <= i < j < self@.peers.len() ==> self@.peers[i] != self@.peers[j]
    }

    /// An empty registry for the given node.
    pub fn new(node_id: NodeId) -> (r: Self)
        ensures
            r.wf(),
            r@.node_id == node_id@,
            r@.entries.len() == 0,
            r@.peers.len() == 0,
    {
        let r = DHT {
            node_id,
            entries: Vec::new(),
            peers: Vec::new(),
            k_bucket_size: K_BUCKET_SIZE,
        };
        proof {
            assert(r@.entries =~= Seq::<DHTEntryView>::empty());
            assert(r@.peers =~= Seq::<Seq<char>>::empty());
        }
        r
    }

    /// Stores a value under a key, overwriting any previous entry for that
    /// key; the entry is stamped with the present time and the given
    /// time-to-live.
    pub fn store(&mut self, key: String, value: Vec<u8>, ttl: u64, now: u64)
        requires
            old(self).wf(),
        ensures
            final(self).wf(),
            final(self)@.node_id == old(self)@.node_id,
            final(self)@.peers == old(self)@.peers,
            has_key(final(self)@.entries, key@),
            entry_of(final(self)@.entries, key@) == (DHTEntryView {
                key: key@,
                value: value@,
                timestamp: now,
                ttl,
            }),
            forall|k: Seq<char>|
                has_key(final(self)@.entries, k) <==> has_key(old(self)@.entries, k) || k == key@,
            forall|k: Seq<char>|
                k != key@ && has_key(old(self)@.entries, k) ==> #[trigger] entry_of(
                    final(self)@.entries,
                    k,
                ) == entry_of(old(self)@.entries, k),
    {
        let ghost e0 = self@.entries;
        let entry = DHTEntry { key: key.clone(), value, timestamp: now, ttl };
        match find_key_index(&self.entries, key.as_str()) {
            Some(i) => {
                self.entries.set(i, entry);
                proof {
                    let e1 = self@.entries;
                    assert(e1 =~= e0.update(i as int, DHTEntryView {
                        key: key@,
                        value: value@,
                        timestamp: now,
                        ttl,
                    }));
                    assert(e0[i as int] == old(self).entries@[i as int]@);
                    assert(e0[i as int].key == key@);
                    assert(forall|p: int| 0 <= p < e1.len() ==> e1[p].key == e0[p].key);
                    assert(unique_keys(e1));
                    lemma_entry_at(e1, key@, i as int);
                    assert forall|k: Seq<char>|
                        has_key(e1, k) <==> has_key(e0, k) || k == key@ by {
                        if has_key(e1, k) {
                            let p = choose|p: int| 0 <= p < e1.len() && e1[p].key == k;
                            assert(e0[p].key == k || k == key@);
                        }
                        if has_key(e0, k) {
                            let p = choose|p: int| 0 <= p < e0.len() && e0[p].key == k;
                            if p != i {
                                assert(e1[p].key == k);
                            }
                        }
                    }
                    assert forall|k: Seq<char>| k != key@ && has_key(e0, k) implies entry_of(
                        e1,
                        k,
                    ) == entry_of(e0, k) by {
                        let p = choose|p: int| 0 <= p < e0.len() && e0[p].key == k;
                        assert(p != i) by {
                            lemma_entry_at(e0, key@, i as int);
                        }
                        lemma_entry_at(e0, k, p);
                        lemma_entry_at(e1, k, p);
                    }
                }
            },
            None => {
                self.entries.push(entry);
                proof {
                    let e1 = self@.entries;
                    assert(e1 =~= e0.push(DHTEntryView {
                        key: key@,
                        value: value@,
                        timestamp: now,
                        ttl,
                    }));
                    assert forall|p: int| 0 <= p < e0.len() implies e0[p].key != key@ by {
                        assert(e0[p] == old(self).entries@[p]@);
                    }
                    assert forall|p: int, q: int| 0 <= p < q < e1.len() implies e1[p].key
                        != e1[q].key by {
                        if q < e0.len() {
                            assert(e1[p] == e0[p] && e1[q] == e0[q]);
                        } else {
                            assert(e1[q].key == key@);
                            assert(e1[p] == e0[p]);
                            assert(e0[p].key != key@);
                        }
                    }
                    assert(unique_keys(e1));
                    lemma_entry_at(e1, key@, e0.len() as int);
                    assert forall|k: Seq<char>|
                        has_key(e1, k) <==> has_key(e0, k) || k == key@ by {
                        if has_key(e1, k) {
                            let p = choose|p: int| 0 <= p < e1.len() && e1[p].key == k;
                            if p < e0.len() {
                                assert(e0[p].key == k);
                            }
                        }
                        if has_key(e0, k) {
                            let p = choose|p: int| 0 <= p < e0.len() && e0[p].key == k;
                            assert(e1[p].key == k);
                        }
                    }
                    assert forall|k: Seq<char>| k != key@ && has_key(e0, k) implies entry_of(
                        e1,
                        k,
                    ) == entry_of(e0, k) by {
                        let p = choose|p: int| 0 <= p < e0.len() && e0[p].key == k;
                        lemma_entry_at(e0, k, p);
                        lemma_entry_at(e1, k, p);
                    }
                }
            },
        }
    }

    /// Looks a key up: present exactly when the key is stored and its entry
    /// has not expired, in which case the stored bytes come back.
    pub fn get(&self, key: &str, now: u64) -> (r: Option<Vec<u8>>)
        requires
            self.wf(),
        ensures
            r is Some <==> (has_key(self@.entries, key@) && entry_live(
                entry_of(self@.entries, key@),
                now,
            )),
            r matches Some(v) ==> v@ == entry_of(self@.entries, key@).value,
    {
        match find_key_index(&self.entries, key) {
            Some(i) => {
                proof {
                    lemma_entry_at(self@.entries, key@, i as int);
                }
                let entry = &self.entries[i];
                let live = if now < entry.timestamp {
                    true
                } else {
                    now - entry.timestamp < entry.ttl
                };
                if live {
                    Some(clone_bytes(&entry.value))
                } else {
                    None
                }
            },
            None => None,
        }
    }

    /// Removes a key's entry, if any; other entries are untouched.
    pub fn remove(&mut self, key: &str)
        requires
            old(self).wf(),
        ensures
            final(self).wf(),
            final(self)@.node_id == old(self)@.node_id,
            final(self)@.peers == old(self)@.peers,
            !has_key(final(self)@.entries, key@),
            forall|k: Seq<char>|
                k != key@ ==> (has_key(final(self)@.entries, k) <==> has_key(
                    old(self)@.entries,
                    k,
                )),
            forall|k: Seq<char>|
                k != key@ && has_key(old(self)@.entries, k) ==> #[trigger] entry_of(
                    final(self)@.entries,
                    k,
                ) == entry_of(old(self)@.entries, k),
    {
        let ghost e0 = self@.entries;
        match find_key_index(&self.entries, key) {
            Some(i) => {
                self.entries.remove(i);
                proof {
                    let e1 = self@.entries;
                    assert(e1 =~= e0.remove(i as int));
                    assert(forall|j: int| 0 <= j < i ==> e1[j] == e0[j]);
                    assert(forall|j: int| i <= j < e1.len() ==> e1[j] == e0[j + 1]);
                    assert(unique_keys(e1));
                    assert forall|p: int| 0 <= p < e1.len() implies e1[p].key != key@ by {
                        if p < i {
                            assert(e0[p].key != e0[i as int].key);
                        } else {
                            assert(e0[p + 1].key != e0[i as int].key);
                        }
                    }
                    assert forall|k: Seq<char>|
                        k != key@ implies (has_key(e1, k) <==> has_key(e0, k)) by {
                        if has_key(e1, k) {
                            let p = choose|p: int| 0 <= p < e1.len() && e1[p].key == k;
                            if p < i {
                                assert(e0[p].key == k);
                            } else {
                                assert(e0[p + 1].key == k);
                            }
                        }
                        if has_key(e0, k) {
                            let p = choose|p: int| 0 <= p < e0.len() && e0[p].key == k;
                            if p < i {
                                assert(e1[p].key == k);
                            } else {
                                assert(p != i);
                                assert(e1[p - 1].key == k);
                            }
                        }
                    }
                    assert forall|k: Seq<char>| k != key@ && has_key(e0, k) implies entry_of(
                        e1,
                        k,
                    ) == entry_of(e0, k) by {
                        let p = choose|p: int| 0 <= p < e0.len() && e0[p].key == k;
                        lemma_entry_at(e0, k, p);
                        if p < i {
                            lemma_entry_at(e1, k, p);
                        } else {
                            assert(p != i);
                            lemma_entry_at(e1, k, p - 1);
                        }
                    }
                }
            },
            None => (),
        }
    }

    /// Physically deletes every expired entry and says how many went.
    pub fn cleanup_expired_entries(&mut self, now: u64) -> (r: usize)
        requires
            old(self).wf(),
        ensures
            final(self).wf(),
            final(self)@.node_id == old(self)@.node_id,
            final(self)@.peers == old(self)@.peers,
            final(self)@.entries == live_entries(old(self)@.entries, now),
            r == old(self)@.entries.len() - final(self)@.entries.len(),
    {
        let initial_count = self.entries.len();
        let mut kept: Vec<DHTEntry> = Vec::new();
        let mut i: usize = 0;
        proof {
            let e0 = old(self)@.entries;
            assert(kept@.map_values(|e: DHTEntry| e@) =~= live_entries(e0.take(0), now));
        }
        while i < self.entries.len()
            invariant
                *self == *old(self),
                i <= self@.entries.len(),
                kept@.map_values(|e: DHTEntry| e@) == live_entries(
                    old(self)@.entries.take(i as int),
                    now,
                ),
                kept@.len() <= i,
            decreases self@.entries.len() - i,
        {
            let entry = &self.entries[i];
            let live = if now < entry.timestamp {
                true
            } else {
                now - entry.timestamp < entry.ttl
            };
            let ghost kv = kept@.map_values(|e: DHTEntry| e@);
            if live {
                kept.push(entry.clone());
            }
            proof {
                let e0 = old(self)@.entries;
                assert(e0.take(i + 1).drop_last() =~= e0.take(i as int));
                assert(e0.take(i + 1).last() == e0[i as int]);
                if live {
                    assert(kept@.map_values(|e: DHTEntry| e@) =~= kv + seq![e0[i as int]]);
                } else {
                    assert(kept@.map_values(|e: DHTEntry| e@) =~= kv);
                    assert(kv + Seq::<DHTEntryView>::empty() =~= kv);
                }
            }
            i += 1;
        }
        proof {
            let e0 = old(self)@.entries;
            assert(e0.take(e0.len() as int) =~= e0);
            lemma_live_entries(e0, now);
        }
        let removed = initial_count - kept.len();
        self.entries = kept;
        removed
    }

    /// Adds a peer: a known peer is left alone; a new one is appended, and
    /// when the cache is already full the oldest peer is evicted for it.
    pub fn add_peer(&mut self, peer_id: String)
        requires
            old(self).wf(),
        ensures
            final(self).wf(),
            final(self)@.node_id == old(self)@.node_id,
            final(self)@.entries == old(self)@.entries,
            final(self)@.peers.len() <= K_BUCKET_SIZE,
            old(self)@.peers.contains(peer_id@) ==> final(self)@.peers == old(self)@.peers,
            !old(self)@.peers.contains(peer_id@) && old(self)@.peers.len() < K_BUCKET_SIZE
                ==> final(self)@.peers == old(self)@.peers.push(peer_id@),
            !old(self)@.peers.contains(peer_id@) && old(self)@.peers.len() == K_BUCKET_SIZE
                ==> final(self)@.peers == old(self)@.peers.drop_first().push(peer_id@),
    {
        let ghost p0 = self@.peers;
        match find_string_index(&self.peers, peer_id.as_str()) {
            Some(i) => {
                proof {
                    assert(p0[i as int] == peer_id@);
                    assert(p0.contains(peer_id@));
                }
            },
            None => {
                proof {
                    assert forall|q: int| 0 <= q < p0.len() implies p0[q] != peer_id@ by {
                        assert(self.peers@[q]@ != peer_id@);
                    }
                    assert(!p0.contains(peer_id@));
                }
                self.peers.push(peer_id);
                proof {
                    assert(self@.peers =~= p0.push(peer_id@));
                }
                if self.peers.len() > self.k_bucket_size {
                    let ghost p1 = self@.peers;
                    self.peers.remove(0);
                    proof {
                        assert(self@.peers =~= p1.drop_first());
                        assert(p1.drop_first() =~= p0.drop_first().push(peer_id@));
                    }
                }
            },
        }
    }

    /// Drops every occurrence of a peer from the cache.
    #[verifier::rlimit(50)]
    pub fn remove_peer(&mut self, peer_id: &str)
        requires
            old(self).wf(),
        ensures
            final(self).wf(),
            final(self)@.node_id == old(self)@.node_id,
            final(self)@.entries == old(self)@.entries,
            final(self)@.peers == strings_without(old(self)@.peers, peer_id@),
            !final(self)@.peers.contains(peer_id@),
    {
        let mut kept: Vec<String> = Vec::new();
        let mut i: usize = 0;
        proof {
            let p0 = old(self)@.peers;
            assert(kept.deep_view() =~= strings_without(p0.take(0), peer_id@));
        }
        while i < self.peers.len()
            invariant
                *self == *old(self),
                i <= self@.peers.len(),
                kept.deep_view() == strings_without(old(self)@.peers.take(i as int), peer_id@),
                kept@.len() <= i,
            decreases self@.peers.len() - i,
        {
            let ghost p0 = old(self)@.peers;
            let ghost kv = kept.deep_view();
            if !str_eq(self.peers[i].as_str(), peer_id) {
                kept.push(self.peers[i].clone());
            }
            proof {
                assert(p0.take(i + 1).drop_last() =~= p0.take(i as int));
                assert(p0.take(i + 1).last() == p0[i as int]);
                if p0[i as int] != peer_id@ {
                    assert(kept.deep_view() =~= kv + seq![p0[i as int]]);
                } else {
                    assert(kept.deep_view() =~= kv);
                    assert(kv + Seq::<Seq<char>>::empty() =~= kv);
                }
            }
            i += 1;
        }
        proof {
            let p0 = old(self)@.peers;
            assert(p0.take(p0.len() as int) =~= p0);
            lemma_strings_without(p0, peer_id@);
        }
        self.peers = kept;
    }

    /// The cached peers, oldest first.
    pub fn get_peers(&self) -> (r: Vec<String>)
        ensures
            r.deep_view() == self@.peers,
    {
        clone_strings(&self.peers)
    }

    /// Advertises a service: its record is stored under the service key for
    /// `SERVICE_TTL` seconds.
    pub fn announce_service(&mut self, service: &ServiceMetadata, now: u64)
        requires
            old(self).wf(),
        ensures
            final(self).wf(),
            final(self)@.node_id == old(self)@.node_id,
            final(self)@.peers == old(self)@.peers,
            has_key(final(self)@.entries, service_key(service@.id)),
            entry_of(final(self)@.entries, service_key(service@.id)) == (DHTEntryView {
                key: service_key(service@.id),
                value: enc_service(service@),
                timestamp: now,
                ttl: SERVICE_TTL,
            }),
            forall|k: Seq<char>|
                has_key(final(self)@.entries, k) <==> has_key(old(self)@.entries, k) || k
                    == service_key(service@.id),
            forall|k: Seq<char>|
                k != service_key(service@.id) && has_key(old(self)@.entries, k)
                    ==> #[trigger] entry_of(final(self)@.entries, k) == entry_of(
                    old(self)@.entries,
                    k,
                ),
    {
        let key = String::from_str("service:").concat(service.id.0.as_str());
        let value = encode_service(service);
        self.store(key, value, SERVICE_TTL, now);
    }

    /// Finds the advertised services whose name or description contains the
    /// query, ignoring ASCII case, in storage order. Expiry is not checked
    /// here; only pruning removes stale service records from view.
    pub fn find_services(&self, query: &str) -> (r: Vec<ServiceMetadata>)
        ensures
            r@.map_values(|s: ServiceMetadata| s@) == found_services(self@.entries, query@),
    {
        let mut found: Vec<ServiceMetadata> = Vec::new();
        let mut i: usize = 0;
        proof {
            assert(found@.map_values(|s: ServiceMetadata| s@) =~= found_services(
                self@.entries.take(0),
                query@,
            ));
        }
        while i < self.entries.len()
            invariant
                i <= self@.entries.len(),
                found@.map_values(|s: ServiceMetadata| s@) == found_services(
                    self@.entries.take(i as int),
                    query@,
                ),
            decreases self@.entries.len() - i,
        {
            let ghost fv = found@.map_values(|s: ServiceMetadata| s@);
            let entry = &self.entries[i];
            if str_starts_with(entry.key.as_str(), "service:") {
                match decode_service(&entry.value) {
                    Some(s) => {
                        if string_contains_ci(s.name.as_str(), query) || string_contains_ci(
                            s.description.as_str(),
                            query,
                        ) {
                            found.push(s);
                        }
                    },
                    None => (),
                }
            }
            proof {
                let e = self@.entries;
                assert(e.take(i + 1).drop_last() =~= e.take(i as int));
                assert(e.take(i + 1).last() == e[i as int]);
                let fv2 = found@.map_values(|s: ServiceMetadata| s@);
                if fv2 == fv {
                    assert(fv + Seq::<ServiceMetadataView>::empty() =~= fv);
                    assert(fv2 =~= found_services(e.take(i + 1), query@));
                } else {
                    assert(fv2 =~= found_services(e.take(i + 1), query@));
                }
            }
            i += 1;
        }
        proof {
            assert(self@.entries.take(self@.entries.len() as int) =~= self@.entries);
        }
        found
    }

    /// Stores a reputation attestation under its target/timestamp key for
    /// `ATTESTATION_TTL` seconds.
    pub fn store_reputation_attestation(&mut self, attestation: &ReputationAttestation, now: u64)
        requires
            old(self).wf(),
        ensures
            final(self).wf(),
            final(self)@.node_id == old(self)@.node_id,
            final(self)@.peers == old(self)@.peers,
            has_key(
                final(self)@.entries,
                attestation_key(attestation@.target_did, attestation@.timestamp),
            ),
            entry_of(
                final(self)@.entries,
                attestation_key(attestation@.target_did, attestation@.timestamp),
            ) == (DHTEntryView {
                key: attestation_key(attestation@.target_did, attestation@.timestamp),
                value: enc_attestation(attestation@),
                timestamp: now,
                ttl: ATTESTATION_TTL,
            }),
            forall|k: Seq<char>|
                has_key(final(self)@.entries, k) <==> has_key(old(self)@.entries, k) || k
                    == attestation_key(attestation@.target_did, attestation@.timestamp),
            forall|k: Seq<char>|
                k != attestation_key(attestation@.target_did, attestation@.timestamp) && has_key(
                    old(self)@.entries,
                    k,
                ) ==> #[trigger] entry_of(final(self)@.entries, k) == entry_of(
                    old(self)@.entries,
                    k,
                ),
    {
        let key = String::from_str("reputation:").concat(attestation.target_did.as_str()).concat(
            ":",
        ).concat(u64_to_string(attestation.timestamp).as_str());
        let value = encode_attestation(attestation);
        self.store(key, value, ATTESTATION_TTL, now);
    }

    /// The decodable attestations stored under the target's key prefix, in
    /// storage order.
    pub fn get_reputation_attestations(&self, target_did: &str) -> (r: Vec<ReputationAttestation>)
        ensures
            r@.map_values(|a: ReputationAttestation| a@) == found_attestations(
                self@.entries,
                attestation_prefix(target_did@),
            ),
    {
        let prefix = String::from_str("reputation:").concat(target_did).concat(":");
        let mut found: Vec<ReputationAttestation> = Vec::new();
        let mut i: usize = 0;
        proof {
            assert(found@.map_values(|a: ReputationAttestation| a@) =~= found_attestations(
                self@.entries.take(0),
                prefix@,
            ));
        }
        while i < self.entries.len()
            invariant
                i <= self@.entries.len(),
                prefix@ == attestation_prefix(target_did@),
                found@.map_values(|a: ReputationAttestation| a@) == found_attestations(
                    self@.entries.take(i as int),
                    prefix@,
                ),
            decreases self@.entries.len() - i,
        {
            let ghost fv = found@.map_values(|a: ReputationAttestation| a@);
            let entry = &self.entries[i];
            if str_starts_with(entry.key.as_str(), prefix.as_str()) {
                match decode_attestation(&entry.value) {
                    Some(a) => {
                        found.push(a);
                    },
                    None => (),
                }
            }
            proof {
                let e = self@.entries;
                assert(e.take(i + 1).drop_last() =~= e.take(i as int));
                assert(e.take(i + 1).last() == e[i as int]);
                let fv2 = found@.map_values(|a: ReputationAttestation| a@);
                if fv2 == fv {
                    assert(fv + Seq::<AttestationView>::empty() =~= fv);
                    assert(fv2 =~= found_attestations(e.take(i + 1), prefix@));
                } else {
                    assert(fv2 =~= found_attestations(e.take(i + 1), prefix@));
                }
            }
            i += 1;
        }
        proof {
            assert(self@.entries.take(self@.entries.len() as int) =~= self@.entries);
        }
        found
    }

    /// Stores an escrow contract under its key for `ESCROW_TTL` seconds.
    pub fn store_escrow_contract(&mut self, contract: &EscrowContract, now: u64)
        requires
            old(self).wf(),
        ensures
            final(self).wf(),
            final(self)@.node_id == old(self)@.node_id,
            final(self)@.peers == old(self)@.peers,
            has_key(final(self)@.entries, escrow_key(contract@.id)),
            entry_of(final(self)@.entries, escrow_key(contract@.id)) == (DHTEntryView {
                key: escrow_key(contract@.id),
                value: enc_escrow(contract@),
                timestamp: now,
                ttl: ESCROW_TTL,
            }),
            forall|k: Seq<char>|
                has_key(final(self)@.entries, k) <==> has_key(old(self)@.entries, k) || k
                    == escrow_key(contract@.id),
            forall|k: Seq<char>|
                k != escrow_key(contract@.id) && has_key(old(self)@.entries, k)
                    ==> #[trigger] entry_of(final(self)@.entries, k) == entry_of(
                    old(self)@.entries,
                    k,
                ),
    {
        let key = String::from_str("escrow:").concat(contract.id.as_str());
        let value = encode_escrow(contract);
        self.store(key, value, ESCROW_TTL, now);
    }

    /// Looks an escrow contract up by identifier: present exactly when its
    /// entry is stored, unexpired, and decodable.
    pub fn get_escrow_contract(&self, escrow_id: &str, now: u64) -> (r: Option<EscrowContract>)
        requires
            self.wf(),
        ensures
            r is Some <==> (has_key(self@.entries, escrow_key(escrow_id@)) && entry_live(
                entry_of(self@.entries, escrow_key(escrow_id@)),
                now,
            ) && dec_escrow(entry_of(self@.entries, escrow_key(escrow_id@)).value) is Some),
            r matches Some(c) ==> dec_escrow(
                entry_of(self@.entries, escrow_key(escrow_id@)).value,
            ) == Some(c@),
    {
        let key = String::from_str("escrow:").concat(escrow_id);
        match self.get(key.as_str(), now) {
            Some(value) => decode_escrow(&value),
            None => None,
        }
    }

    /// Aggregate counts: stored entries, cached peers, and entries by kind.
    pub fn get_stats(&self) -> (r: DHTStats)
        ensures
            r.total_entries == self@.entries.len(),
            r.total_peers == self@.peers.len(),
            r.service_entries == count_prefixed(self@.entries, "service:"@),
            r.reputation_entries == count_prefixed(self@.entries, "reputation:"@),
            r.escrow_entries == count_prefixed(self@.entries, "escrow:"@),
    {
        let mut service_entries: usize = 0;
        let mut reputation_entries: usize = 0;
        let mut escrow_entries: usize = 0;
        let mut i: usize = 0;
        proof {
            assert(self@.entries.take(0) =~= Seq::<DHTEntryView>::empty());
        }
        while i < self.entries.len()
            invariant
                i <= self@.entries.len(),
                service_entries == count_prefixed(self@.entries.take(i as int), "service:"@),
                reputation_entries == count_prefixed(self@.entries.take(i as int), "reputation:"@),
                escrow_entries == count_prefixed(self@.entries.take(i as int), "escrow:"@),
                service_entries <= i && reputation_entries <= i && escrow_entries <= i,
            decreases self@.entries.len() - i,
        {
            let entry = &self.entries[i];
            if str_starts_with(entry.key.as_str(), "service:") {
                service_entries += 1;
            }
            if str_starts_with(entry.key.as_str(), "reputation:") {
                reputation_entries += 1;
            }
            if str_starts_with(entry.key.as_str(), "escrow:") {
                escrow_entries += 1;
            }
            proof {
                let e = self@.entries;
                assert(e.take(i + 1).drop_last() =~= e.take(i as int));
                assert(e.take(i + 1).last() == e[i as int]);
            }
            i += 1;
        }
        proof {
            assert(self@.entries.take(self@.entries.len() as int) =~= self@.entries);
            lemma_count_prefixed_bound(self@.entries, "service:"@);
            lemma_count_prefixed_bound(self@.entries, "reputation:"@);
            lemma_count_prefixed_bound(self@.entries, "escrow:"@);
        }
        DHTStats {
            total_entries: self.entries.len(),
            total_peers: self.peers.len(),
            service_entries,
            reputation_entries,
            escrow_entries,
        }
    }
}

/// The registry key under which a service record is stored.
pub open spec fn service_key(id: Seq<char>) -> Seq<char> {
    "service:"@ + id
}

/// The key prefix under which a target's attestations are stored.
pub open spec fn attestation_prefix(target_did: Seq<char>) -> Seq<char> {
    "reputation:"@ + target_did + ":"@
}

/// The registry key under which one attestation is stored.
pub open spec fn attestation_key(target_did: Seq<char>, timestamp: u64) -> Seq<char> {
    attestation_prefix(target_did) + dec_of(timestamp as nat)
}

/// The registry key under which an escrow contract is stored.
pub open spec fn escrow_key(id: Seq<char>) -> Seq<char> {
    "escrow:"@ + id
}

/// Whether a stored service record matches a query: the query occurs in its
/// name or description, ignoring ASCII case.
pub open spec fn service_matches(v: ServiceMetadataView, q: Seq<char>) -> bool {
    contains_ci(v.name, q) || contains_ci(v.description, q)
}

/// What one entry contributes to a service search.
pub open spec fn service_hit(e: DHTEntryView, q: Seq<char>) -> Seq<ServiceMetadataView> {
    if has_prefix(e.key, "service:"@) {
        match dec_service(e.value) {
            Some(v) => if service_matches(v, q) {
                seq![v]
            } else {
                Seq::<ServiceMetadataView>::empty()
            },
            None => Seq::<ServiceMetadataView>::empty(),
        }
    } else {
        Seq::<ServiceMetadataView>::empty()
    }
}

/// The service records matching a query, in storage order.
pub open spec fn found_services(entries: Seq<DHTEntryView>, q: Seq<char>) -> Seq<
    ServiceMetadataView,
>
    decreases entries.len(),
{
    if entries.len() == 0 {
        Seq::<ServiceMetadataView>::empty()
    } else {
        found_services(entries.drop_last(), q) + service_hit(entries.last(), q)
    }
}

/// What one entry contributes to an attestation lookup.
pub open spec fn attestation_hit(e: DHTEntryView, prefix: Seq<char>) -> Seq<AttestationView> {
    if has_prefix(e.key, prefix) {
        match dec_attestation(e.value) {
            Some(v) => seq![v],
            None => Seq::<AttestationView>::empty(),
        }
    } else {
        Seq::<AttestationView>::empty()
    }
}

/// The decodable attestations under a key prefix, in storage order.
pub open spec fn found_attestations(entries: Seq<DHTEntryView>, prefix: Seq<char>) -> Seq<
    AttestationView,
>
    decreases entries.len(),
{
    if entries.len() == 0 {
        Seq::<AttestationView>::empty()
    } else {
        found_attestations(entries.drop_last(), prefix) + attestation_hit(entries.last(), prefix)
    }
}

/// How many entries' keys open with a prefix.
pub open spec fn count_prefixed(entries: Seq<DHTEntryView>, prefix: Seq<char>) -> nat
    decreases entries.len(),
{
    if entries.len() == 0 {
        0
    } else {
        count_prefixed(entries.drop_last(), prefix) + if has_prefix(entries.last().key, prefix) {
            1nat
        } else {
            0nat
        }
    }
}

/// A prefix count never exceeds the number of entries.
pub proof fn lemma_count_prefixed_bound(entries: Seq<DHTEntryView>, prefix: Seq<char>)
    ensures
        count_prefixed(entries, prefix) <= entries.len(),
    decreases entries.len(),
{
    if entries.len() == 0 {
    } else {
        lemma_count_prefixed_bound(entries.drop_last(), prefix);
    }
}

/// A service record round-trips through storage and search: once a record's
/// encoding is stored under its service key, a query finds the record
/// exactly when the query occurs in its name or description, ignoring ASCII
/// case. In particular a query matching neither field never returns it.
pub proof fn lemma_stored_service_found(
    entries: Seq<DHTEntryView>,
    s: ServiceMetadataView,
    q: Seq<char>,
)
    requires
        crate::codec::service_enc_wf(s),
        exists|i: int|
            0 <= i < entries.len() && (#[trigger] entries[i]).key == service_key(s.id)
                && entries[i].value == enc_service(s),
    ensures
        found_services(entries, q).contains(s) <==> service_matches(s, q),
{
    if service_matches(s, q) {
        lemma_present_service_hit(entries, s, q);
    }
    if found_services(entries, q).contains(s) {
        lemma_found_services_match(entries, s, q);
    }
}

/// A stored, matching record appears among the search results.
proof fn lemma_present_service_hit(entries: Seq<DHTEntryView>, s: ServiceMetadataView, q: Seq<char>)
    requires
        crate::codec::service_enc_wf(s),
        service_matches(s, q),
        exists|i: int|
            0 <= i < entries.len() && (#[trigger] entries[i]).key == service_key(s.id)
                && entries[i].value == enc_service(s),
    ensures
        found_services(entries, q).contains(s),
    decreases entries.len(),
{
    let i = choose|i: int|
        0 <= i < entries.len() && (#[trigger] entries[i]).key == service_key(s.id)
            && entries[i].value == enc_service(s);
    let front = entries.drop_last();
    let found = found_services(entries, q);
    let ff = found_services(front, q);
    if i == entries.len() - 1 {
        assert(has_prefix(entries[i].key, "service:"@)) by {
            assert(("service:"@ + s.id).subrange(0, "service:"@.len() as int) =~= "service:"@);
        }
        crate::codec::lemma_service_round_trip(s);
        assert(service_hit(entries.last(), q) == seq![s]);
        assert(found[ff.len() as int] == s);
    } else {
        assert(front[i] == entries[i]);
        lemma_present_service_hit(front, s, q);
        let p = choose|p: int| 0 <= p < ff.len() && ff[p] == s;
        assert(found[p] == s);
    }
}

/// Every search result matches the query.
proof fn lemma_found_services_match(
    entries: Seq<DHTEntryView>,
    s: ServiceMetadataView,
    q: Seq<char>,
)
    requires
        found_services(entries, q).contains(s),
    ensures
        service_matches(s, q),
    decreases entries.len(),
{
    let found = found_services(entries, q);
    let front = entries.drop_last();
    let ff = found_services(front, q);
    let p = choose|p: int| 0 <= p < found.len() && found[p] == s;
    if p < ff.len() {
        assert(ff[p] == s);
        lemma_found_services_match(front, s, q);
    } else {
        assert(service_hit(entries.last(), q)[p - ff.len()] == s);
    }
}

/// Aggregate counts surfaced to the API boundary.
#[derive(Debug, Clone, Copy, PartialEq, Eq, Structural)]
pub struct DHTStats {
    pub total_entries: usize,
    pub total_peers: usize,
    pub service_entries: usize,
    pub reputation_entries: usize,
    pub escrow_entries: usize,
}

/// Time-to-live of a stored service record, in seconds.
pub const SERVICE_TTL: u64 = 3600;

/// Time-to-live of a stored reputation attestation, in seconds.
pub const ATTESTATION_TTL: u64 = 86400;

/// Time-to-live of a stored escrow contract, in seconds.
pub const ESCROW_TTL: u64 = 7200;

} // verus!
