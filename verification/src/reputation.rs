//! The reputation ledger: an append-only attestation log per identity and a
//! derived, decay-weighted score.
//!
//! Scores are fixed-point (millionths). An attestation aged `d` whole days
//! weighs `0.95^d`, computed in fixed point by repeated flooring
//! multiplication. A target's score is the weight-averaged attestation
//! score, recomputed only when that target's attestation list changes:
//! between writes the stored score reflects decay as of the last write, a
//! documented staleness property of this design.

use vstd::prelude::*;

use vstd::arithmetic::mul::{lemma_mul_inequality, lemma_mul_upper_bound};
use vstd::multiset::Multiset;
use vstd::arithmetic::div_mod::{lemma_div_is_ordered, lemma_div_multiples_vanish};

use crate::types::{ReputationAttestation, AttestationView, MAX_SCORE};
use crate::text::str_eq;

verus! {

/// The fixed-point scale of decay weights: this many units weigh 1.0.
pub const WEIGHT_SCALE: u64 = 1_000_000;

/// Seconds per whole day of attestation age.
pub const SECONDS_PER_DAY: u64 = 86400;

/// The weight of an attestation aged `d` whole days: `0.95^d` in fixed
/// point, by repeated flooring multiplication with 95/100.
pub open spec fn decay_weight(d: nat) -> nat
    decreases d,
{
    if d == 0 {
        WEIGHT_SCALE as nat
    } else {
        (decay_weight((d - 1) as nat) * 95) / 100
    }
}

/// A decay weight never exceeds the scale.
pub proof fn lemma_decay_weight_le(d: nat)
    ensures
        decay_weight(d) <= WEIGHT_SCALE,
    decreases d,
{
    if d > 0 {
        lemma_decay_weight_le((d - 1) as nat);
    }
}

/// Once the weight underflows to zero it stays zero.
proof fn lemma_decay_weight_zero(k: nat, d: nat)
    requires
        decay_weight(k) == 0,
        k <= d,
    ensures
        decay_weight(d) == 0,
    decreases d - k,
{
    if k < d {
        lemma_decay_weight_zero(k, (d - 1) as nat);
    }
}

/// The age of an attestation in whole days; a timestamp in the future
/// counts as fresh.
pub open spec fn age_days(timestamp: u64, now: u64) -> nat {
    if now >= timestamp {
        (((now - timestamp) as u64) / SECONDS_PER_DAY) as nat
    } else {
        0
    }
}

/// The decay weight of one attestation at the given time.
pub open spec fn att_weight(a: AttestationView, now: u64) -> nat {
    decay_weight(age_days(a.timestamp, now))
}

/// The sum of score-times-weight over the attestations.
pub open spec fn weighted_sum(atts: Seq<AttestationView>, now: u64) -> int
    decreases atts.len(),
{
    if atts.len() == 0 {
        0
    } else {
        weighted_sum(atts.drop_last(), now) + atts.last().score * att_weight(atts.last(), now)
    }
}

/// The sum of weights over the attestations.
pub open spec fn weight_sum(atts: Seq<AttestationView>, now: u64) -> int
    decreases atts.len(),
{
    if atts.len() == 0 {
        0
    } else {
        weight_sum(atts.drop_last(), now) + att_weight(atts.last(), now)
    }
}

/// Every attestation's score is admissible.
pub open spec fn all_valid(atts: Seq<AttestationView>) -> bool {
    forall|i: int| 0 <= i < atts.len() ==> #[trigger] atts[i].score <= MAX_SCORE
}

/// The decay-weighted average score: the weighted sum over the weight sum,
/// or zero when no weight remains.
pub open spec fn spec_score(atts: Seq<AttestationView>, now: u64) -> u64 {
    if weight_sum(atts, now) > 0 {
        (weighted_sum(atts, now) / weight_sum(atts, now)) as u64
    } else {
        0
    }
}

/// The sums are nonnegative and bounded by the list's length and the score
/// cap.
pub proof fn lemma_sum_bounds(atts: Seq<AttestationView>, now: u64)
    requires
        all_valid(atts),
    ensures
        0 <= weight_sum(atts, now),
        weight_sum(atts, now) <= atts.len() * (WEIGHT_SCALE as int),
        0 <= weighted_sum(atts, now),
        weighted_sum(atts, now) <= weight_sum(atts, now) * (MAX_SCORE as int),
    decreases atts.len(),
{
    if atts.len() == 0 {
    } else {
        let front = atts.drop_last();
        let a = atts.last();
        let w = att_weight(a, now) as int;
        lemma_sum_bounds(front, now);
        lemma_decay_weight_le(age_days(a.timestamp, now));
        assert(a.score <= MAX_SCORE);
        lemma_mul_inequality(a.score as int, MAX_SCORE as int, w);
        assert(weight_sum(front, now) * (MAX_SCORE as int) + w * (MAX_SCORE as int) == (weight_sum(
            front,
            now,
        ) + w) * (MAX_SCORE as int)) by {
            lemma_mul_is_distributive(weight_sum(front, now), w, MAX_SCORE as int);
        }
        assert(w * (MAX_SCORE as int) == (MAX_SCORE as int) * w) by {
            lemma_mul_comm(w, MAX_SCORE as int);
        }
        assert(a.score * w >= 0) by {
            lemma_mul_nonneg(a.score as int, w);
        }
    }
}

proof fn lemma_mul_is_distributive(x: int, y: int, z: int)
    ensures
        (x + y) * z == x * z + y * z,
{
    vstd::arithmetic::mul::lemma_mul_is_distributive_add_other_way(z, x, y);
}

proof fn lemma_mul_comm(x: int, y: int)
    ensures
        x * y == y * x,
{
}

proof fn lemma_mul_nonneg(x: int, y: int)
    requires
        0 <= x,
        0 <= y,
    ensures
        0 <= x * y,
{
    vstd::arithmetic::mul::lemma_mul_nonnegative(x, y);
}

/// A decay-weighted average of admissible scores is itself admissible.
pub proof fn lemma_score_bounded(atts: Seq<AttestationView>, now: u64)
    requires
        all_valid(atts),
    ensures
        spec_score(atts, now) <= MAX_SCORE,
{
    lemma_sum_bounds(atts, now);
    let ws = weight_sum(atts, now);
    let wd = weighted_sum(atts, now);
    if ws > 0 {
        lemma_div_is_ordered(wd, ws * (MAX_SCORE as int), ws);
        lemma_div_multiples_vanish(MAX_SCORE as int, ws);
        assert(ws * (MAX_SCORE as int) == (MAX_SCORE as int) * ws) by {
            lemma_mul_comm(ws, MAX_SCORE as int);
        }
        assert(wd / ws >= 0) by {
            vstd::arithmetic::div_mod::lemma_div_pos_is_pos(wd, ws);
        }
    }
}

/// A single attestation of age zero scores exactly its own score.
pub proof fn lemma_fresh_attestation_scores_exactly(a: AttestationView, now: u64)
    requires
        a.score <= MAX_SCORE,
        a.timestamp <= now < a.timestamp + SECONDS_PER_DAY,
    ensures
        spec_score(seq![a], now) == a.score,
{
    let s = seq![a];
    assert(s.len() == 1);
    assert(s.last() == a);
    assert(s.drop_last() =~= Seq::<AttestationView>::empty());
    assert(weighted_sum(s.drop_last(), now) == 0);
    assert(weight_sum(s.drop_last(), now) == 0);
    assert(age_days(a.timestamp, now) == 0);
    assert(att_weight(a, now) == WEIGHT_SCALE);
    assert(weighted_sum(s, now) == a.score * (WEIGHT_SCALE as int));
    assert(weight_sum(s, now) == WEIGHT_SCALE as int);
    lemma_div_multiples_vanish(a.score as int, WEIGHT_SCALE as int);
    assert((WEIGHT_SCALE as int) * (a.score as int) == (a.score as int) * (WEIGHT_SCALE as int))
        by {
        lemma_mul_comm(WEIGHT_SCALE as int, a.score as int);
    }
}

/// With no attestations left, the score is zero.
pub proof fn lemma_no_attestations_scores_zero(now: u64)
    ensures
        spec_score(Seq::<AttestationView>::empty(), now) == 0,
{
}

/// The decay weight of an age in days, in fixed point.
pub fn decay_weight_exec(d: u64) -> (r: u64)
    ensures
        r == decay_weight(d as nat),
        r <= WEIGHT_SCALE,
{
    proof {
        lemma_decay_weight_le(d as nat);
    }
    let mut w: u64 = WEIGHT_SCALE;
    let mut i: u64 = 0;
    while i < d
        invariant
            i <= d,
            w == decay_weight(i as nat),
            w <= WEIGHT_SCALE,
        decreases d - i,
    {
        if w == 0 {
            proof {
                lemma_decay_weight_zero(i as nat, d as nat);
            }
            return 0;
        }
        proof {
            lemma_decay_weight_le(i as nat);
        }
        w = (w * 95) / 100;
        i += 1;
        proof {
            lemma_decay_weight_le(i as nat);
        }
    }
    w
}

/// The views of a list of attestations.
pub open spec fn views_of_atts(s: Seq<ReputationAttestation>) -> Seq<AttestationView> {
    s.map_values(|a: ReputationAttestation| a@)
}

/// The decay-weighted average score of a list of attestations.
pub fn compute_score(items: &Vec<ReputationAttestation>, now: u64) -> (r: u64)
    requires
        all_valid(views_of_atts(items@)),
    ensures
        r == spec_score(views_of_atts(items@), now),
        r <= MAX_SCORE,
{
    let ghost vs = views_of_atts(items@);
    let mut weighted: u128 = 0;
    let mut weights: u128 = 0;
    let mut i: usize = 0;
    proof {
        assert(vs.take(0) =~= Seq::<AttestationView>::empty());
    }
    while i < items.len()
        invariant
            i <= items@.len(),
            vs == views_of_atts(items@),
            all_valid(vs),
            weighted == weighted_sum(vs.take(i as int), now),
            weights == weight_sum(vs.take(i as int), now),
        decreases items@.len() - i,
    {
        let a = &items[i];
        let d = if now >= a.timestamp {
            (now - a.timestamp) / SECONDS_PER_DAY
        } else {
            0
        };
        let w = decay_weight_exec(d);
        proof {
            assert(vs[i as int] == items@[i as int]@);
            assert(w == att_weight(vs[i as int], now));
            assert(vs.take(i + 1).drop_last() =~= vs.take(i as int));
            assert(vs.take(i + 1).last() == vs[i as int]);
            lemma_sum_bounds(vs.take(i + 1), now);
            lemma_sum_bounds(vs.take(i as int), now);
            assert(vs[i as int].score <= MAX_SCORE);
            lemma_mul_upper_bound(
                vs[i as int].score as int,
                MAX_SCORE as int,
                w as int,
                WEIGHT_SCALE as int,
            );
        }
        weighted = weighted + (a.score as u128) * (w as u128);
        weights = weights + (w as u128);
        i += 1;
    }
    proof {
        assert(vs.take(vs.len() as int) =~= vs);
        lemma_score_bounded(vs, now);
        lemma_sum_bounds(vs, now);
    }
    if weights > 0 {
        (weighted / weights) as u64
    } else {
        0
    }
}

/// Mathematical image of the ledger: attestation lists and stored scores,
/// both keyed by identity.
pub struct ReputationView {
    pub attestations: Seq<(Seq<char>, Seq<AttestationView>)>,
    pub scores: Seq<(Seq<char>, u64)>,
}

/// The reputation ledger.
pub struct ReputationSystem {
    pub attestations: Vec<(String, Vec<ReputationAttestation>)>,
    pub scores: Vec<(String, u64)>,
}

/// The views of a list of identity/score pairs.
pub open spec fn scores_view(s: Seq<(String, u64)>) -> Seq<(Seq<char>, u64)> {
    s.map_values(|p: (String, u64)| (p.0@, p.1))
}

impl View for ReputationSystem {
    type V = ReputationView;

    open spec fn view(&self) -> ReputationView {
        ReputationView {
            attestations: self.attestations@.map_values(
                |p: (String, Vec<ReputationAttestation>)| (p.0@, views_of_atts(p.1@)),
            ),
            scores: scores_view(self.scores@),
        }
    }
}

/// Some list is kept for the identity.
pub open spec fn has_target(lists: Seq<(Seq<char>, Seq<AttestationView>)>, did: Seq<char>) -> bool {
    exists|i: int| 0 <= i < lists.len() && lists[i].0 == did
}

/// The identity's attestation list; empty when none is kept.
pub open spec fn atts_of(lists: Seq<(Seq<char>, Seq<AttestationView>)>, did: Seq<char>) -> Seq<
    AttestationView,
> {
    if has_target(lists, did) {
        lists[choose|i: int| 0 <= i < lists.len() && lists[i].0 == did].1
    } else {
        Seq::<AttestationView>::empty()
    }
}

/// Some score is stored for the identity.
pub open spec fn has_score(scores: Seq<(Seq<char>, u64)>, did: Seq<char>) -> bool {
    exists|i: int| 0 <= i < scores.len() && scores[i].0 == did
}

/// The identity's stored score; zero when none is stored.
pub open spec fn score_of(scores: Seq<(Seq<char>, u64)>, did: Seq<char>) -> u64 {
    if has_score(scores, did) {
        scores[choose|i: int| 0 <= i < scores.len() && scores[i].0 == did].1
    } else {
        0
    }
}

/// The list at a target-carrying index is the list of that target.
pub proof fn lemma_target_at(
    lists: Seq<(Seq<char>, Seq<AttestationView>)>,
    did: Seq<char>,
    i: int,
)
    requires
        forall|p: int, q: int| 0 <= p < q < lists.len() ==> lists[p].0 != lists[q].0,
        0 <= i < lists.len(),
        lists[i].0 == did,
    ensures
        has_target(lists, did),
        atts_of(lists, did) == lists[i].1,
{
    let j = choose|j: int| 0 <= j < lists.len() && lists[j].0 == did;
}

/// The score at a key-carrying index is the score of that key.
pub proof fn lemma_score_at(scores: Seq<(Seq<char>, u64)>, did: Seq<char>, i: int)
    requires
        forall|p: int, q: int| 0 <= p < q < scores.len() ==> scores[p].0 != scores[q].0,
        0 <= i < scores.len(),
        scores[i].0 == did,
    ensures
        has_score(scores, did),
        score_of(scores, did) == scores[i].1,
{
    let j = choose|j: int| 0 <= j < scores.len() && scores[j].0 == did;
}

/// The attestations that do not match the exact attester and timestamp, in
/// order.
pub open spec fn without_match(
    atts: Seq<AttestationView>,
    attester: Seq<char>,
    timestamp: u64,
) -> Seq<AttestationView>
    decreases atts.len(),
{
    if atts.len() == 0 {
        Seq::<AttestationView>::empty()
    } else {
        without_match(atts.drop_last(), attester, timestamp) + if !(atts.last().attester_did
            == attester && atts.last().timestamp == timestamp) {
            seq![atts.last()]
        } else {
            Seq::<AttestationView>::empty()
        }
    }
}

/// Removal by exact match keeps every survivor admissible.
pub proof fn lemma_without_match_valid(atts: Seq<AttestationView>, attester: Seq<char>, ts: u64)
    requires
        all_valid(atts),
    ensures
        all_valid(without_match(atts, attester, ts)),
        without_match(atts, attester, ts).len() <= atts.len(),
    decreases atts.len(),
{
    if atts.len() > 0 {
        lemma_without_match_valid(atts.drop_last(), attester, ts);
    }
}

/// Copies an attestation list; the copy views the same.
pub fn clone_att_list(v: &Vec<ReputationAttestation>) -> (r: Vec<ReputationAttestation>)
    ensures
        views_of_atts(r@) == views_of_atts(v@),
        r@.len() == v@.len(),
{
    let mut r: Vec<ReputationAttestation> = Vec::new();
    let mut i: usize = 0;
    while i < v.len()
        invariant
            i <= v@.len(),
            r@.len() == i,
            forall|j: int| 0 <= j < i ==> r@[j]@ == v@[j]@,
        decreases v@.len() - i,
    {
        r.push(v[i].clone());
        i += 1;
    }
    proof {
        assert(views_of_atts(r@) =~= views_of_atts(v@));
    }
    r
}

/// The index of a target's list, if any.
fn find_target_index(lists: &Vec<(String, Vec<ReputationAttestation>)>, did: &str) -> (r: Option<
    usize,
>)
    ensures
        r matches Some(i) ==> i < lists@.len() && lists@[i as int].0@ == did@,
        r is None ==> forall|j: int| 0 <= j < lists@.len() ==> lists@[j].0@ != did@,
{
    let mut i: usize = 0;
    while i < lists.len()
        invariant
            i <= lists@.len(),
            forall|j: int| 0 <= j < i ==> lists@[j].0@ != did@,
        decreases lists@.len() - i,
    {
        if str_eq(lists[i].0.as_str(), did) {
            return Some(i);
        }
        i += 1;
    }
    None
}

/// The index of a key's score, if any.
fn find_score_index(scores: &Vec<(String, u64)>, did: &str) -> (r: Option<usize>)
    ensures
        r matches Some(i) ==> i < scores@.len() && scores@[i as int].0@ == did@,
        r is None ==> forall|j: int| 0 <= j < scores@.len() ==> scores@[j].0@ != did@,
{
    let mut i: usize = 0;
    while i < scores.len()
        invariant
            i <= scores@.len(),
            forall|j: int| 0 <= j < i ==> scores@[j].0@ != did@,
        decreases scores@.len() - i,
    {
        if str_eq(scores[i].0.as_str(), did) {
            return Some(i);
        }
        i += 1;
    }
    None
}

impl ReputationSystem {
    /// Internal consistency: one list per target, one score per identity,
    /// every stored attestation and score admissible.
    pub open spec fn wf(&self) -> bool {
        &&& forall|i: int, j: int|
            0 <= i < j < self@.attestations.len() ==> self@.attestations[i].0
                != self@.attestations[j].0
        &&& forall|i: int, j: int|
            0 <= i < j < self@.scores.len() ==> self@.scores[i].0 != self@.scores[j].0
        &&& forall|i: int|
            0 <= i < self@.attestations.len() ==> all_valid(#[trigger] self@.attestations[i].1)
        &&& forall|i: int| 0 <= i < self@.scores.len() ==> (#[trigger] self@.scores[i].1)
            <= MAX_SCORE
    }

    /// An empty ledger.
    pub fn new() -> (r: Self)
        ensures
            r.wf(),
            r@.attestations.len() == 0,
            r@.scores.len() == 0,
    {
        let r = ReputationSystem { attestations: Vec::new(), scores: Vec::new() };
        proof {
            assert(r@.attestations =~= Seq::<(Seq<char>, Seq<AttestationView>)>::empty());
            assert(r@.scores =~= Seq::<(Seq<char>, u64)>::empty());
        }
        r
    }

    /// Stores or overwrites one identity's score; the attestation lists are
    /// untouched.
    fn upsert_score(&mut self, did: String, value: u64)
        requires
            old(self).wf(),
            value <= MAX_SCORE,
        ensures
            final(self).wf(),
            final(self)@.attestations == old(self)@.attestations,
            has_score(final(self)@.scores, did@),
            score_of(final(self)@.scores, did@) == value,
            forall|k: Seq<char>|
                has_score(final(self)@.scores, k) <==> has_score(old(self)@.scores, k) || k
                    == did@,
            forall|k: Seq<char>|
                k != did@ && has_score(old(self)@.scores, k) ==> #[trigger] score_of(
                    final(self)@.scores,
                    k,
                ) == score_of(old(self)@.scores, k),
    {
        let ghost s0 = self@.scores;
        match find_score_index(&self.scores, did.as_str()) {
            Some(i) => {
                let ghost d = did@;
                proof {
                    assert(s0[i as int].0 == old(self).scores@[i as int].0@);
                    assert(s0[i as int].0 == d);
                }
                self.scores.set(i, (did, value));
                proof {
                    let s1 = self@.scores;
                    assert(s1 =~= s0.update(i as int, (d, value)));
                    assert(forall|p: int| 0 <= p < s1.len() ==> s1[p].0 == s0[p].0);
                    lemma_score_at(s1, d, i as int);
                    assert forall|k: Seq<char>|
                        has_score(s1, k) <==> has_score(s0, k) || k == d by {
                        if has_score(s1, k) {
                            let p = choose|p: int| 0 <= p < s1.len() && s1[p].0 == k;
                            assert(s0[p].0 == k);
                        }
                        if has_score(s0, k) {
                            let p = choose|p: int| 0 <= p < s0.len() && s0[p].0 == k;
                            assert(s1[p].0 == k);
                        }
                    }
                    assert forall|k: Seq<char>| k != d && has_score(s0, k) implies score_of(
                        s1,
                        k,
                    ) == score_of(s0, k) by {
                        let p = choose|p: int| 0 <= p < s0.len() && s0[p].0 == k;
                        lemma_score_at(s0, k, p);
                        lemma_score_at(s1, k, p);
                    }
                    assert forall|p: int| 0 <= p < s1.len() implies s1[p].1 <= MAX_SCORE by {
                        if p != i {
                            assert(s1[p] == s0[p]);
                        }
                    }
                    assert forall|p: int, q: int| 0 <= p < q < s1.len() implies s1[p].0
                        != s1[q].0 by {
                        assert(s1[p].0 == s0[p].0 && s1[q].0 == s0[q].0);
                    }
                    assert(self@.attestations == old(self)@.attestations);
                    assert(forall|p: int, q: int|
                        0 <= p < q < self@.attestations.len() ==> self@.attestations[p].0
                            != self@.attestations[q].0);
                    assert(forall|p: int|
                        0 <= p < self@.attestations.len() ==> all_valid(
                            #[trigger] self@.attestations[p].1,
                        ));
                    assert(self.wf());
                }
            },
            None => {
                let ghost d = did@;
                self.scores.push((did, value));
                proof {
                    let s1 = self@.scores;
                    assert(s1 =~= s0.push((d, value)));
                    assert forall|p: int| 0 <= p < s0.len() implies s0[p].0 != d by {
                        assert(s0[p].0 == old(self).scores@[p].0@);
                    }
                    assert forall|p: int, q: int| 0 <= p < q < s1.len() implies s1[p].0
                        != s1[q].0 by {
                        if q < s0.len() {
                            assert(s1[p] == s0[p] && s1[q] == s0[q]);
                        } else {
                            assert(s1[q].0 == d);
                            assert(s1[p] == s0[p]);
                        }
                    }
                    lemma_score_at(s1, d, s0.len() as int);
                    assert forall|k: Seq<char>|
                        has_score(s1, k) <==> has_score(s0, k) || k == d by {
                        if has_score(s1, k) {
                            let p = choose|p: int| 0 <= p < s1.len() && s1[p].0 == k;
                            if p < s0.len() {
                                assert(s0[p].0 == k);
                            }
                        }
                        if has_score(s0, k) {
                            let p = choose|p: int| 0 <= p < s0.len() && s0[p].0 == k;
                            assert(s1[p].0 == k);
                        }
                    }
                    assert forall|k: Seq<char>| k != d && has_score(s0, k) implies score_of(
                        s1,
                        k,
                    ) == score_of(s0, k) by {
                        let p = choose|p: int| 0 <= p < s0.len() && s0[p].0 == k;
                        lemma_score_at(s0, k, p);
                        lemma_score_at(s1, k, p);
                    }
                    assert forall|p: int| 0 <= p < s1.len() implies s1[p].1 <= MAX_SCORE by {
                        if p < s0.len() {
                            assert(s1[p] == s0[p]);
                        }
                    }
                    assert(self@.attestations == old(self)@.attestations);
                    assert(self.wf());
                }
            },
        }
    }

    /// Appends an attestation to its target's list and recomputes that
    /// target's score as of `now`. Other identities are untouched.
    pub fn add_attestation(&mut self, attestation: ReputationAttestation, now: u64)
        requires
            old(self).wf(),
            attestation.score <= MAX_SCORE,
        ensures
            final(self).wf(),
            has_target(final(self)@.attestations, attestation@.target_did),
            atts_of(final(self)@.attestations, attestation@.target_did) == atts_of(
                old(self)@.attestations,
                attestation@.target_did,
            ).push(attestation@),
            forall|k: Seq<char>|
                has_target(final(self)@.attestations, k) <==> has_target(
                    old(self)@.attestations,
                    k,
                ) || k == attestation@.target_did,
            forall|k: Seq<char>|
                k != attestation@.target_did ==> #[trigger] atts_of(final(self)@.attestations, k)
                    == atts_of(old(self)@.attestations, k),
            has_score(final(self)@.scores, attestation@.target_did),
            score_of(final(self)@.scores, attestation@.target_did) == spec_score(
                atts_of(final(self)@.attestations, attestation@.target_did),
                now,
            ),
            forall|k: Seq<char>|
                k != attestation@.target_did && has_score(old(self)@.scores, k)
                    ==> #[trigger] score_of(final(self)@.scores, k) == score_of(
                    old(self)@.scores,
                    k,
                ),
    {
        let ghost a0 = self@.attestations;
        let ghost t = attestation@.target_did;
        let target = attestation.target_did.clone();
        match find_target_index(&self.attestations, attestation.target_did.as_str()) {
            Some(i) => {
                let mut items = clone_att_list(&self.attestations[i].1);
                items.push(attestation);
                proof {
                    assert(views_of_atts(items@) =~= a0[i as int].1.push(
                        views_of_atts(items@).last(),
                    ));
                    assert(all_valid(views_of_atts(items@)));
                }
                let value = compute_score(&items, now);
                let name = self.attestations[i].0.clone();
                self.attestations.set(i, (name, items));
                proof {
                    let a1 = self@.attestations;
                    assert(a1 =~= a0.update(i as int, (a0[i as int].0, a1[i as int].1)));
                    assert(forall|p: int| 0 <= p < a1.len() ==> a1[p].0 == a0[p].0);
                    lemma_target_at(a0, t, i as int);
                    lemma_target_at(a1, t, i as int);
                    assert forall|k: Seq<char>|
                        has_target(a1, k) <==> has_target(a0, k) || k == t by {
                        if has_target(a1, k) {
                            let p = choose|p: int| 0 <= p < a1.len() && a1[p].0 == k;
                            assert(a0[p].0 == k);
                        }
                        if has_target(a0, k) {
                            let p = choose|p: int| 0 <= p < a0.len() && a0[p].0 == k;
                            assert(a1[p].0 == k);
                        }
                    }
                    assert forall|k: Seq<char>| k != t implies atts_of(a1, k) == atts_of(
                        a0,
                        k,
                    ) by {
                        if has_target(a0, k) {
                            let p = choose|p: int| 0 <= p < a0.len() && a0[p].0 == k;
                            lemma_target_at(a0, k, p);
                            lemma_target_at(a1, k, p);
                        } else {
                            assert(!has_target(a1, k));
                        }
                    }
                    assert forall|p: int| 0 <= p < a1.len() implies all_valid(a1[p].1) by {
                        if p != i {
                            assert(a1[p] == a0[p]);
                        }
                    }
                    assert forall|p: int, q: int| 0 <= p < q < a1.len() implies a1[p].0
                        != a1[q].0 by {
                        assert(a1[p].0 == a0[p].0 && a1[q].0 == a0[q].0);
                    }
                    assert(self@.scores == old(self)@.scores);
                    assert(forall|p: int, q: int|
                        0 <= p < q < self@.scores.len() ==> self@.scores[p].0
                            != self@.scores[q].0);
                    assert(forall|p: int|
                        0 <= p < self@.scores.len() ==> (#[trigger] self@.scores[p].1)
                            <= MAX_SCORE);
                    assert(self.wf());
                }
                self.upsert_score(target, value);
            },
            None => {
                let mut items: Vec<ReputationAttestation> = Vec::new();
                items.push(attestation);
                proof {
                    assert(all_valid(views_of_atts(items@)));
                }
                let value = compute_score(&items, now);
                let name = target.clone();
                let ghost iv = views_of_atts(items@);
                self.attestations.push((name, items));
                proof {
                    let a1 = self@.attestations;
                    assert(a1[a0.len() as int].1 == iv);
                    assert(a1 =~= a0.push((t, a1[a0.len() as int].1)));
                    assert forall|p: int| 0 <= p < a0.len() implies a0[p].0 != t by {
                        assert(a0[p].0 == old(self).attestations@[p].0@);
                    }
                    assert forall|p: int, q: int| 0 <= p < q < a1.len() implies a1[p].0
                        != a1[q].0 by {
                        if q < a0.len() {
                            assert(a1[p] == a0[p] && a1[q] == a0[q]);
                        } else {
                            assert(a1[q].0 == t);
                            assert(a1[p] == a0[p]);
                        }
                    }
                    lemma_target_at(a1, t, a0.len() as int);
                    assert(!has_target(a0, t));
                    assert(atts_of(a0, t) =~= Seq::<AttestationView>::empty());
                    assert(atts_of(a1, t) =~= atts_of(a0, t).push(a1[a0.len() as int].1.last()));
                    assert forall|k: Seq<char>|
                        has_target(a1, k) <==> has_target(a0, k) || k == t by {
                        if has_target(a1, k) {
                            let p = choose|p: int| 0 <= p < a1.len() && a1[p].0 == k;
                            if p < a0.len() {
                                assert(a0[p].0 == k);
                            }
                        }
                        if has_target(a0, k) {
                            let p = choose|p: int| 0 <= p < a0.len() && a0[p].0 == k;
                            assert(a1[p].0 == k);
                        }
                    }
                    assert forall|k: Seq<char>| k != t implies atts_of(a1, k) == atts_of(
                        a0,
                        k,
                    ) by {
                        if has_target(a0, k) {
                            let p = choose|p: int| 0 <= p < a0.len() && a0[p].0 == k;
                            lemma_target_at(a0, k, p);
                            lemma_target_at(a1, k, p);
                        } else {
                            assert(!has_target(a1, k));
                        }
                    }
                    assert forall|p: int| 0 <= p < a1.len() implies all_valid(a1[p].1) by {
                        if p < a0.len() {
                            assert(a1[p] == a0[p]);
                        } else {
                            assert(a1[p].1 == iv);
                        }
                    }
                    assert(self@.scores == old(self)@.scores);
                    assert(forall|p: int, q: int|
                        0 <= p < q < self@.scores.len() ==> self@.scores[p].0
                            != self@.scores[q].0);
                    assert(forall|p: int|
                        0 <= p < self@.scores.len() ==> (#[trigger] self@.scores[p].1)
                            <= MAX_SCORE);
                    assert(self.wf());
                }
                self.upsert_score(target, value);
            },
        }
    }

    /// The identity's stored score, zero for an unknown identity. The value
    /// reflects decay as of the last write to that identity's list.
    pub fn get_reputation(&self, did: &str) -> (r: u64)
        requires
            self.wf(),
        ensures
            r == score_of(self@.scores, did@),
    {
        match find_score_index(&self.scores, did) {
            Some(i) => {
                proof {
                    lemma_score_at(self@.scores, did@, i as int);
                }
                self.scores[i].1
            },
            None => {
                proof {
                    assert forall|p: int| 0 <= p < self@.scores.len() implies self@.scores[p].0
                        != did@ by {
                        assert(self@.scores[p].0 == self.scores@[p].0@);
                    }
                }
                0
            },
        }
    }

    /// The identity's attestations, in append order; empty for an unknown
    /// identity.
    pub fn get_attestations(&self, did: &str) -> (r: Vec<ReputationAttestation>)
        requires
            self.wf(),
        ensures
            views_of_atts(r@) == atts_of(self@.attestations, did@),
    {
        match find_target_index(&self.attestations, did) {
            Some(i) => {
                proof {
                    lemma_target_at(self@.attestations, did@, i as int);
                }
                clone_att_list(&self.attestations[i].1)
            },
            None => {
                proof {
                    assert forall|p: int| 0 <= p < self@.attestations.len() implies
                        self@.attestations[p].0 != did@ by {
                        assert(self@.attestations[p].0 == self.attestations@[p].0@);
                    }
                    assert(views_of_atts(Seq::<ReputationAttestation>::empty())
                        =~= Seq::<AttestationView>::empty());
                }
                Vec::new()
            },
        }
    }

    /// Removes the attestations of one target that match the attester and
    /// timestamp exactly, then recomputes that target's score as of `now`.
    /// An unknown target leaves the ledger unchanged.
    pub fn remove_attestation(&mut self, target_did: &str, attester_did: &str, timestamp: u64, now: u64)
        requires
            old(self).wf(),
        ensures
            final(self).wf(),
            has_target(old(self)@.attestations, target_did@) ==> {
                &&& atts_of(final(self)@.attestations, target_did@) == without_match(
                    atts_of(old(self)@.attestations, target_did@),
                    attester_did@,
                    timestamp,
                )
                &&& has_score(final(self)@.scores, target_did@)
                &&& score_of(final(self)@.scores, target_did@) == spec_score(
                    atts_of(final(self)@.attestations, target_did@),
                    now,
                )
            },
            !has_target(old(self)@.attestations, target_did@) ==> *final(self) == *old(self),
            forall|k: Seq<char>|
                has_target(final(self)@.attestations, k) <==> has_target(
                    old(self)@.attestations,
                    k,
                ),
            forall|k: Seq<char>|
                k != target_did@ ==> #[trigger] atts_of(final(self)@.attestations, k) == atts_of(
                    old(self)@.attestations,
                    k,
                ),
            forall|k: Seq<char>|
                k != target_did@ && has_score(old(self)@.scores, k) ==> #[trigger] score_of(
                    final(self)@.scores,
                    k,
                ) == score_of(old(self)@.scores, k),
    {
        let ghost a0 = self@.attestations;
        let ghost t = target_did@;
        match find_target_index(&self.attestations, target_did) {
            Some(i) => {
                proof {
                    lemma_target_at(a0, t, i as int);
                }
                let src = &self.attestations[i].1;
                let mut kept: Vec<ReputationAttestation> = Vec::new();
                let mut j: usize = 0;
                proof {
                    assert(views_of_atts(kept@) =~= without_match(
                        views_of_atts(self.attestations@[i as int].1@).take(0),
                        attester_did@,
                        timestamp,
                    ));
                }
                while j < src.len()
                    invariant
                        j <= src@.len(),
                        views_of_atts(kept@) == without_match(
                            views_of_atts(src@).take(j as int),
                            attester_did@,
                            timestamp,
                        ),
                        kept@.len() <= j,
                    decreases src@.len() - j,
                {
                    let ghost kv = views_of_atts(kept@);
                    let ghost vs = views_of_atts(src@);
                    let a = &src[j];
                    let matches_exactly = str_eq(a.attester_did.as_str(), attester_did)
                        && a.timestamp == timestamp;
                    if !matches_exactly {
                        kept.push(a.clone());
                    }
                    proof {
                        assert(vs.take(j + 1).drop_last() =~= vs.take(j as int));
                        assert(vs.take(j + 1).last() == vs[j as int]);
                        if !matches_exactly {
                            assert(views_of_atts(kept@) =~= kv + seq![vs[j as int]]);
                        } else {
                            assert(views_of_atts(kept@) =~= kv);
                            assert(kv + Seq::<AttestationView>::empty() =~= kv);
                        }
                    }
                    j += 1;
                }
                proof {
                    let vs = views_of_atts(src@);
                    assert(vs.take(vs.len() as int) =~= vs);
                    lemma_without_match_valid(vs, attester_did@, timestamp);
                }
                let value = compute_score(&kept, now);
                let name = self.attestations[i].0.clone();
                let target_owned = self.attestations[i].0.clone();
                self.attestations.set(i, (name, kept));
                proof {
                    let a1 = self@.attestations;
                    assert(a1 =~= a0.update(i as int, (a0[i as int].0, a1[i as int].1)));
                    assert(forall|p: int| 0 <= p < a1.len() ==> a1[p].0 == a0[p].0);
                    lemma_target_at(a1, t, i as int);
                    assert forall|k: Seq<char>|
                        has_target(a1, k) <==> has_target(a0, k) by {
                        if has_target(a1, k) {
                            let p = choose|p: int| 0 <= p < a1.len() && a1[p].0 == k;
                            assert(a0[p].0 == k);
                        }
                        if has_target(a0, k) {
                            let p = choose|p: int| 0 <= p < a0.len() && a0[p].0 == k;
                            assert(a1[p].0 == k);
                        }
                    }
                    assert forall|k: Seq<char>| k != t implies atts_of(a1, k) == atts_of(
                        a0,
                        k,
                    ) by {
                        if has_target(a0, k) {
                            let p = choose|p: int| 0 <= p < a0.len() && a0[p].0 == k;
                            lemma_target_at(a0, k, p);
                            lemma_target_at(a1, k, p);
                        } else {
                            assert(!has_target(a1, k));
                        }
                    }
                    assert forall|p: int| 0 <= p < a1.len() implies all_valid(a1[p].1) by {
                        if p != i {
                            assert(a1[p] == a0[p]);
                        }
                    }
                    assert forall|p: int, q: int| 0 <= p < q < a1.len() implies a1[p].0
                        != a1[q].0 by {
                        assert(a1[p].0 == a0[p].0 && a1[q].0 == a0[q].0);
                    }
                    assert(self@.scores == old(self)@.scores);
                    assert(forall|p: int, q: int|
                        0 <= p < q < self@.scores.len() ==> self@.scores[p].0
                            != self@.scores[q].0);
                    assert(forall|p: int|
                        0 <= p < self@.scores.len() ==> (#[trigger] self@.scores[p].1)
                            <= MAX_SCORE);
                    assert(self.wf());
                }
                self.upsert_score(target_owned, value);
            },
            None => {
                proof {
                    assert forall|p: int| 0 <= p < a0.len() implies a0[p].0 != t by {
                        assert(a0[p].0 == self.attestations@[p].0@);
                    }
                }
            },
        }
    }

    /// The known identities with their stored scores, highest score first,
    /// at most `limit` of them; every identity left out scores no higher
    /// than any returned one. Tie order is unspecified.
    pub fn get_top_nodes(&self, limit: usize) -> (r: Vec<(String, u64)>)
        requires
            self.wf(),
        ensures
            scores_view(r@).len() == if limit <= self@.scores.len() {
                limit as int
            } else {
                self@.scores.len() as int
            },
            forall|i: int, j: int|
                0 <= i < j < r@.len() ==> #[trigger] scores_view(r@)[i].1 >= #[trigger] scores_view(
                    r@,
                )[j].1,
            exists|full: Seq<(Seq<char>, u64)>|
                {
                    &&& #[trigger] full.to_multiset() == self@.scores.to_multiset()
                    &&& forall|i: int, j: int| 0 <= i < j < full.len() ==> full[i].1 >= full[j].1
                    &&& scores_view(r@) == full.take(r@.len() as int)
                },
    {
        broadcast use vstd::seq_lib::group_to_multiset_ensures;

        let mut src = clone_score_pairs(&self.scores);
        let mut res: Vec<(String, u64)> = Vec::new();
        proof {
            assert(scores_view(res@) =~= Seq::<(Seq<char>, u64)>::empty());
            assert(scores_view(src@).to_multiset().add(scores_view(res@).to_multiset())
                =~= self@.scores.to_multiset());
        }
        while src.len() > 0
            invariant
                self.wf(),
                src@.len() + res@.len() == self@.scores.len(),
                scores_view(src@).to_multiset().add(scores_view(res@).to_multiset())
                    == self@.scores.to_multiset(),
                forall|i: int, j: int|
                    0 <= i < j < res@.len() ==> #[trigger] scores_view(res@)[i].1
                        >= #[trigger] scores_view(res@)[j].1,
                forall|p: int|
                    0 <= p < src@.len() && res@.len() > 0 ==> #[trigger] scores_view(src@)[p].1
                        <= scores_view(res@)[res@.len() - 1].1,
            decreases src@.len(),
        {
            broadcast use vstd::seq_lib::group_to_multiset_ensures;

            let mut best: usize = 0;
            let mut m: usize = 1;
            while m < src.len()
                invariant
                    src@.len() > 0,
                    best < m,
                    m <= src@.len(),
                    forall|p: int| 0 <= p < m ==> src@[p].1 <= src@[best as int].1,
                decreases src@.len() - m,
            {
                if src[m].1 > src[best].1 {
                    best = m;
                }
                m += 1;
            }
            let ghost src0 = src@;
            let ghost res0 = res@;
            let pair = src.remove(best);
            proof {
                assert(scores_view(src@) =~= scores_view(src0).remove(best as int));
                assert(scores_view(src0)[best as int] == (pair.0@, pair.1));
            }
            let ghost pv = (pair.0@, pair.1);
            res.push(pair);
            proof {
                assert(scores_view(res@) =~= scores_view(res0).push(pv));
                assert(scores_view(src@).to_multiset().add(scores_view(res@).to_multiset())
                    =~= scores_view(src0).to_multiset().add(scores_view(res0).to_multiset()));
                assert forall|i: int, j: int|
                    0 <= i < j < res@.len() implies #[trigger] scores_view(res@)[i].1
                    >= #[trigger] scores_view(res@)[j].1 by {
                    if j < res0.len() {
                        assert(scores_view(res@)[i] == scores_view(res0)[i]);
                        assert(scores_view(res@)[j] == scores_view(res0)[j]);
                    } else {
                        assert(scores_view(res@)[j] == pv);
                        assert(scores_view(res@)[i] == scores_view(res0)[i]);
                        if res0.len() > 0 {
                            assert(scores_view(src0)[best as int].1 <= scores_view(res0)[res0.len()
                                - 1].1);
                        }
                    }
                }
                assert forall|p: int| 0 <= p < src@.len() && res@.len() > 0 implies
                    #[trigger] scores_view(src@)[p].1 <= scores_view(res@)[res@.len() - 1].1 by {
                    let q = if p < best { p } else { p + 1 };
                    assert(scores_view(src@)[p] == scores_view(src0)[q]);
                    assert(src0[q].1 <= src0[best as int].1);
                }
            }
        }
        proof {
            assert(scores_view(src@) =~= Seq::<(Seq<char>, u64)>::empty());
            assert(scores_view(src@).to_multiset() =~= Multiset::<(Seq<char>, u64)>::empty());
            assert(scores_view(res@).to_multiset() =~= self@.scores.to_multiset());
        }
        let ghost full = scores_view(res@);
        if res.len() > limit {
            res.truncate(limit);
            proof {
                assert(scores_view(res@) =~= full.take(limit as int));
            }
        } else {
            proof {
                assert(scores_view(res@) =~= full.take(res@.len() as int));
            }
        }
        res
    }

    /// Aggregate counts: known identities, total attestations, and the mean
    /// stored score across known identities (in millionths).
    pub fn get_stats(&self) -> (r: ReputationStats)
        requires
            self.wf(),
            total_atts(self@.attestations) <= usize::MAX,
        ensures
            r.total_nodes == self@.scores.len(),
            r.total_attestations == total_atts(self@.attestations),
            r.average_score == if self@.scores.len() > 0 {
                (score_total(self@.scores) / (self@.scores.len() as int)) as u64
            } else {
                0
            },
    {
        let mut total_attestations: usize = 0;
        let mut i: usize = 0;
        proof {
            assert(self@.attestations.take(0) =~= Seq::<(Seq<char>, Seq<AttestationView>)>::empty());
            lemma_total_atts_bounds(self@.attestations, 0);
        }
        while i < self.attestations.len()
            invariant
                self.wf(),
                total_atts(self@.attestations) <= usize::MAX,
                i <= self@.attestations.len(),
                total_attestations == total_atts(self@.attestations.take(i as int)),
            decreases self@.attestations.len() - i,
        {
            proof {
                let a = self@.attestations;
                assert(a.take(i + 1).drop_last() =~= a.take(i as int));
                assert(a.take(i + 1).last() == a[i as int]);
                assert(a[i as int].1 == views_of_atts(self.attestations@[i as int].1@));
                lemma_total_atts_bounds(a, i + 1);
            }
            total_attestations += self.attestations[i].1.len();
            i += 1;
        }
        proof {
            assert(self@.attestations.take(self@.attestations.len() as int)
                =~= self@.attestations);
        }
        let mut score_sum: u128 = 0;
        let mut j: usize = 0;
        proof {
            assert(self@.scores.take(0) =~= Seq::<(Seq<char>, u64)>::empty());
        }
        while j < self.scores.len()
            invariant
                self.wf(),
                j <= self@.scores.len(),
                score_sum == score_total(self@.scores.take(j as int)),
                score_sum <= j * (MAX_SCORE as int),
            decreases self@.scores.len() - j,
        {
            proof {
                let sv = self@.scores;
                assert(sv.take(j + 1).drop_last() =~= sv.take(j as int));
                assert(sv.take(j + 1).last() == sv[j as int]);
                assert(sv[j as int].1 <= MAX_SCORE);
            }
            score_sum += self.scores[j].1 as u128;
            j += 1;
        }
        proof {
            assert(self@.scores.take(self@.scores.len() as int) =~= self@.scores);
        }
        let total_nodes = self.scores.len();
        let average_score: u64 = if total_nodes > 0 {
            proof {
                lemma_score_total_bounds(self@.scores);
                lemma_div_is_ordered(
                    score_total(self@.scores),
                    (self@.scores.len() as int) * (MAX_SCORE as int),
                    self@.scores.len() as int,
                );
                lemma_div_multiples_vanish(MAX_SCORE as int, self@.scores.len() as int);
                assert((self@.scores.len() as int) * (MAX_SCORE as int) == (MAX_SCORE as int) * (
                self@.scores.len() as int)) by {
                    lemma_mul_comm(self@.scores.len() as int, MAX_SCORE as int);
                }
                assert(score_total(self@.scores) / (self@.scores.len() as int) >= 0) by {
                    vstd::arithmetic::div_mod::lemma_div_pos_is_pos(
                        score_total(self@.scores),
                        self@.scores.len() as int,
                    );
                }
            }
            (score_sum / (total_nodes as u128)) as u64
        } else {
            0
        };
        ReputationStats { total_nodes, total_attestations, average_score }
    }
}

/// The total number of stored attestations.
pub open spec fn total_atts(lists: Seq<(Seq<char>, Seq<AttestationView>)>) -> int
    decreases lists.len(),
{
    if lists.len() == 0 {
        0
    } else {
        total_atts(lists.drop_last()) + lists.last().1.len()
    }
}

/// A prefix's attestation total is nonnegative and within the whole total.
pub proof fn lemma_total_atts_bounds(lists: Seq<(Seq<char>, Seq<AttestationView>)>, i: int)
    requires
        0 <= i <= lists.len(),
    ensures
        0 <= total_atts(lists.take(i)),
        total_atts(lists.take(i)) <= total_atts(lists),
    decreases lists.len() - i, lists.len(),
{
    lemma_total_atts_nonneg(lists.take(i));
    if i == lists.len() {
        assert(lists.take(i) =~= lists);
        lemma_total_atts_nonneg(lists);
    } else {
        lemma_total_atts_bounds(lists, i + 1);
        assert(lists.take(i + 1).drop_last() =~= lists.take(i));
        assert(lists.take(i + 1).last() == lists[i]);
    }
}

/// An attestation total is never negative.
pub proof fn lemma_total_atts_nonneg(lists: Seq<(Seq<char>, Seq<AttestationView>)>)
    ensures
        0 <= total_atts(lists),
    decreases lists.len(),
{
    if lists.len() > 0 {
        lemma_total_atts_nonneg(lists.drop_last());
    }
}

/// The sum of the stored scores.
pub open spec fn score_total(scores: Seq<(Seq<char>, u64)>) -> int
    decreases scores.len(),
{
    if scores.len() == 0 {
        0
    } else {
        score_total(scores.drop_last()) + scores.last().1
    }
}

/// A sum of admissible scores is nonnegative and within the count times the
/// cap.
pub proof fn lemma_score_total_bounds(scores: Seq<(Seq<char>, u64)>)
    requires
        forall|i: int| 0 <= i < scores.len() ==> (#[trigger] scores[i].1) <= MAX_SCORE,
    ensures
        0 <= score_total(scores),
        score_total(scores) <= scores.len() * (MAX_SCORE as int),
    decreases scores.len(),
{
    if scores.len() > 0 {
        lemma_score_total_bounds(scores.drop_last());
    }
}

/// Copies a score list; the copy views the same.
pub fn clone_score_pairs(v: &Vec<(String, u64)>) -> (r: Vec<(String, u64)>)
    ensures
        scores_view(r@) == scores_view(v@),
        r@.len() == v@.len(),
{
    let mut r: Vec<(String, u64)> = Vec::new();
    let mut i: usize = 0;
    while i < v.len()
        invariant
            i <= v@.len(),
            r@.len() == i,
            forall|j: int| 0 <= j < i ==> r@[j].0@ == v@[j].0@ && r@[j].1 == v@[j].1,
        decreases v@.len() - i,
    {
        let name = v[i].0.clone();
        r.push((name, v[i].1));
        i += 1;
    }
    proof {
        assert(scores_view(r@) =~= scores_view(v@));
    }
    r
}

/// Aggregate counts surfaced to the API boundary. The average score is in
/// millionths (`SCORE_SCALE` units per whole point).
#[derive(Debug, Clone, Copy, PartialEq, Eq, Structural)]
pub struct ReputationStats {
    pub total_nodes: usize,
    pub total_attestations: usize,
    pub average_score: u64,
}

} // verus!
