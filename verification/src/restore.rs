//! Rebuilding the controller's working state from its ledger. The events are replayed in order;
//! the outcome names, for every table, which recorded event each entry comes from, so the caller
//! assembles the state from the events themselves.

use crate::crypto::sha256_of;
use crate::policy::{signature_valid_spec, verify_artifact_replica_receipt};
use crate::protocol::{
    ArtifactRefV1, ArtifactReplicaReceiptV1, CapabilityLeaseV1, JobSpecV1, NodeIdentityV1, ResourceOfferV1, ShardSetV1,
};
use vstd::prelude::*;

verus! {

/// The value stored under a key in a keyed table: that of its first entry.
pub open spec fn lookup<V>(t: Seq<(u128, V)>, key: u128) -> Option<V>
    decreases t.len(),
{
    if t.len() == 0 {
        None
    } else if t[0].0 == key {
        Some(t[0].1)
    } else {
        lookup(t.skip(1), key)
    }
}

/// A keyed table as a map.
pub open spec fn table_map<V>(t: Seq<(u128, V)>) -> Map<u128, V> {
    Map::new(|k: u128| lookup(t, k) is Some, |k: u128| lookup(t, k)->0)
}

/// The value stored under a text-and-node key: that of its first entry.
pub open spec fn lookup_pair<V>(t: Seq<((String, u128), V)>, text: Seq<char>, node: u128) -> Option<V>
    decreases t.len(),
{
    if t.len() == 0 {
        None
    } else if t[0].0.0@ == text && t[0].0.1 == node {
        Some(t[0].1)
    } else {
        lookup_pair(t.skip(1), text, node)
    }
}

/// A table keyed by text and node as a map.
pub open spec fn pair_map<V>(t: Seq<((String, u128), V)>) -> Map<(Seq<char>, u128), V> {
    Map::new(|k: (Seq<char>, u128)| lookup_pair(t, k.0, k.1) is Some, |k: (Seq<char>, u128)| lookup_pair(t, k.0, k.1)->0)
}

proof fn lemma_lookup_update<V>(t: Seq<(u128, V)>, i: int, key: u128, value: V, q: u128)
    requires
        0 <= i < t.len(),
        t[i].0 == key,
        forall|j: int| 0 <= j < i ==> t[j].0 != key,
    ensures
        lookup(t.update(i, (key, value)), q) == if q == key { Some(value) } else { lookup(t, q) },
    decreases t.len(),
{
    let u = t.update(i, (key, value));
    if i == 0 {
        assert(u.skip(1) =~= t.skip(1));
    } else {
        assert(u.skip(1) =~= t.skip(1).update(i - 1, (key, value)));
        lemma_lookup_update(t.skip(1), i - 1, key, value, q);
    }
}

proof fn lemma_lookup_push<V>(t: Seq<(u128, V)>, key: u128, value: V, q: u128)
    requires
        forall|j: int| 0 <= j < t.len() ==> t[j].0 != key,
    ensures
        lookup(t.push((key, value)), q) == if q == key { Some(value) } else { lookup(t, q) },
    decreases t.len(),
{
    let u = t.push((key, value));
    if t.len() == 0 {
        assert(u.skip(1) =~= Seq::<(u128, V)>::empty());
    } else {
        assert(u.skip(1) =~= t.skip(1).push((key, value)));
        lemma_lookup_push(t.skip(1), key, value, q);
    }
}

proof fn lemma_lookup_absent<V>(t: Seq<(u128, V)>, key: u128)
    requires
        forall|j: int| 0 <= j < t.len() ==> t[j].0 != key,
    ensures
        lookup(t, key) is None,
    decreases t.len(),
{
    if t.len() > 0 {
        lemma_lookup_absent(t.skip(1), key);
    }
}

proof fn lemma_lookup_found<V>(t: Seq<(u128, V)>, i: int, key: u128)
    requires
        0 <= i < t.len(),
        t[i].0 == key,
        forall|j: int| 0 <= j < i ==> t[j].0 != key,
    ensures
        lookup(t, key) == Some(t[i].1),
    decreases t.len(),
{
    if i > 0 {
        lemma_lookup_found(t.skip(1), i - 1, key);
    }
}

/// The position of the first entry under `key`, if any.
fn table_find<V>(t: &Vec<(u128, V)>, key: u128) -> (r: Option<usize>)
    ensures
        match r {
            Some(i) => i < t@.len() && t@[i as int].0 == key && forall|j: int| 0 <= j < i ==> t@[j].0 != key,
            None => forall|j: int| 0 <= j < t@.len() ==> t@[j].0 != key,
        },
{
    let mut i: usize = 0;
    while i < t.len()
        invariant
            i <= t@.len(),
            forall|j: int| 0 <= j < i ==> t@[j].0 != key,
        decreases t@.len() - i,
    {
        if t[i].0 == key {
            return Some(i);
        }
        i = i + 1;
    }
    None
}

/// The value under `key`, copied out.
pub fn table_get<V: Copy>(t: &Vec<(u128, V)>, key: u128) -> (r: Option<V>)
    ensures
        r == lookup(t@, key),
{
    match table_find(t, key) {
        Some(i) => {
            proof {
                lemma_lookup_found(t@, i as int, key);
            }
            Some(t[i].1)
        },
        None => {
            proof {
                lemma_lookup_absent(t@, key);
            }
            None
        },
    }
}

/// Store `value` under `key`, replacing what was stored there.
pub fn table_put<V>(t: &mut Vec<(u128, V)>, key: u128, value: V)
    ensures
        table_map(final(t)@) == table_map(old(t)@).insert(key, value),
{
    let ghost before = t@;
    match table_find(t, key) {
        Some(i) => {
            t.set(i, (key, value));
            proof {
                assert forall|q: u128| lookup(t@, q) == if q == key { Some(value) } else { lookup(before, q) } by {
                    lemma_lookup_update(before, i as int, key, value, q);
                }
            }
        },
        None => {
            t.push((key, value));
            proof {
                assert forall|q: u128| lookup(t@, q) == if q == key { Some(value) } else { lookup(before, q) } by {
                    lemma_lookup_push(before, key, value, q);
                }
            }
        },
    }
    assert(table_map(t@) =~= table_map(before).insert(key, value));
}

proof fn lemma_lookup_without<V>(t: Seq<(u128, V)>, kept: Seq<(u128, V)>, key: u128, n: int, q: u128)
    requires
        0 <= n <= t.len(),
        kept == t.take(n).filter(|e: (u128, V)| e.0 != key),
    ensures
        lookup(kept, q) == if q == key { None } else { lookup(t.take(n), q) },
    decreases n,
{
    reveal_with_fuel(Seq::filter, 1);
    if n == 0 {
        assert(t.take(0) =~= Seq::<(u128, V)>::empty());
        assert(kept =~= Seq::<(u128, V)>::empty());
    } else {
        let prev = t.take(n - 1).filter(|e: (u128, V)| e.0 != key);
        assert(t.take(n).drop_last() =~= t.take(n - 1));
        lemma_lookup_without(t, prev, key, n - 1, q);
        lemma_lookup_append(t.take(n - 1), t[n - 1], q);
        assert(t.take(n) =~= t.take(n - 1).push(t[n - 1]));
        if t[n - 1].0 != key {
            assert(kept == prev.push(t[n - 1]));
            lemma_lookup_append(prev, t[n - 1], q);
        } else {
            assert(kept == prev);
        }
    }
}

proof fn lemma_lookup_append<V>(t: Seq<(u128, V)>, e: (u128, V), q: u128)
    ensures
        lookup(t.push(e), q) == match lookup(t, q) {
            Some(v) => Some(v),
            None => if e.0 == q { Some(e.1) } else { None },
        },
    decreases t.len(),
{
    reveal_with_fuel(lookup, 2);
    if t.len() == 0 {
        assert(t.push(e).skip(1) =~= Seq::<(u128, V)>::empty());
    } else {
        assert(t.push(e)[0] == t[0]);
        assert(t.push(e).skip(1) =~= t.skip(1).push(e));
        lemma_lookup_append(t.skip(1), e, q);
    }
}

/// Remove whatever is stored under `key`.
pub fn table_remove<V>(t: &mut Vec<(u128, V)>, key: u128)
    ensures
        table_map(final(t)@) == table_map(old(t)@).remove(key),
{
    let ghost before = t@;
    let ghost pred = |e: (u128, V)| e.0 != key;
    let mut rest: Vec<(u128, V)> = Vec::new();
    std::mem::swap(&mut rest, t);
    let ghost all = rest@;
    assert(all.len() <= usize::MAX) by {
        assert(rest@.len() == rest.len());
    }
    let mut k: usize = 0;
    proof {
        reveal_with_fuel(Seq::filter, 1);
        assert(all.take(0).filter(pred) =~= Seq::<(u128, V)>::empty());
        assert(rest@ =~= all.skip(0));
    }
    while rest.len() > 0
        invariant
            all == before,
            all.len() <= usize::MAX,
            k <= all.len(),
            rest@ == all.skip(k as int),
            t@ == all.take(k as int).filter(pred),
            pred == (|e: (u128, V)| e.0 != key),
        decreases rest@.len(),
    {
        let entry = rest.remove(0);
        proof {
            assert(entry == all[k as int]);
            assert(all.take(k + 1).drop_last() =~= all.take(k as int));
            assert(all.take(k + 1).last() == all[k as int]);
            assert(rest@ =~= all.skip(k + 1));
            reveal_with_fuel(Seq::filter, 1);
        }
        if entry.0 != key {
            t.push(entry);
        }
        k = k + 1;
    }
    proof {
        assert(all.take(all.len() as int) =~= all);
        assert forall|q: u128| lookup(t@, q) == if q == key { None } else { lookup(before, q) } by {
            lemma_lookup_without(all, t@, key, all.len() as int, q);
        }
    }
    assert(table_map(t@) =~= table_map(before).remove(key));
}

proof fn lemma_pair_update<V>(t: Seq<((String, u128), V)>, i: int, key: (String, u128), value: V, d: Seq<char>, n: u128)
    requires
        0 <= i < t.len(),
        t[i].0.0@ == key.0@ && t[i].0.1 == key.1,
        forall|j: int| 0 <= j < i ==> !(t[j].0.0@ == key.0@ && t[j].0.1 == key.1),
    ensures
        lookup_pair(t.update(i, (key, value)), d, n) == if d == key.0@ && n == key.1 {
            Some(value)
        } else {
            lookup_pair(t, d, n)
        },
    decreases t.len(),
{
    let u = t.update(i, (key, value));
    if i == 0 {
        assert(u.skip(1) =~= t.skip(1));
    } else {
        assert(u.skip(1) =~= t.skip(1).update(i - 1, (key, value)));
        lemma_pair_update(t.skip(1), i - 1, key, value, d, n);
    }
}

proof fn lemma_pair_append<V>(t: Seq<((String, u128), V)>, e: ((String, u128), V), d: Seq<char>, n: u128)
    ensures
        lookup_pair(t.push(e), d, n) == match lookup_pair(t, d, n) {
            Some(v) => Some(v),
            None => if e.0.0@ == d && e.0.1 == n { Some(e.1) } else { None },
        },
    decreases t.len(),
{
    reveal_with_fuel(lookup_pair, 2);
    if t.len() == 0 {
        assert(t.push(e).skip(1) =~= Seq::<((String, u128), V)>::empty());
    } else {
        assert(t.push(e)[0] == t[0]);
        assert(t.push(e).skip(1) =~= t.skip(1).push(e));
        lemma_pair_append(t.skip(1), e, d, n);
    }
}

pub(crate) proof fn lemma_pair_absent<V>(t: Seq<((String, u128), V)>, d: Seq<char>, n: u128)
    requires
        forall|j: int| 0 <= j < t.len() ==> !(t[j].0.0@ == d && t[j].0.1 == n),
    ensures
        lookup_pair(t, d, n) is None,
    decreases t.len(),
{
    if t.len() > 0 {
        lemma_pair_absent(t.skip(1), d, n);
    }
}

pub(crate) proof fn lemma_pair_found<V>(t: Seq<((String, u128), V)>, i: int, d: Seq<char>, n: u128)
    requires
        0 <= i < t.len(),
        t[i].0.0@ == d && t[i].0.1 == n,
        forall|j: int| 0 <= j < i ==> !(t[j].0.0@ == d && t[j].0.1 == n),
    ensures
        lookup_pair(t, d, n) == Some(t[i].1),
    decreases t.len(),
{
    if i > 0 {
        lemma_pair_found(t.skip(1), i - 1, d, n);
    }
}

pub(crate) fn pair_find<V>(t: &Vec<((String, u128), V)>, digest: &str, node: u128) -> (r: Option<usize>)
    ensures
        match r {
            Some(i) => i < t@.len() && t@[i as int].0.0@ == digest@ && t@[i as int].0.1 == node && forall|j: int|
                0 <= j < i ==> !(t@[j].0.0@ == digest@ && t@[j].0.1 == node),
            None => forall|j: int| 0 <= j < t@.len() ==> !(t@[j].0.0@ == digest@ && t@[j].0.1 == node),
        },
{
    let mut i: usize = 0;
    while i < t.len()
        invariant
            i <= t@.len(),
            forall|j: int| 0 <= j < i ==> !(t@[j].0.0@ == digest@ && t@[j].0.1 == node),
        decreases t@.len() - i,
    {
        if t[i].0.1 == node && crate::text::text_eq(t[i].0.0.as_str(), digest) {
            return Some(i);
        }
        i = i + 1;
    }
    None
}

/// The value under a text-and-node key, copied out.
pub fn pair_get<V: Copy>(t: &Vec<((String, u128), V)>, digest: &str, node: u128) -> (r: Option<V>)
    ensures
        r == lookup_pair(t@, digest@, node),
{
    match pair_find(t, digest, node) {
        Some(i) => {
            proof {
                lemma_pair_found(t@, i as int, digest@, node);
            }
            Some(t[i].1)
        },
        None => {
            proof {
                lemma_pair_absent(t@, digest@, node);
            }
            None
        },
    }
}

/// Store `value` under a text-and-node key, replacing what was stored there.
pub fn pair_put<V>(t: &mut Vec<((String, u128), V)>, digest: &str, node: u128, value: V)
    ensures
        pair_map(final(t)@) == pair_map(old(t)@).insert((digest@, node), value),
{
    let ghost before = t@;
    let key = (digest.to_string(), node);
    let ghost k = key;
    let ghost v = value;
    match pair_find(t, digest, node) {
        Some(i) => {
            t.set(i, (key, value));
            proof {
                assert forall|d: Seq<char>, n: u128| lookup_pair(t@, d, n) == if d == digest@ && n == node {
                    Some(v)
                } else {
                    lookup_pair(before, d, n)
                } by {
                    lemma_pair_update(before, i as int, k, v, d, n);
                }
            }
        },
        None => {
            t.push((key, value));
            proof {
                assert forall|d: Seq<char>, n: u128| lookup_pair(t@, d, n) == if d == digest@ && n == node {
                    Some(v)
                } else {
                    lookup_pair(before, d, n)
                } by {
                    lemma_pair_append(before, (k, v), d, n);
                    if d == digest@ && n == node {
                        lemma_pair_absent(before, d, n);
                    }
                }
            }
        },
    }
    assert(pair_map(t@) =~= pair_map(before).insert((digest@, node), v));
}

proof fn lemma_pair_without<V>(
    t: Seq<((String, u128), V)>,
    kept: Seq<((String, u128), V)>,
    digest: Seq<char>,
    node: u128,
    n: int,
    d: Seq<char>,
    q: u128,
    pred: spec_fn(((String, u128), V)) -> bool,
)
    requires
        0 <= n <= t.len(),
        forall|e: ((String, u128), V)| #[trigger] pred(e) == !(e.0.0@ == digest && e.0.1 == node),
        kept == t.take(n).filter(pred),
    ensures
        lookup_pair(kept, d, q) == if d == digest && q == node { None } else { lookup_pair(t.take(n), d, q) },
    decreases n,
{
    reveal_with_fuel(Seq::filter, 1);
    if n == 0 {
        assert(t.take(0) =~= Seq::<((String, u128), V)>::empty());
        assert(kept =~= Seq::<((String, u128), V)>::empty());
    } else {
        let prev = t.take(n - 1).filter(pred);
        assert(t.take(n).drop_last() =~= t.take(n - 1));
        lemma_pair_without(t, prev, digest, node, n - 1, d, q, pred);
        lemma_pair_append(t.take(n - 1), t[n - 1], d, q);
        assert(t.take(n) =~= t.take(n - 1).push(t[n - 1]));
        if pred(t[n - 1]) {
            assert(kept == prev.push(t[n - 1]));
            lemma_pair_append(prev, t[n - 1], d, q);
        } else {
            assert(kept == prev);
        }
    }
}

/// Remove whatever is stored under a text-and-node key.
pub fn pair_remove<V>(t: &mut Vec<((String, u128), V)>, digest: &str, node: u128)
    ensures
        pair_map(final(t)@) == pair_map(old(t)@).remove((digest@, node)),
{
    let ghost before = t@;
    let ghost pred = |e: ((String, u128), V)| !(e.0.0@ == digest@ && e.0.1 == node);
    let mut rest: Vec<((String, u128), V)> = Vec::new();
    std::mem::swap(&mut rest, t);
    let ghost all = rest@;
    assert(all.len() <= usize::MAX) by {
        assert(rest@.len() == rest.len());
    }
    let mut k: usize = 0;
    proof {
        reveal_with_fuel(Seq::filter, 1);
        assert(all.take(0).filter(pred) =~= Seq::<((String, u128), V)>::empty());
        assert(rest@ =~= all.skip(0));
    }
    while rest.len() > 0
        invariant
            all == before,
            all.len() <= usize::MAX,
            k <= all.len(),
            rest@ == all.skip(k as int),
            t@ == all.take(k as int).filter(pred),
            pred == (|e: ((String, u128), V)| !(e.0.0@ == digest@ && e.0.1 == node)),
        decreases rest@.len(),
    {
        let entry = rest.remove(0);
        proof {
            assert(entry == all[k as int]);
            assert(all.take(k + 1).drop_last() =~= all.take(k as int));
            assert(all.take(k + 1).last() == all[k as int]);
            assert(rest@ =~= all.skip(k + 1));
            reveal_with_fuel(Seq::filter, 1);
        }
        let matches = entry.0.1 == node && crate::text::text_eq(entry.0.0.as_str(), digest);
        if !matches {
            t.push(entry);
        }
        k = k + 1;
    }
    proof {
        assert(all.take(all.len() as int) =~= all);
        assert forall|d: Seq<char>, q: u128| lookup_pair(t@, d, q) == if d == digest@ && q == node {
            None
        } else {
            lookup_pair(before, d, q)
        } by {
            lemma_pair_without(all, t@, digest@, node, all.len() as int, d, q, pred);
        }
    }
    assert(pair_map(t@) =~= pair_map(before).remove((digest@, node)));
}

/// A ledger event as read back for replay.
#[derive(Debug)]
pub enum RestoreEvent {
    /// A node enrolled with this identity.
    NodeEnrolled(NodeIdentityV1),
    /// A node registered this offer.
    OfferRegistered(ResourceOfferV1),
    /// An enrollment invite was opened.
    InviteCreated { invite_id: u128, secret_hash: String, expires_at: i128 },
    /// The invite with this id was consumed.
    InviteConsumed(u128),
    /// A job was proposed.
    JobProposed(JobSpecV1),
    /// A capability lease was issued for a proposed job.
    LeaseIssued(CapabilityLeaseV1),
    /// A shard set was admitted with the leases of its shards.
    ShardSetAdmitted(ShardSetV1, Vec<CapabilityLeaseV1>),
    /// The job with this id was claimed by its node.
    JobClaimed(u128),
    /// The job with this id was receipted; the receipt's own id and job id, where it reads back.
    JobReceipted { job_id: u128, receipt: Option<(u128, u128)> },
    /// A replica of an artifact was recorded on a node, with the replica receipt the event carried
    /// (and that receipt's canonical JSON with its signature emptied), if any.
    ArtifactRecorded {
        node_id: u128,
        artifact: ArtifactRefV1,
        replica_receipt: Option<(ArtifactReplicaReceiptV1, Vec<u8>)>,
    },
    /// The replica evidence of an artifact on a node was invalidated.
    ReplicaInvalidated { node_id: u128, digest: String },
    /// Any other event, or one whose subject does not read back.
    Other,
}

/// Where a restored assignment's job and lease were recorded: the event of each, and within a
/// shard set event the position among the set's shards and among its leases.
#[derive(Debug, Clone, Copy, PartialEq, Eq, Structural)]
pub struct PlannedAssignment {
    pub job_event: usize,
    pub job_shard: Option<usize>,
    pub lease_event: usize,
    pub lease_index: Option<usize>,
    pub claimed: bool,
}

/// The outcome of a replay: for each table of the controller's state, its keys and the event each
/// entry comes from (receipts map receipt ids to job ids directly).
#[derive(Debug)]
pub struct RestorePlan {
    pub nodes: Vec<(u128, usize)>,
    pub offers: Vec<(u128, usize)>,
    pub invites: Vec<(u128, usize)>,
    pub proposed_jobs: Vec<(u128, usize)>,
    pub assignments: Vec<(u128, PlannedAssignment)>,
    pub completed_receipts: Vec<(u128, u128)>,
    pub shard_sets: Vec<(u128, usize)>,
    pub artifact_replicas: Vec<((String, u128), usize)>,
    pub replica_evidence: Vec<((String, u128), usize)>,
}

/// A replay outcome as maps.
#[verifier::ext_equal]
pub struct RestoreView {
    pub nodes: Map<u128, usize>,
    pub offers: Map<u128, usize>,
    pub invites: Map<u128, usize>,
    pub proposed_jobs: Map<u128, usize>,
    pub assignments: Map<u128, PlannedAssignment>,
    pub completed_receipts: Map<u128, u128>,
    pub shard_sets: Map<u128, usize>,
    pub artifact_replicas: Map<(Seq<char>, u128), usize>,
    pub replica_evidence: Map<(Seq<char>, u128), usize>,
}

impl RestorePlan {
    pub open spec fn view_spec(&self) -> RestoreView {
        RestoreView {
            nodes: table_map(self.nodes@),
            offers: table_map(self.offers@),
            invites: table_map(self.invites@),
            proposed_jobs: table_map(self.proposed_jobs@),
            assignments: table_map(self.assignments@),
            completed_receipts: table_map(self.completed_receipts@),
            shard_sets: table_map(self.shard_sets@),
            artifact_replicas: pair_map(self.artifact_replicas@),
            replica_evidence: pair_map(self.replica_evidence@),
        }
    }
}

/// The state before any event.
pub open spec fn empty_view() -> RestoreView {
    RestoreView {
        nodes: Map::empty(),
        offers: Map::empty(),
        invites: Map::empty(),
        proposed_jobs: Map::empty(),
        assignments: Map::empty(),
        completed_receipts: Map::empty(),
        shard_sets: Map::empty(),
        artifact_replicas: Map::empty(),
        replica_evidence: Map::empty(),
    }
}

/// The position of the last shard of a set with the given job id.
pub open spec fn last_shard(shards: Seq<JobSpecV1>, job_id: u128) -> Option<int>
    decreases shards.len(),
{
    if shards.len() == 0 {
        None
    } else if shards.last().job_id == job_id {
        Some(shards.len() - 1)
    } else {
        last_shard(shards.drop_last(), job_id)
    }
}

/// A lease restores its assignment only while it is live at `now` and of the current epoch.
pub open spec fn lease_restorable(lease: CapabilityLeaseV1, now: i128, epoch: u64) -> bool {
    lease.expires_at > now && lease.fencing_epoch == epoch
}

/// The assignments after the first `k` leases of the shard set recorded at event `i`: each live
/// lease of the current epoch whose job is among the set's shards assigns that shard.
pub open spec fn shard_assignments(
    a: Map<u128, PlannedAssignment>,
    set: ShardSetV1,
    leases: Seq<CapabilityLeaseV1>,
    i: int,
    now: i128,
    epoch: u64,
    k: int,
) -> Map<u128, PlannedAssignment>
    decreases k,
{
    if k <= 0 {
        a
    } else {
        let before = shard_assignments(a, set, leases, i, now, epoch, k - 1);
        let lease = leases[k - 1];
        match last_shard(set.shards@, lease.job_id) {
            Some(s) => if lease_restorable(lease, now, epoch) {
                before.insert(
                    lease.job_id,
                    PlannedAssignment {
                        job_event: i as usize,
                        job_shard: Some(s as usize),
                        lease_event: i as usize,
                        lease_index: Some((k - 1) as usize),
                        claimed: false,
                    },
                )
            } else {
                before
            },
            None => before,
        }
    }
}

/// Whether a replica receipt recorded with an artifact is kept as evidence: it is the receipt of
/// that node for that digest and size, and it is signed by the node's enrolled key.
pub open spec fn replica_receipt_kept(
    v: RestoreView,
    events: Seq<RestoreEvent>,
    node_id: u128,
    artifact: ArtifactRefV1,
    receipt: ArtifactReplicaReceiptV1,
    receipt_json: Seq<u8>,
) -> bool {
    &&& receipt.node_id == node_id
    &&& receipt.digest@ == artifact.digest@
    &&& receipt.size_bytes == artifact.size_bytes
    &&& v.nodes.contains_key(node_id)
    &&& v.nodes[node_id] < events.len()
    &&& events[v.nodes[node_id] as int] matches RestoreEvent::NodeEnrolled(identity)
    &&& identity.node_id == receipt.node_id
    &&& signature_valid_spec(identity.public_key@, receipt.signature@, sha256_of(receipt_json))
}

/// The state after replaying event `i` on `v` at `now` under fencing epoch `epoch`.
pub open spec fn restore_step(v: RestoreView, events: Seq<RestoreEvent>, i: int, now: i128, epoch: u64) -> RestoreView {
    match events[i] {
        RestoreEvent::NodeEnrolled(identity) => RestoreView { nodes: v.nodes.insert(identity.node_id, i as usize), ..v },
        RestoreEvent::OfferRegistered(offer) => if offer.expires_at > now {
            RestoreView { offers: v.offers.insert(offer.node_id, i as usize), ..v }
        } else {
            v
        },
        RestoreEvent::InviteCreated { invite_id, expires_at, .. } => if expires_at > now {
            RestoreView { invites: v.invites.insert(invite_id, i as usize), ..v }
        } else {
            v
        },
        RestoreEvent::InviteConsumed(invite_id) => RestoreView { invites: v.invites.remove(invite_id), ..v },
        RestoreEvent::JobProposed(job) => RestoreView { proposed_jobs: v.proposed_jobs.insert(job.job_id, i as usize), ..v },
        RestoreEvent::LeaseIssued(lease) => if lease_restorable(lease, now, epoch) && v.proposed_jobs.contains_key(
            lease.job_id,
        ) {
            RestoreView {
                assignments: v.assignments.insert(
                    lease.job_id,
                    PlannedAssignment {
                        job_event: v.proposed_jobs[lease.job_id],
                        job_shard: None,
                        lease_event: i as usize,
                        lease_index: None,
                        claimed: false,
                    },
                ),
                ..v
            }
        } else {
            v
        },
        RestoreEvent::ShardSetAdmitted(set, leases) => RestoreView {
            assignments: shard_assignments(v.assignments, set, leases@, i, now, epoch, leases@.len() as int),
            shard_sets: v.shard_sets.insert(set.set_id, i as usize),
            ..v
        },
        RestoreEvent::JobClaimed(job_id) => if v.assignments.contains_key(job_id) {
            RestoreView {
                assignments: v.assignments.insert(job_id, PlannedAssignment { claimed: true, ..v.assignments[job_id] }),
                ..v
            }
        } else {
            v
        },
        RestoreEvent::JobReceipted { job_id, receipt } => RestoreView {
            assignments: v.assignments.remove(job_id),
            completed_receipts: match receipt {
                Some((receipt_id, receipted_job)) => v.completed_receipts.insert(receipt_id, receipted_job),
                None => v.completed_receipts,
            },
            ..v
        },
        RestoreEvent::ArtifactRecorded { node_id, artifact, replica_receipt } => RestoreView {
            artifact_replicas: v.artifact_replicas.insert((artifact.digest@, node_id), i as usize),
            replica_evidence: match replica_receipt {
                Some((receipt, json)) => if replica_receipt_kept(v, events, node_id, artifact, receipt, json@) {
                    v.replica_evidence.insert((artifact.digest@, node_id), i as usize)
                } else {
                    v.replica_evidence
                },
                None => v.replica_evidence,
            },
            ..v
        },
        RestoreEvent::ReplicaInvalidated { node_id, digest } => RestoreView {
            replica_evidence: v.replica_evidence.remove((digest@, node_id)),
            ..v
        },
        RestoreEvent::Other => v,
    }
}

/// The state after replaying the first `n` events.
pub open spec fn restore_view(events: Seq<RestoreEvent>, now: i128, epoch: u64, n: int) -> RestoreView
    decreases n,
{
    if n <= 0 {
        empty_view()
    } else {
        restore_step(restore_view(events, now, epoch, n - 1), events, n - 1, now, epoch)
    }
}

fn find_last_shard(shards: &Vec<JobSpecV1>, job_id: u128) -> (r: Option<usize>)
    ensures
        match r {
            Some(s) => s < shards@.len() && last_shard(shards@, job_id) == Some(s as int),
            None => last_shard(shards@, job_id) is None,
        },
{
    let mut k: usize = shards.len();
    assert(shards@.take(shards@.len() as int) =~= shards@);
    while k > 0
        invariant
            k <= shards@.len(),
            last_shard(shards@, job_id) == last_shard(shards@.take(k as int), job_id),
        decreases k,
    {
        assert(shards@.take(k as int).drop_last() =~= shards@.take(k - 1));
        if shards[k - 1].job_id == job_id {
            return Some(k - 1);
        }
        k = k - 1;
    }
    None
}

fn replica_receipt_accepted(
    plan: &RestorePlan,
    events: &Vec<RestoreEvent>,
    node_id: u128,
    artifact: &ArtifactRefV1,
    receipt: &ArtifactReplicaReceiptV1,
    receipt_json: &Vec<u8>,
) -> (r: bool)
    ensures
        r == replica_receipt_kept(plan.view_spec(), events@, node_id, *artifact, *receipt, receipt_json@),
{
    if receipt.node_id != node_id || !crate::text::text_eq(receipt.digest.as_str(), artifact.digest.as_str())
        || receipt.size_bytes != artifact.size_bytes {
        return false;
    }
    match table_get(&plan.nodes, node_id) {
        None => false,
        Some(at) => {
            if at >= events.len() {
                return false;
            }
            match &events[at] {
                RestoreEvent::NodeEnrolled(identity) => verify_artifact_replica_receipt(identity, receipt, receipt_json.as_slice()).is_ok(),
                _ => false,
            }
        },
    }
}

/// Replay event `i` onto the plan at `now` under fencing epoch `epoch`, as `restore_step` states.
pub fn apply_restore_event(plan: &mut RestorePlan, events: &Vec<RestoreEvent>, i: usize, now: i128, epoch: u64)
    requires
        i < events@.len(),
    ensures
        final(plan).view_spec() == restore_step(old(plan).view_spec(), events@, i as int, now, epoch),
{
    let ghost v = plan.view_spec();
    match &events[i] {
        RestoreEvent::NodeEnrolled(identity) => {
            table_put(&mut plan.nodes, identity.node_id, i);
        },
        RestoreEvent::OfferRegistered(offer) => {
            if offer.expires_at > now {
                table_put(&mut plan.offers, offer.node_id, i);
            }
        },
        RestoreEvent::InviteCreated { invite_id, expires_at, .. } => {
            if *expires_at > now {
                table_put(&mut plan.invites, *invite_id, i);
            }
        },
        RestoreEvent::InviteConsumed(invite_id) => {
            table_remove(&mut plan.invites, *invite_id);
        },
        RestoreEvent::JobProposed(job) => {
            table_put(&mut plan.proposed_jobs, job.job_id, i);
        },
        RestoreEvent::LeaseIssued(lease) => {
            if lease.expires_at > now && lease.fencing_epoch == epoch {
                match table_get(&plan.proposed_jobs, lease.job_id) {
                    Some(job_event) => {
                        table_put(
                            &mut plan.assignments,
                            lease.job_id,
                            PlannedAssignment {
                                job_event,
                                job_shard: None,
                                lease_event: i,
                                lease_index: None,
                                claimed: false,
                            },
                        );
                    },
                    None => {},
                }
            }
        },
        RestoreEvent::ShardSetAdmitted(set, leases) => {
            let ghost start = table_map(plan.assignments@);
            let mut k: usize = 0;
            while k < leases.len()
                invariant
                    k <= leases@.len(),
                    table_map(plan.assignments@) == shard_assignments(start, *set, leases@, i as int, now, epoch, k as int),
                    plan.nodes@ == old(plan).nodes@,
                    plan.offers@ == old(plan).offers@,
                    plan.invites@ == old(plan).invites@,
                    plan.proposed_jobs@ == old(plan).proposed_jobs@,
                    plan.completed_receipts@ == old(plan).completed_receipts@,
                    plan.shard_sets@ == old(plan).shard_sets@,
                    plan.artifact_replicas@ == old(plan).artifact_replicas@,
                    plan.replica_evidence@ == old(plan).replica_evidence@,
                decreases leases@.len() - k,
            {
                let lease = &leases[k];
                match find_last_shard(&set.shards, lease.job_id) {
                    Some(s) => {
                        if lease.expires_at > now && lease.fencing_epoch == epoch {
                            table_put(
                                &mut plan.assignments,
                                lease.job_id,
                                PlannedAssignment {
                                    job_event: i,
                                    job_shard: Some(s),
                                    lease_event: i,
                                    lease_index: Some(k),
                                    claimed: false,
                                },
                            );
                        }
                    },
                    None => {},
                }
                k = k + 1;
            }
            table_put(&mut plan.shard_sets, set.set_id, i);
        },
        RestoreEvent::JobClaimed(job_id) => {
            match table_get(&plan.assignments, *job_id) {
                Some(a) => {
                    table_put(&mut plan.assignments, *job_id, PlannedAssignment { claimed: true, ..a });
                },
                None => {},
            }
        },
        RestoreEvent::JobReceipted { job_id, receipt } => {
            table_remove(&mut plan.assignments, *job_id);
            match receipt {
                Some((receipt_id, receipted_job)) => {
                    table_put(&mut plan.completed_receipts, *receipt_id, *receipted_job);
                },
                None => {},
            }
        },
        RestoreEvent::ArtifactRecorded { node_id, artifact, replica_receipt } => {
            let keep = match replica_receipt {
                Some((receipt, json)) => replica_receipt_accepted(plan, events, *node_id, artifact, receipt, json),
                None => false,
            };
            pair_put(&mut plan.artifact_replicas, artifact.digest.as_str(), *node_id, i);
            if keep {
                pair_put(&mut plan.replica_evidence, artifact.digest.as_str(), *node_id, i);
            }
        },
        RestoreEvent::ReplicaInvalidated { node_id, digest } => {
            pair_remove(&mut plan.replica_evidence, digest.as_str(), *node_id);
        },
        RestoreEvent::Other => {},
    }
    assert(plan.view_spec() =~= restore_step(v, events@, i as int, now, epoch));
}

/// Replay the ledger's events, oldest first, at `now` under fencing epoch `epoch`: the plan names
/// the event behind every entry of the rebuilt state, as `restore_view` states.
pub fn replay_events(events: &Vec<RestoreEvent>, now: i128, epoch: u64) -> (r: RestorePlan)
    ensures
        r.view_spec() == restore_view(events@, now, epoch, events@.len() as int),
{
    let mut plan = RestorePlan {
        nodes: Vec::new(),
        offers: Vec::new(),
        invites: Vec::new(),
        proposed_jobs: Vec::new(),
        assignments: Vec::new(),
        completed_receipts: Vec::new(),
        shard_sets: Vec::new(),
        artifact_replicas: Vec::new(),
        replica_evidence: Vec::new(),
    };
    assert(plan.view_spec() =~= empty_view());
    let mut i: usize = 0;
    while i < events.len()
        invariant
            i <= events@.len(),
            plan.view_spec() == restore_view(events@, now, epoch, i as int),
        decreases events@.len() - i,
    {
        apply_restore_event(&mut plan, events, i, now, epoch);
        i = i + 1;
    }
    plan
}

/// Restored assignment `a` for job `job_id` is backed by the first `n` events: a proposal of the
/// job and a live lease of the current epoch issued for it, or a shard of an admitted set and the
/// set's live lease for it.
pub open spec fn assignment_backed(a: PlannedAssignment, job_id: u128, events: Seq<RestoreEvent>, n: int, now: i128, epoch: u64) -> bool {
    &&& a.lease_event < n
    &&& a.job_event < n
    &&& match events[a.lease_event as int] {
        RestoreEvent::LeaseIssued(lease) => {
            &&& a.lease_index is None
            &&& a.job_shard is None
            &&& lease.job_id == job_id
            &&& lease_restorable(lease, now, epoch)
            &&& (events[a.job_event as int] matches RestoreEvent::JobProposed(job) && job.job_id == job_id)
        },
        RestoreEvent::ShardSetAdmitted(set, leases) => {
            &&& a.job_event == a.lease_event
            &&& (a.lease_index matches Some(li) && li < leases@.len() && leases@[li as int].job_id == job_id
                && lease_restorable(leases@[li as int], now, epoch))
            &&& (a.job_shard matches Some(s) && s < set.shards@.len() && set.shards@[s as int].job_id == job_id)
        },
        _ => false,
    }
}

/// Every entry of a replay outcome points at an event of the right kind among the first `n`.
pub open spec fn restore_backed(v: RestoreView, events: Seq<RestoreEvent>, n: int, now: i128, epoch: u64) -> bool {
    &&& forall|k: u128| #[trigger] v.nodes.contains_key(k) ==> (v.nodes[k] < n && (events[v.nodes[k] as int] matches RestoreEvent::NodeEnrolled(id) && id.node_id == k))
    &&& forall|k: u128| #[trigger] v.offers.contains_key(k) ==> (v.offers[k] < n && (events[v.offers[k] as int] matches RestoreEvent::OfferRegistered(o) && o.node_id == k && o.expires_at > now))
    &&& forall|k: u128| #[trigger] v.invites.contains_key(k) ==> (v.invites[k] < n && (events[v.invites[k] as int] matches RestoreEvent::InviteCreated { invite_id, expires_at, .. } && invite_id == k && expires_at > now))
    &&& forall|k: u128| #[trigger] v.proposed_jobs.contains_key(k) ==> (v.proposed_jobs[k] < n && (events[v.proposed_jobs[k] as int] matches RestoreEvent::JobProposed(job) && job.job_id == k))
    &&& forall|k: u128| #[trigger] v.assignments.contains_key(k) ==> assignment_backed(v.assignments[k], k, events, n, now, epoch)
    &&& forall|k: u128| #[trigger] v.shard_sets.contains_key(k) ==> (v.shard_sets[k] < n && (events[v.shard_sets[k] as int] matches RestoreEvent::ShardSetAdmitted(set, _) && set.set_id == k))
    &&& forall|k: (Seq<char>, u128)| #[trigger] v.artifact_replicas.contains_key(k) ==> (v.artifact_replicas[k] < n && (events[v.artifact_replicas[k] as int] matches RestoreEvent::ArtifactRecorded { node_id, artifact, .. } && node_id == k.1 && artifact.digest@ == k.0))
    &&& forall|k: (Seq<char>, u128)| #[trigger] v.replica_evidence.contains_key(k) ==> (v.replica_evidence[k] < n && (events[v.replica_evidence[k] as int] matches RestoreEvent::ArtifactRecorded { node_id, artifact, replica_receipt } && node_id == k.1 && artifact.digest@ == k.0 && replica_receipt is Some))
}

proof fn lemma_backed_grows(a: PlannedAssignment, job_id: u128, events: Seq<RestoreEvent>, n: int, now: i128, epoch: u64)
    requires
        assignment_backed(a, job_id, events, n, now, epoch),
    ensures
        assignment_backed(a, job_id, events, n + 1, now, epoch),
{
}

proof fn lemma_last_shard(shards: Seq<JobSpecV1>, job_id: u128)
    ensures
        last_shard(shards, job_id) matches Some(s) ==> (0 <= s < shards.len() && shards[s].job_id == job_id),
    decreases shards.len(),
{
    if shards.len() > 0 {
        lemma_last_shard(shards.drop_last(), job_id);
    }
}

proof fn lemma_shard_assignments_backed(
    a: Map<u128, PlannedAssignment>,
    set: ShardSetV1,
    leases: Vec<CapabilityLeaseV1>,
    events: Seq<RestoreEvent>,
    i: int,
    now: i128,
    epoch: u64,
    k: int,
)
    requires
        0 <= i < events.len(),
        i <= usize::MAX,
        events[i] == RestoreEvent::ShardSetAdmitted(set, leases),
        0 <= k <= leases@.len(),
        leases@.len() <= usize::MAX,
        set.shards@.len() <= usize::MAX,
        forall|j: u128| #[trigger] a.contains_key(j) ==> assignment_backed(a[j], j, events, i + 1, now, epoch),
    ensures
        forall|j: u128| #[trigger] shard_assignments(a, set, leases@, i, now, epoch, k).contains_key(j) ==> assignment_backed(
            shard_assignments(a, set, leases@, i, now, epoch, k)[j],
            j,
            events,
            i + 1,
            now,
            epoch,
        ),
    decreases k,
{
    if k > 0 {
        lemma_shard_assignments_backed(a, set, leases, events, i, now, epoch, k - 1);
        let lease = leases@[k - 1];
        lemma_last_shard(set.shards@, lease.job_id);
        let before = shard_assignments(a, set, leases@, i, now, epoch, k - 1);
        match last_shard(set.shards@, lease.job_id) {
            Some(sh) => {
                if lease_restorable(lease, now, epoch) {
                    let pa = PlannedAssignment {
                        job_event: i as usize,
                        job_shard: Some(sh as usize),
                        lease_event: i as usize,
                        lease_index: Some((k - 1) as usize),
                        claimed: false,
                    };
                    assert(pa.lease_event as int == i);
                    assert(pa.lease_index->0 as int == k - 1);
                    assert(pa.job_shard->0 as int == sh);
                    assert(assignment_backed(pa, lease.job_id, events, i + 1, now, epoch));
                    assert(shard_assignments(a, set, leases@, i, now, epoch, k) == before.insert(lease.job_id, pa));
                }
            },
            None => {},
        }
    }
}

/// Every list an event carries fits the machine's index range, as those of real values do.
pub open spec fn events_fit(events: Seq<RestoreEvent>) -> bool {
    &&& events.len() <= usize::MAX
    &&& forall|i: int| 0 <= i < events.len() ==> (#[trigger] events[i] matches RestoreEvent::ShardSetAdmitted(set, leases)
        ==> leases@.len() <= usize::MAX && set.shards@.len() <= usize::MAX)
}

/// Replay keeps every entry backed by the events it has read: nodes by their enrollment, offers
/// and invites by live records, assignments by a proposal or shard and a live lease of the current
/// epoch, and replica evidence by a recorded replica receipt.
pub proof fn law_replay_entries_are_backed(events: Seq<RestoreEvent>, now: i128, epoch: u64, n: int)
    requires
        0 <= n <= events.len(),
        events_fit(events),
    ensures
        restore_backed(restore_view(events, now, epoch, n), events, n, now, epoch),
    decreases n,
{
    if n > 0 {
        law_replay_entries_are_backed(events, now, epoch, n - 1);
        let v = restore_view(events, now, epoch, n - 1);
        let w = restore_view(events, now, epoch, n);
        let i = n - 1;
        assert forall|k: u128| #[trigger] v.assignments.contains_key(k) implies assignment_backed(v.assignments[k], k, events, n, now, epoch) by {
            lemma_backed_grows(v.assignments[k], k, events, i, now, epoch);
        }
        match events[i] {
            RestoreEvent::ShardSetAdmitted(set, leases) => {
                lemma_shard_assignments_backed(v.assignments, set, leases, events, i, now, epoch, leases@.len() as int);
            },
            RestoreEvent::JobClaimed(job_id) => {
                if v.assignments.contains_key(job_id) {
                    assert(assignment_backed(v.assignments[job_id], job_id, events, n, now, epoch));
                }
            },
            _ => {},
        }
    }
}

/// Whether event `m` can assign job `j`: a lease issued for it, or an admitted set with a lease
/// for it.
pub open spec fn may_assign(e: RestoreEvent, j: u128) -> bool {
    match e {
        RestoreEvent::LeaseIssued(lease) => lease.job_id == j,
        RestoreEvent::ShardSetAdmitted(_, leases) => exists|x: int| 0 <= x < leases@.len() && (#[trigger] leases@[x]).job_id == j,
        _ => false,
    }
}

proof fn lemma_shard_assignments_skip(
    a: Map<u128, PlannedAssignment>,
    set: ShardSetV1,
    leases: Seq<CapabilityLeaseV1>,
    i: int,
    now: i128,
    epoch: u64,
    k: int,
    j: u128,
)
    requires
        0 <= k <= leases.len(),
        forall|x: int| 0 <= x < leases.len() ==> (#[trigger] leases[x]).job_id != j,
    ensures
        shard_assignments(a, set, leases, i, now, epoch, k).contains_key(j) == a.contains_key(j),
    decreases k,
{
    if k > 0 {
        lemma_shard_assignments_skip(a, set, leases, i, now, epoch, k - 1, j);
        assert(leases[k - 1].job_id != j);
    }
}

/// A receipted job stays retired: once its receipt has been replayed, it has no assignment until a
/// later lease is issued for it, so a restarted controller never hands finished work out again.
pub proof fn law_receipt_retires_job(events: Seq<RestoreEvent>, now: i128, epoch: u64, r: int, n: int, j: u128)
    requires
        0 <= r < n <= events.len(),
        events[r] matches RestoreEvent::JobReceipted { job_id, .. } && job_id == j,
        forall|m: int| r < m < n ==> !may_assign(#[trigger] events[m], j),
    ensures
        !restore_view(events, now, epoch, n).assignments.contains_key(j),
    decreases n - r,
{
    if n > r + 1 {
        law_receipt_retires_job(events, now, epoch, r, n - 1, j);
        let v = restore_view(events, now, epoch, n - 1);
        assert(!may_assign(events[n - 1], j));
        match events[n - 1] {
            RestoreEvent::ShardSetAdmitted(set, leases) => {
                assert forall|x: int| 0 <= x < leases@.len() implies (#[trigger] leases@[x]).job_id != j by {
                    if leases@[x].job_id == j {
                        assert(may_assign(events[n - 1], j));
                    }
                }
                lemma_shard_assignments_skip(v.assignments, set, leases@, n - 1, now, epoch, leases@.len() as int, j);
            },
            _ => {},
        }
    }
}

} // verus!
