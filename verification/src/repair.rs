//! Keeping protected artifacts replicated: which recorded replicas are protected, in digest and
//! node order; which of them lack fresh possession evidence; how they group by digest; when a
//! digest's verification is complete; and when and where an autonomous repair may place a copy.

use crate::controller::{bytes_lt, text_lt};
use crate::protocol::{ArtifactRefV1, ArtifactReplicaReceiptV1, ResourceOfferV1, StorageClass};
use crate::restore::{lemma_pair_absent, lemma_pair_found, lookup_pair, pair_find};
use crate::text::{text_eq, utf8};
use vstd::prelude::*;

verus! {

/// At most this many autonomous repairs are started in one reconciliation cycle.
pub const MAX_AUTONOMOUS_REPAIRS_PER_CYCLE: usize = 4;

/// A protected replica by key: its digest, its node, and its position among the recorded replicas.
#[derive(Debug, Clone)]
pub struct ProtectedReplica {
    pub digest: String,
    pub node_id: u128,
    pub replica: usize,
}

/// A protected replica as plain values.
pub type ReplicaView = (Seq<char>, u128, usize);

impl ProtectedReplica {
    pub open spec fn view_spec(&self) -> ReplicaView {
        (self.digest@, self.node_id, self.replica)
    }
}

/// The views of a list of protected replicas.
pub open spec fn replica_views(s: Seq<ProtectedReplica>) -> Seq<ReplicaView> {
    s.map_values(|p: ProtectedReplica| p.view_spec())
}

/// The order of replica keys: by digest bytes, then by node.
pub open spec fn key_lt(a: ReplicaView, b: ReplicaView) -> bool {
    text_lt(utf8(a.0), utf8(b.0)) || (a.0 == b.0 && a.1 < b.1)
}

/// A replica inserted into an ordered list after every replica it does not come before.
pub open spec fn insert_ordered(sorted: Seq<ReplicaView>, x: ReplicaView) -> Seq<ReplicaView>
    decreases sorted.len(),
{
    if sorted.len() == 0 {
        seq![x]
    } else if key_lt(x, sorted.last()) {
        insert_ordered(sorted.drop_last(), x).push(sorted.last())
    } else {
        sorted.push(x)
    }
}

/// The protected replicas among the first `n` recorded ones, ordered by key.
pub open spec fn ordered_protected(replicas: Seq<((String, u128), ArtifactRefV1)>, n: int) -> Seq<ReplicaView>
    decreases n,
{
    if n <= 0 {
        Seq::empty()
    } else {
        let before = ordered_protected(replicas, n - 1);
        let e = replicas[n - 1];
        if e.1.storage_class == StorageClass::Protected {
            insert_ordered(before, (e.0.0@, e.0.1, (n - 1) as usize))
        } else {
            before
        }
    }
}

proof fn lemma_insert_ordered(s: Seq<ReplicaView>, x: ReplicaView, p: int)
    requires
        0 <= p <= s.len(),
        forall|j: int| p <= j < s.len() ==> key_lt(x, #[trigger] s[j]),
        p == 0 || !key_lt(x, s[p - 1]),
    ensures
        insert_ordered(s, x) == s.take(p).push(x) + s.skip(p),
    decreases s.len(),
{
    if s.len() == p {
        if p == 0 {
            assert(s.take(p).push(x) + s.skip(p) =~= seq![x]);
        } else {
            assert(s.take(p).push(x) + s.skip(p) =~= s.push(x));
        }
    } else {
        let d = s.drop_last();
        assert(key_lt(x, s[s.len() - 1]));
        assert forall|j: int| p <= j < d.len() implies key_lt(x, #[trigger] d[j]) by {
            assert(d[j] == s[j]);
        }
        if p > 0 {
            assert(d[p - 1] == s[p - 1]);
        }
        lemma_insert_ordered(d, x, p);
        assert(d.take(p).push(x) + d.skip(p) + seq![s.last()] =~= s.take(p).push(x) + s.skip(p));
    }
}

fn replica_before(a: &ProtectedReplica, b: &ProtectedReplica) -> (r: bool)
    ensures
        r == key_lt(a.view_spec(), b.view_spec()),
{
    if bytes_lt(a.digest.as_str().as_bytes(), b.digest.as_str().as_bytes()) {
        return true;
    }
    text_eq(a.digest.as_str(), b.digest.as_str()) && a.node_id < b.node_id
}

/// The protected replicas among those recorded, ordered by digest and then node; replicas of
/// equal key keep their recorded order.
pub fn protected_replicas(replicas: &Vec<((String, u128), ArtifactRefV1)>) -> (r: Vec<ProtectedReplica>)
    ensures
        replica_views(r@) == ordered_protected(replicas@, replicas@.len() as int),
{
    let mut out: Vec<ProtectedReplica> = Vec::new();
    let mut i: usize = 0;
    assert(replica_views(out@) =~= Seq::<ReplicaView>::empty());
    while i < replicas.len()
        invariant
            i <= replicas@.len(),
            replica_views(out@) == ordered_protected(replicas@, i as int),
        decreases replicas@.len() - i,
    {
        let entry = &replicas[i];
        if entry.1.storage_class == StorageClass::Protected {
            let x = ProtectedReplica { digest: entry.0.0.clone(), node_id: entry.0.1, replica: i };
            let ghost before = replica_views(out@);
            let mut p: usize = out.len();
            while p > 0 && replica_before(&x, &out[p - 1])
                invariant
                    p <= out@.len(),
                    before == replica_views(out@),
                    forall|j: int| p <= j < out@.len() ==> key_lt(x.view_spec(), #[trigger] before[j]),
                decreases p,
            {
                p = p - 1;
            }
            proof {
                if p > 0 {
                    assert(before[p - 1] == out@[p - 1].view_spec());
                }
                lemma_insert_ordered(before, x.view_spec(), p as int);
            }
            out.insert(p, x);
            assert(replica_views(out@) =~= before.take(p as int).push(x.view_spec()) + before.skip(p as int));
        }
        i = i + 1;
    }
    out
}

/// Whether a node's replica of a digest carries evidence of possession that is valid at `now`.
pub open spec fn replica_verified(
    evidence: Seq<((String, u128), ArtifactReplicaReceiptV1)>,
    digest: Seq<char>,
    node_id: u128,
    now: i128,
) -> bool {
    lookup_pair(evidence, digest, node_id) matches Some(receipt) && receipt.valid_at_spec(now)
}

/// Whether the evidence for a node's replica of a digest is valid at `now`.
pub fn is_replica_verified(
    evidence: &Vec<((String, u128), ArtifactReplicaReceiptV1)>,
    digest: &str,
    node_id: u128,
    now: i128,
) -> (r: bool)
    ensures
        r == replica_verified(evidence@, digest@, node_id, now),
{
    match pair_find(evidence, digest, node_id) {
        Some(k) => {
            proof {
                lemma_pair_found(evidence@, k as int, digest@, node_id);
            }
            evidence[k].1.is_valid_at(now)
        },
        None => {
            proof {
                lemma_pair_absent(evidence@, digest@, node_id);
            }
            false
        },
    }
}

/// The protected replicas, in order, that lack valid evidence at `now`: the candidates for a
/// possession probe.
pub open spec fn stale_replicas_spec(
    protected: Seq<ReplicaView>,
    evidence: Seq<((String, u128), ArtifactReplicaReceiptV1)>,
    now: i128,
) -> Seq<ReplicaView> {
    protected.filter(|p: ReplicaView| !replica_verified(evidence, p.0, p.1, now))
}

/// The protected replicas that lack valid evidence at `now`, in order.
pub fn stale_replicas(
    protected: &Vec<ProtectedReplica>,
    evidence: &Vec<((String, u128), ArtifactReplicaReceiptV1)>,
    now: i128,
) -> (r: Vec<ProtectedReplica>)
    ensures
        replica_views(r@) == stale_replicas_spec(replica_views(protected@), evidence@, now),
{
    let ghost pred = |p: ReplicaView| !replica_verified(evidence@, p.0, p.1, now);
    let ghost all = replica_views(protected@);
    let mut out: Vec<ProtectedReplica> = Vec::new();
    let mut i: usize = 0;
    proof {
        reveal_with_fuel(Seq::filter, 1);
        assert(all.take(0).filter(pred) =~= Seq::<ReplicaView>::empty());
        assert(replica_views(out@) =~= Seq::<ReplicaView>::empty());
    }
    while i < protected.len()
        invariant
            i <= protected@.len(),
            all == replica_views(protected@),
            replica_views(out@) == all.take(i as int).filter(pred),
            pred == (|p: ReplicaView| !replica_verified(evidence@, p.0, p.1, now)),
        decreases protected@.len() - i,
    {
        let p = &protected[i];
        proof {
            assert(all.take(i + 1).drop_last() =~= all.take(i as int));
            assert(all.take(i + 1).last() == p.view_spec());
            reveal_with_fuel(Seq::filter, 1);
        }
        if !is_replica_verified(evidence, p.digest.as_str(), p.node_id, now) {
            let ghost before = out@;
            out.push(ProtectedReplica { digest: p.digest.clone(), node_id: p.node_id, replica: p.replica });
            assert(replica_views(out@) =~= replica_views(before).push(p.view_spec()));
        }
        i = i + 1;
    }
    assert(all.take(all.len() as int) =~= all);
    out
}

/// The protected replicas of one digest: the digest, the recorded replica whose contract stands
/// for the digest (that of its first node), and its nodes in order.
#[derive(Debug)]
pub struct DigestGroup {
    pub digest: String,
    pub source: usize,
    pub nodes: Vec<u128>,
}

/// A digest group as plain values.
pub type GroupView = (Seq<char>, usize, Seq<u128>);

impl DigestGroup {
    pub open spec fn view_spec(&self) -> GroupView {
        (self.digest@, self.source, self.nodes@)
    }
}

/// The views of a list of digest groups.
pub open spec fn group_views(s: Seq<DigestGroup>) -> Seq<GroupView> {
    s.map_values(|g: DigestGroup| g.view_spec())
}

/// The runs of equal digests in an ordered list of protected replicas.
pub open spec fn digest_groups(s: Seq<ReplicaView>) -> Seq<GroupView>
    decreases s.len(),
{
    if s.len() == 0 {
        Seq::empty()
    } else {
        let g = digest_groups(s.drop_last());
        let x = s.last();
        if g.len() > 0 && g.last().0 == x.0 {
            g.update(g.len() - 1, (g.last().0, g.last().1, g.last().2.push(x.1)))
        } else {
            g.push((x.0, x.2, seq![x.1]))
        }
    }
}

/// Group ordered protected replicas into runs of one digest.
pub fn group_by_digest(protected: &Vec<ProtectedReplica>) -> (r: Vec<DigestGroup>)
    ensures
        group_views(r@) == digest_groups(replica_views(protected@)),
{
    let ghost all = replica_views(protected@);
    let mut groups: Vec<DigestGroup> = Vec::new();
    let mut i: usize = 0;
    assert(all.take(0) =~= Seq::<ReplicaView>::empty());
    assert(group_views(groups@) =~= Seq::<GroupView>::empty());
    while i < protected.len()
        invariant
            i <= protected@.len(),
            all == replica_views(protected@),
            group_views(groups@) == digest_groups(all.take(i as int)),
        decreases protected@.len() - i,
    {
        let p = &protected[i];
        assert(all.take(i + 1).drop_last() =~= all.take(i as int));
        assert(all.take(i + 1).last() == p.view_spec());
        let n = groups.len();
        if n > 0 && text_eq(groups[n - 1].digest.as_str(), p.digest.as_str()) {
            let ghost before = group_views(groups@);
            let mut last = groups.pop().unwrap();
            last.nodes.push(p.node_id);
            groups.push(last);
            assert(group_views(groups@) =~= before.update(before.len() - 1, (before.last().0, before.last().1, before.last().2.push(p.node_id))));
        } else {
            let ghost before = group_views(groups@);
            let mut nodes: Vec<u128> = Vec::new();
            nodes.push(p.node_id);
            groups.push(DigestGroup { digest: p.digest.clone(), source: p.replica, nodes });
            assert(group_views(groups@) =~= before.push((p.view_spec().0, p.replica, seq![p.node_id])));
        }
        i = i + 1;
    }
    assert(all.take(all.len() as int) =~= all);
    groups
}

/// Whether a probe of a node's replica of a digest was selected this cycle.
pub open spec fn probe_selected(probes: Seq<(String, u128)>, digest: Seq<char>, node_id: u128) -> bool {
    exists|k: int| 0 <= k < probes.len() && (#[trigger] probes[k]).0@ == digest && probes[k].1 == node_id
}

/// A digest's verification is complete this cycle when each of its nodes either holds valid
/// evidence or has a probe selected.
pub open spec fn verification_complete_spec(
    group: GroupView,
    evidence: Seq<((String, u128), ArtifactReplicaReceiptV1)>,
    probes: Seq<(String, u128)>,
    now: i128,
) -> bool {
    forall|j: int| 0 <= j < group.2.len() ==> replica_verified(evidence, group.0, #[trigger] group.2[j], now)
        || probe_selected(probes, group.0, group.2[j])
}

fn is_probe_selected(probes: &Vec<(String, u128)>, digest: &str, node_id: u128) -> (r: bool)
    ensures
        r == probe_selected(probes@, digest@, node_id),
{
    let mut k: usize = 0;
    while k < probes.len()
        invariant
            k <= probes@.len(),
            forall|j: int| 0 <= j < k ==> !((#[trigger] probes@[j]).0@ == digest@ && probes@[j].1 == node_id),
        decreases probes@.len() - k,
    {
        if probes[k].1 == node_id && text_eq(probes[k].0.as_str(), digest) {
            return true;
        }
        k = k + 1;
    }
    false
}

/// Whether a digest's verification is complete this cycle.
pub fn verification_complete(
    group: &DigestGroup,
    evidence: &Vec<((String, u128), ArtifactReplicaReceiptV1)>,
    probes: &Vec<(String, u128)>,
    now: i128,
) -> (r: bool)
    ensures
        r == verification_complete_spec(group.view_spec(), evidence@, probes@, now),
{
    let mut j: usize = 0;
    while j < group.nodes.len()
        invariant
            j <= group.nodes@.len(),
            forall|k: int| 0 <= k < j ==> replica_verified(evidence@, group.digest@, #[trigger] group.nodes@[k], now)
                || probe_selected(probes@, group.digest@, group.nodes@[k]),
        decreases group.nodes@.len() - j,
    {
        let node = group.nodes[j];
        if !is_replica_verified(evidence, group.digest.as_str(), node, now) && !is_probe_selected(
            probes,
            group.digest.as_str(),
            node,
        ) {
            assert(group.view_spec().2[j as int] == node);
            return false;
        }
        j = j + 1;
    }
    true
}

/// The nodes of a digest whose replicas hold valid evidence at `now`, in order.
pub open spec fn verified_nodes_spec(group: GroupView, evidence: Seq<((String, u128), ArtifactReplicaReceiptV1)>, now: i128) -> Seq<u128> {
    group.2.filter(|n: u128| replica_verified(evidence, group.0, n, now))
}

/// The nodes of a digest whose replicas hold valid evidence at `now`.
pub fn verified_nodes(group: &DigestGroup, evidence: &Vec<((String, u128), ArtifactReplicaReceiptV1)>, now: i128) -> (r: Vec<u128>)
    ensures
        r@ == verified_nodes_spec(group.view_spec(), evidence@, now),
{
    let ghost pred = |n: u128| replica_verified(evidence@, group.digest@, n, now);
    let mut out: Vec<u128> = Vec::new();
    let mut j: usize = 0;
    proof {
        reveal_with_fuel(Seq::filter, 1);
        assert(group.nodes@.take(0).filter(pred) =~= Seq::<u128>::empty());
    }
    while j < group.nodes.len()
        invariant
            j <= group.nodes@.len(),
            out@ == group.nodes@.take(j as int).filter(pred),
            pred == (|n: u128| replica_verified(evidence@, group.digest@, n, now)),
        decreases group.nodes@.len() - j,
    {
        let node = group.nodes[j];
        proof {
            assert(group.nodes@.take(j + 1).drop_last() =~= group.nodes@.take(j as int));
            assert(group.nodes@.take(j + 1).last() == node);
            reveal_with_fuel(Seq::filter, 1);
        }
        if is_replica_verified(evidence, group.digest.as_str(), node, now) {
            out.push(node);
        }
        j = j + 1;
    }
    assert(group.nodes@.take(group.nodes@.len() as int) =~= group.nodes@);
    out
}

/// An autonomous repair of a digest goes ahead only when its verification is complete, fewer than
/// two independent nodes hold fresh evidence, and the cycle's repair budget is not spent.
pub open spec fn repair_wanted_spec(complete: bool, verified: int, repairs: int) -> bool {
    complete && verified < 2 && repairs < MAX_AUTONOMOUS_REPAIRS_PER_CYCLE
}

/// Whether an autonomous repair of a digest goes ahead.
pub fn repair_wanted(complete: bool, verified: usize, repairs: usize) -> (r: bool)
    ensures
        r == repair_wanted_spec(complete, verified as int, repairs as int),
{
    complete && verified < 2 && repairs < MAX_AUTONOMOUS_REPAIRS_PER_CYCLE
}

/// An offer can take part in reconciliation while it is live and reachable over the mesh.
pub open spec fn reconcilable_offer(offer: ResourceOfferV1, now: i128) -> bool {
    offer.expires_at > now && offer.mesh_endpoint is Some
}

/// The offers, by position and in order, that may receive a repaired copy of a digest: live,
/// reachable, and on a node that holds no recorded replica of it.
pub open spec fn repair_targets_spec(offers: Seq<ResourceOfferV1>, known: Seq<u128>, now: i128, n: int) -> Seq<usize>
    decreases n,
{
    if n <= 0 {
        Seq::empty()
    } else {
        repair_targets_spec(offers, known, now, n - 1) + if reconcilable_offer(offers[n - 1], now) && !known.contains(
            offers[n - 1].node_id,
        ) {
            seq![(n - 1) as usize]
        } else {
            Seq::empty()
        }
    }
}

fn contains_node(v: &Vec<u128>, x: u128) -> (r: bool)
    ensures
        r == v@.contains(x),
{
    let mut i: usize = 0;
    while i < v.len()
        invariant
            i <= v@.len(),
            forall|j: int| 0 <= j < i ==> v@[j] != x,
        decreases v@.len() - i,
    {
        if v[i] == x {
            assert(v@[i as int] == x);
            return true;
        }
        i = i + 1;
    }
    false
}

/// The offers that may receive a repaired copy of a digest recorded on `known` nodes.
pub fn repair_targets(offers: &Vec<ResourceOfferV1>, known: &Vec<u128>, now: i128) -> (r: Vec<usize>)
    ensures
        r@ == repair_targets_spec(offers@, known@, now, offers@.len() as int),
{
    let mut out: Vec<usize> = Vec::new();
    let mut i: usize = 0;
    while i < offers.len()
        invariant
            i <= offers@.len(),
            out@ == repair_targets_spec(offers@, known@, now, i as int),
        decreases offers@.len() - i,
    {
        let offer = &offers[i];
        if offer.expires_at > now && offer.mesh_endpoint.is_some() && !contains_node(known, offer.node_id) {
            out.push(i);
        }
        i = i + 1;
    }
    out
}

/// Repairs of a digest stop once two nodes hold fresh evidence or the cycle's budget is spent.
pub fn continue_repairs(verified: usize, repairs: usize) -> (r: bool)
    ensures
        r == (verified < 2 && repairs < MAX_AUTONOMOUS_REPAIRS_PER_CYCLE),
{
    verified < 2 && repairs < MAX_AUTONOMOUS_REPAIRS_PER_CYCLE
}

} // verus!
