//! Network autopilot: the path each node is reached by, and which traffic may use it.
//!
//! A signed endpoint advertisement proves a candidate, not the route currently carrying packets,
//! so performance-sensitive traffic is admitted only after a fresh end-to-end link benchmark.

use crate::protocol::{LinkBenchmarkV1, ObservedLinkPathV1, ResourceOfferV1};
use vstd::prelude::*;

verus! {

broadcast use vstd::string::group_string_axioms;

/// The kinds of traffic a path may carry.
#[derive(Debug, Clone, Copy, PartialEq, Eq, Structural)]
pub enum TrafficClassV1 {
    AuthorityControl,
    InteractiveAi,
    RemoteMedia,
    Artifact,
    BulkBackground,
}

/// The path a node is reached by, and the evidence behind it.
#[derive(Debug, Clone, Copy, PartialEq, Eq, Structural)]
pub enum NetworkPathKindV1 {
    ControllerLocal,
    DirectMeasured,
    OwnerRelayMeasured,
    DirectCandidate,
    OwnerRelayBootstrap,
    Recovering,
}

/// Whether one traffic class may use a node's path, and why.
#[derive(Debug, Clone)]
pub struct TrafficAdmissionV1 {
    pub traffic_class: TrafficClassV1,
    pub admitted: bool,
    pub reason: String,
}

/// The autopilot's view of one node. Link figures are integers: the p50 round trip in
/// microseconds (thousandths of a millisecond) and each direction's throughput in kilobits per
/// second (thousandths of a megabit), rounded down.
#[derive(Debug, Clone)]
pub struct NetworkNodeAutopilotV1 {
    pub node_id: u128,
    pub preferred_path: NetworkPathKindV1,
    pub evidence: String,
    pub direct_candidates: usize,
    pub owner_relays: usize,
    pub rtt_micros_p50: Option<u64>,
    pub uplink_kbps: Option<u64>,
    pub downlink_kbps: Option<u64>,
    pub link_expires_at: Option<i128>,
    pub traffic: Vec<TrafficAdmissionV1>,
}

/// The autopilot's status at `generated_at`: one entry per live offer, by node id.
#[derive(Debug, Clone)]
pub struct NetworkAutopilotStatusV1 {
    pub schema: String,
    pub generated_at: i128,
    pub mode: String,
    pub nodes: Vec<NetworkNodeAutopilotV1>,
    pub policy: String,
}

impl NetworkAutopilotStatusV1 {
    pub const SCHEMA: &'static str = "rampage.network-autopilot-status.v1";
    pub const MODE: &'static str = "automatic_evidence_gated";
    pub const POLICY: &'static str = "Authority traffic may use any authenticated candidate; performance traffic waits for a fresh end-to-end link benchmark.";
}

pub const LOCAL_EVIDENCE: &'static str = "controller-local offer; no network hop required";
pub const DIRECT_MEASURED_EVIDENCE: &'static str = "transport reports an active direct path and the end-to-end benchmark is fresh";
pub const RELAY_MEASURED_EVIDENCE: &'static str = "transport reports an active owner relay path and the end-to-end benchmark is fresh";
pub const DIRECT_CANDIDATE_EVIDENCE: &'static str = "fresh signed link benchmark and signed direct candidate";
pub const RELAY_BOOTSTRAP_EVIDENCE: &'static str = "owner-operated relay retained while direct-path evidence is unavailable";
pub const RECOVERING_EVIDENCE: &'static str = "signed endpoint exists but no fresh measured path or owner relay is available";

pub const LOCAL_REASON: &'static str = "controller-local path";
pub const AUTHORITY_REASON: &'static str = "bounded authority traffic may use any authenticated candidate";
pub const NO_CANDIDATE_REASON: &'static str = "no authenticated path candidate";
pub const NO_LINK_REASON: &'static str = "performance traffic waits for a fresh signed link benchmark";
pub const INTERACTIVE_REASON: &'static str = "requires p50 RTT <= 75 ms, uplink >= 2 Mbps, and downlink >= 10 Mbps";
pub const MEDIA_REASON: &'static str = "requires p50 RTT <= 50 ms, uplink >= 10 Mbps, and downlink >= 5 Mbps";
pub const ARTIFACT_REASON: &'static str = "requires bidirectional throughput >= 5 Mbps";
pub const BULK_REASON: &'static str = "requires bidirectional throughput >= 20 Mbps";

/// A link benchmark that is fresh at `now` and measured something in every direction.
pub open spec fn fresh_link(link: Option<LinkBenchmarkV1>, now: i128) -> Option<LinkBenchmarkV1> {
    match link {
        Some(l) => if l.expires_at > now && l.rtt_micros_p50 > 0 && l.uplink_bps > 0 && l.downlink_bps > 0 {
            Some(l)
        } else {
            None
        },
        None => None,
    }
}

/// The direct addresses an offer's endpoint advertises.
pub open spec fn direct_count(offer: ResourceOfferV1) -> usize {
    match offer.mesh_endpoint {
        Some(e) => e.direct_addresses@.len() as usize,
        None => 0,
    }
}

/// The owner relays an offer's endpoint advertises.
pub open spec fn relay_count(offer: ResourceOfferV1) -> usize {
    match offer.mesh_endpoint {
        Some(e) => e.relay_urls@.len() as usize,
        None => 0,
    }
}

/// The path an offer's node is reached by at `now`: the controller itself where the offer has no
/// endpoint; a measured direct or owner-relay path where a fresh benchmark reports one; a direct
/// candidate where a fresh benchmark and a direct address exist; the owner relay while it is
/// advertised; else recovering.
pub open spec fn path_spec(offer: ResourceOfferV1, now: i128) -> NetworkPathKindV1 {
    let link = fresh_link(offer.link_benchmark, now);
    if offer.mesh_endpoint is None {
        NetworkPathKindV1::ControllerLocal
    } else if link matches Some(l) && l.observed_path == Some(ObservedLinkPathV1::Direct) {
        NetworkPathKindV1::DirectMeasured
    } else if link matches Some(l) && l.observed_path == Some(ObservedLinkPathV1::OwnerRelay) {
        NetworkPathKindV1::OwnerRelayMeasured
    } else if link is Some && direct_count(offer) > 0 {
        NetworkPathKindV1::DirectCandidate
    } else if relay_count(offer) > 0 {
        NetworkPathKindV1::OwnerRelayBootstrap
    } else {
        NetworkPathKindV1::Recovering
    }
}

/// The evidence text of each path.
pub open spec fn path_evidence(p: NetworkPathKindV1) -> Seq<char> {
    match p {
        NetworkPathKindV1::ControllerLocal => LOCAL_EVIDENCE@,
        NetworkPathKindV1::DirectMeasured => DIRECT_MEASURED_EVIDENCE@,
        NetworkPathKindV1::OwnerRelayMeasured => RELAY_MEASURED_EVIDENCE@,
        NetworkPathKindV1::DirectCandidate => DIRECT_CANDIDATE_EVIDENCE@,
        NetworkPathKindV1::OwnerRelayBootstrap => RELAY_BOOTSTRAP_EVIDENCE@,
        NetworkPathKindV1::Recovering => RECOVERING_EVIDENCE@,
    }
}

/// Whether a class of traffic may use a path, and why: everything on the controller itself;
/// authority traffic wherever an authenticated candidate exists; performance traffic only over a
/// fresh link meeting its class's thresholds (round trip at most 75 ms, uplink at least 2 Mbit/s
/// and downlink at least 10 for interactive AI; at most 50 ms, 10 up and 5 down for remote
/// media; 5 both ways for artifacts; 20 both ways for bulk traffic).
pub open spec fn admission_spec(class: TrafficClassV1, path: NetworkPathKindV1, link: Option<LinkBenchmarkV1>, has_candidate: bool) -> (bool, Seq<char>) {
    if path == NetworkPathKindV1::ControllerLocal {
        (true, LOCAL_REASON@)
    } else if class == TrafficClassV1::AuthorityControl {
        (has_candidate, if has_candidate { AUTHORITY_REASON@ } else { NO_CANDIDATE_REASON@ })
    } else {
        match link {
            None => (false, NO_LINK_REASON@),
            Some(l) => match class {
                TrafficClassV1::InteractiveAi => (l.rtt_micros_p50 <= 75_000 && l.uplink_bps >= 2_000_000 && l.downlink_bps >= 10_000_000,
                    INTERACTIVE_REASON@),
                TrafficClassV1::RemoteMedia => (l.rtt_micros_p50 <= 50_000 && l.uplink_bps >= 10_000_000 && l.downlink_bps >= 5_000_000,
                    MEDIA_REASON@),
                TrafficClassV1::Artifact => (l.uplink_bps >= 5_000_000 && l.downlink_bps >= 5_000_000, ARTIFACT_REASON@),
                _ => (l.uplink_bps >= 20_000_000 && l.downlink_bps >= 20_000_000, BULK_REASON@),
            },
        }
    }
}

/// What each class of traffic needs off the controller: authority traffic an authenticated
/// candidate, and performance traffic a link that meets its thresholds (interactive AI at most
/// 75 ms p50 round trip, at least 2 Mbit/s up and 10 down; remote media at most 50 ms, at least
/// 10 up and 5 down; artifacts at least 5 each way; bulk at least 20 each way). Each class is
/// admitted exactly when its needs are met, and everything is admitted on the controller.
pub proof fn law_traffic_admission_thresholds(class: TrafficClassV1, path: NetworkPathKindV1, link: Option<LinkBenchmarkV1>, has_candidate: bool)
    ensures
        path == NetworkPathKindV1::ControllerLocal ==> admission_spec(class, path, link, has_candidate).0,
        path != NetworkPathKindV1::ControllerLocal && class == TrafficClassV1::AuthorityControl
            ==> admission_spec(class, path, link, has_candidate).0 == has_candidate,
        path != NetworkPathKindV1::ControllerLocal && class == TrafficClassV1::InteractiveAi
            ==> admission_spec(class, path, link, has_candidate).0 == (link matches Some(l) && l.rtt_micros_p50 <= 75_000
                && l.uplink_bps >= 2_000_000 && l.downlink_bps >= 10_000_000),
        path != NetworkPathKindV1::ControllerLocal && class == TrafficClassV1::RemoteMedia
            ==> admission_spec(class, path, link, has_candidate).0 == (link matches Some(l) && l.rtt_micros_p50 <= 50_000
                && l.uplink_bps >= 10_000_000 && l.downlink_bps >= 5_000_000),
        path != NetworkPathKindV1::ControllerLocal && class == TrafficClassV1::Artifact
            ==> admission_spec(class, path, link, has_candidate).0 == (link matches Some(l) && l.uplink_bps >= 5_000_000
                && l.downlink_bps >= 5_000_000),
        path != NetworkPathKindV1::ControllerLocal && class == TrafficClassV1::BulkBackground
            ==> admission_spec(class, path, link, has_candidate).0 == (link matches Some(l) && l.uplink_bps >= 20_000_000
                && l.downlink_bps >= 20_000_000),
{
}

/// Decide whether a class of traffic may use a path, given the fresh link, if any, and whether
/// an authenticated candidate exists.
pub fn admit_traffic(traffic_class: TrafficClassV1, path: NetworkPathKindV1, link: Option<&LinkBenchmarkV1>, has_candidate: bool) -> (r: TrafficAdmissionV1)
    ensures
        r.traffic_class == traffic_class,
        (r.admitted, r.reason@) == admission_spec(traffic_class, path, match link { Some(l) => Some(*l), None => None }, has_candidate),
        path != NetworkPathKindV1::ControllerLocal && traffic_class == TrafficClassV1::RemoteMedia ==> r.admitted
            == (link matches Some(l) && l.rtt_micros_p50 <= 50_000 && l.uplink_bps >= 10_000_000 && l.downlink_bps >= 5_000_000),
        path != NetworkPathKindV1::ControllerLocal && traffic_class == TrafficClassV1::InteractiveAi ==> r.admitted
            == (link matches Some(l) && l.rtt_micros_p50 <= 75_000 && l.uplink_bps >= 2_000_000 && l.downlink_bps >= 10_000_000),
        path != NetworkPathKindV1::ControllerLocal && traffic_class == TrafficClassV1::Artifact ==> r.admitted
            == (link matches Some(l) && l.uplink_bps >= 5_000_000 && l.downlink_bps >= 5_000_000),
        path != NetworkPathKindV1::ControllerLocal && traffic_class == TrafficClassV1::BulkBackground ==> r.admitted
            == (link matches Some(l) && l.uplink_bps >= 20_000_000 && l.downlink_bps >= 20_000_000),
        path != NetworkPathKindV1::ControllerLocal && traffic_class == TrafficClassV1::AuthorityControl ==> r.admitted == has_candidate,
        path == NetworkPathKindV1::ControllerLocal ==> r.admitted,
{
    if path == NetworkPathKindV1::ControllerLocal {
        return TrafficAdmissionV1 { traffic_class, admitted: true, reason: LOCAL_REASON.to_string() };
    }
    if traffic_class == TrafficClassV1::AuthorityControl {
        return TrafficAdmissionV1 {
            traffic_class,
            admitted: has_candidate,
            reason: if has_candidate { AUTHORITY_REASON.to_string() } else { NO_CANDIDATE_REASON.to_string() },
        };
    }
    let l = match link {
        None => return TrafficAdmissionV1 { traffic_class, admitted: false, reason: NO_LINK_REASON.to_string() },
        Some(l) => l,
    };
    let (admitted, reason) = match traffic_class {
        TrafficClassV1::InteractiveAi => (l.rtt_micros_p50 <= 75_000 && l.uplink_bps >= 2_000_000 && l.downlink_bps >= 10_000_000,
            INTERACTIVE_REASON),
        TrafficClassV1::RemoteMedia => (l.rtt_micros_p50 <= 50_000 && l.uplink_bps >= 10_000_000 && l.downlink_bps >= 5_000_000,
            MEDIA_REASON),
        TrafficClassV1::Artifact => (l.uplink_bps >= 5_000_000 && l.downlink_bps >= 5_000_000, ARTIFACT_REASON),
        _ => (l.uplink_bps >= 20_000_000 && l.downlink_bps >= 20_000_000, BULK_REASON),
    };
    TrafficAdmissionV1 { traffic_class, admitted, reason: reason.to_string() }
}

/// A traffic admission as plain values.
pub type AdmissionView = (TrafficClassV1, bool, Seq<char>);

/// A node entry as plain values: node, path, evidence, candidates, relays, round trip, uplink,
/// downlink, link expiry and the admissions.
pub type NodeView = (u128, NetworkPathKindV1, Seq<char>, usize, usize, Option<u64>, Option<u64>, Option<u64>, Option<i128>, Seq<AdmissionView>);

impl NetworkNodeAutopilotV1 {
    pub open spec fn view_spec(&self) -> NodeView {
        (self.node_id, self.preferred_path, self.evidence@, self.direct_candidates, self.owner_relays, self.rtt_micros_p50,
            self.uplink_kbps, self.downlink_kbps, self.link_expires_at,
            self.traffic@.map_values(|t: TrafficAdmissionV1| (t.traffic_class, t.admitted, t.reason@)))
    }
}

/// The traffic classes, in the order each node lists them.
pub open spec fn traffic_classes() -> Seq<TrafficClassV1> {
    seq![TrafficClassV1::AuthorityControl, TrafficClassV1::InteractiveAi, TrafficClassV1::RemoteMedia,
        TrafficClassV1::Artifact, TrafficClassV1::BulkBackground]
}

/// The admission of one class on an offer's path.
pub open spec fn class_admission(offer: ResourceOfferV1, now: i128, class: TrafficClassV1) -> AdmissionView {
    let a = admission_spec(class, path_spec(offer, now), fresh_link(offer.link_benchmark, now),
        direct_count(offer) > 0 || relay_count(offer) > 0);
    (class, a.0, a.1)
}

/// The autopilot's entry for a live offer at `now`.
pub open spec fn node_view_spec(offer: ResourceOfferV1, now: i128) -> NodeView {
    let link = fresh_link(offer.link_benchmark, now);
    let p = path_spec(offer, now);
    (offer.node_id, p, path_evidence(p), direct_count(offer), relay_count(offer),
        match link { Some(l) => Some(l.rtt_micros_p50), None => None },
        match link { Some(l) => Some(l.uplink_bps / 1000), None => None },
        match link { Some(l) => Some(l.downlink_bps / 1000), None => None },
        match link { Some(l) => Some(l.expires_at), None => None },
        traffic_classes().map_values(|c: TrafficClassV1| class_admission(offer, now, c)))
}

/// An entry placed into a list ordered by node id, after every entry of no greater id.
pub open spec fn insert_by_node(sorted: Seq<NodeView>, n: NodeView) -> Seq<NodeView>
    decreases sorted.len(),
{
    if sorted.len() == 0 {
        seq![n]
    } else if sorted[0].0 <= n.0 {
        seq![sorted[0]] + insert_by_node(sorted.skip(1), n)
    } else {
        seq![n] + sorted
    }
}

/// The entries of the offers live at `now` (unexpired), ordered by node id, entries of one node
/// in offer order.
pub open spec fn autopilot_nodes_spec(offers: Seq<ResourceOfferV1>, now: i128) -> Seq<NodeView>
    decreases offers.len(),
{
    if offers.len() == 0 {
        Seq::empty()
    } else {
        let rest = autopilot_nodes_spec(offers.drop_last(), now);
        if offers.last().expires_at > now {
            insert_by_node(rest, node_view_spec(offers.last(), now))
        } else {
            rest
        }
    }
}

proof fn lemma_insert_by_node(s: Seq<NodeView>, n: NodeView, p: int)
    requires
        0 <= p <= s.len(),
        forall|j: int| 0 <= j < p ==> (#[trigger] s[j]).0 <= n.0,
        p < s.len() ==> s[p].0 > n.0,
    ensures
        insert_by_node(s, n) == s.insert(p, n),
    decreases s.len(),
{
    if s.len() == 0 {
        assert(s.insert(p, n) =~= seq![n]);
    } else if p == 0 {
        assert(s.insert(0, n) =~= seq![n] + s);
    } else {
        assert forall|j: int| 0 <= j < p - 1 implies (#[trigger] s.skip(1)[j]).0 <= n.0 by {
            assert(s.skip(1)[j] == s[j + 1]);
        }
        if p < s.len() {
            assert(s.skip(1)[p - 1] == s[p]);
        }
        lemma_insert_by_node(s.skip(1), n, p - 1);
        assert(seq![s[0]] + s.skip(1).insert(p - 1, n) =~= s.insert(p, n));
    }
}

/// The autopilot's entry for one live offer.
fn autopilot_node(offer: &ResourceOfferV1, now: i128) -> (r: NetworkNodeAutopilotV1)
    ensures
        r.view_spec() == node_view_spec(*offer, now),
{
    let (direct_candidates, owner_relays) = match &offer.mesh_endpoint {
        Some(e) => (e.direct_addresses.len(), e.relay_urls.len()),
        None => (0, 0),
    };
    let link: Option<&LinkBenchmarkV1> = match &offer.link_benchmark {
        Some(l) => if l.expires_at > now && l.rtt_micros_p50 > 0 && l.uplink_bps > 0 && l.downlink_bps > 0 {
            Some(l)
        } else {
            None
        },
        None => None,
    };
    let ghost link_view = fresh_link(offer.link_benchmark, now);
    assert(link_view == match link { Some(l) => Some(*l), None => None });
    let direct_observed = match link {
        Some(l) => l.observed_path == Some(ObservedLinkPathV1::Direct),
        None => false,
    };
    let relay_observed = match link {
        Some(l) => l.observed_path == Some(ObservedLinkPathV1::OwnerRelay),
        None => false,
    };
    let (preferred_path, evidence) = if offer.mesh_endpoint.is_none() {
        (NetworkPathKindV1::ControllerLocal, LOCAL_EVIDENCE)
    } else if direct_observed {
        (NetworkPathKindV1::DirectMeasured, DIRECT_MEASURED_EVIDENCE)
    } else if relay_observed {
        (NetworkPathKindV1::OwnerRelayMeasured, RELAY_MEASURED_EVIDENCE)
    } else if link.is_some() && direct_candidates > 0 {
        (NetworkPathKindV1::DirectCandidate, DIRECT_CANDIDATE_EVIDENCE)
    } else if owner_relays > 0 {
        (NetworkPathKindV1::OwnerRelayBootstrap, RELAY_BOOTSTRAP_EVIDENCE)
    } else {
        (NetworkPathKindV1::Recovering, RECOVERING_EVIDENCE)
    };
    assert(preferred_path == path_spec(*offer, now));
    let has_candidate = direct_candidates > 0 || owner_relays > 0;
    let mut traffic: Vec<TrafficAdmissionV1> = Vec::new();
    traffic.push(admit_traffic(TrafficClassV1::AuthorityControl, preferred_path, link, has_candidate));
    traffic.push(admit_traffic(TrafficClassV1::InteractiveAi, preferred_path, link, has_candidate));
    traffic.push(admit_traffic(TrafficClassV1::RemoteMedia, preferred_path, link, has_candidate));
    traffic.push(admit_traffic(TrafficClassV1::Artifact, preferred_path, link, has_candidate));
    traffic.push(admit_traffic(TrafficClassV1::BulkBackground, preferred_path, link, has_candidate));
    let r = NetworkNodeAutopilotV1 {
        node_id: offer.node_id,
        preferred_path,
        evidence: evidence.to_string(),
        direct_candidates,
        owner_relays,
        rtt_micros_p50: match link { Some(l) => Some(l.rtt_micros_p50), None => None },
        uplink_kbps: match link { Some(l) => Some(l.uplink_bps / 1000), None => None },
        downlink_kbps: match link { Some(l) => Some(l.downlink_bps / 1000), None => None },
        link_expires_at: match link { Some(l) => Some(l.expires_at), None => None },
        traffic,
    };
    proof {
        let got = r.traffic@.map_values(|t: TrafficAdmissionV1| (t.traffic_class, t.admitted, t.reason@));
        let want = traffic_classes().map_values(|c: TrafficClassV1| class_admission(*offer, now, c));
        assert(got.len() == 5 && want.len() == 5);
        assert forall|k: int| 0 <= k < 5 implies got[k] == want[k] by {
            assert(traffic_classes()[k] == want_class(k));
        }
        assert(got =~= want);
        assert(r.evidence@ == path_evidence(preferred_path));
    }
    r
}

spec fn want_class(k: int) -> TrafficClassV1 {
    if k == 0 {
        TrafficClassV1::AuthorityControl
    } else if k == 1 {
        TrafficClassV1::InteractiveAi
    } else if k == 2 {
        TrafficClassV1::RemoteMedia
    } else if k == 3 {
        TrafficClassV1::Artifact
    } else {
        TrafficClassV1::BulkBackground
    }
}

/// Performance traffic to a node over the network is admitted only after a fresh end-to-end link
/// benchmark, and authority traffic only where an authenticated candidate is advertised.
pub proof fn law_performance_traffic_needs_a_fresh_benchmark(offer: ResourceOfferV1, now: i128, class: TrafficClassV1)
    requires
        offer.mesh_endpoint is Some,
    ensures
        class != TrafficClassV1::AuthorityControl && class_admission(offer, now, class).1 ==> fresh_link(offer.link_benchmark, now) is Some,
        class == TrafficClassV1::AuthorityControl && class_admission(offer, now, class).1 ==> direct_count(offer) > 0 || relay_count(offer) > 0,
{
}

/// Each path a node is given rests on the evidence its name claims: the controller itself only
/// where the offer has no endpoint; a measured path only over a link benchmark that is unexpired
/// at `now`, measured something each way and reports that path; a direct candidate only with
/// such a benchmark and an advertised direct address; the relay bootstrap only with an
/// advertised owner relay. The link figures reported are those of such a benchmark.
pub proof fn law_autopilot_paths_follow_evidence(offer: ResourceOfferV1, now: i128)
    ensures
        (node_view_spec(offer, now).1 == NetworkPathKindV1::ControllerLocal) == (offer.mesh_endpoint is None),
        node_view_spec(offer, now).1 == NetworkPathKindV1::DirectMeasured ==> (offer.link_benchmark matches Some(l)
            && l.expires_at > now && l.rtt_micros_p50 > 0 && l.uplink_bps > 0 && l.downlink_bps > 0
            && l.observed_path == Some(ObservedLinkPathV1::Direct)),
        node_view_spec(offer, now).1 == NetworkPathKindV1::OwnerRelayMeasured ==> (offer.link_benchmark matches Some(l)
            && l.expires_at > now && l.rtt_micros_p50 > 0 && l.uplink_bps > 0 && l.downlink_bps > 0
            && l.observed_path == Some(ObservedLinkPathV1::OwnerRelay)),
        node_view_spec(offer, now).1 == NetworkPathKindV1::DirectCandidate ==> (offer.link_benchmark matches Some(l)
            && l.expires_at > now && l.rtt_micros_p50 > 0 && l.uplink_bps > 0 && l.downlink_bps > 0),
        node_view_spec(offer, now).1 == NetworkPathKindV1::DirectCandidate ==> (offer.mesh_endpoint matches Some(e)
            && e.direct_addresses@.len() > 0),
        node_view_spec(offer, now).1 == NetworkPathKindV1::OwnerRelayBootstrap ==> (offer.mesh_endpoint matches Some(e)
            && e.relay_urls@.len() > 0),
        node_view_spec(offer, now).5 is Some ==> (offer.link_benchmark matches Some(l) && l.expires_at > now
            && node_view_spec(offer, now).5 == Some(l.rtt_micros_p50)),
{
}

/// Whether entries come by node id, smallest first.
pub open spec fn by_node_id(s: Seq<NodeView>) -> bool {
    forall|a: int, b: int| 0 <= a < b < s.len() ==> (#[trigger] s[a]).0 <= (#[trigger] s[b]).0
}

proof fn lemma_insert_by_node_sorted(s: Seq<NodeView>, n: NodeView)
    requires
        by_node_id(s),
    ensures
        by_node_id(insert_by_node(s, n)),
        forall|x: NodeView| #[trigger] insert_by_node(s, n).contains(x) <==> (s.contains(x) || x == n),
    decreases s.len(),
{
    let r = insert_by_node(s, n);
    if s.len() == 0 {
        assert(r =~= seq![n]);
        assert forall|x: NodeView| r.contains(x) <==> (s.contains(x) || x == n) by {
            if x == n {
                assert(r[0] == n);
            }
        }
    } else if s[0].0 <= n.0 {
        let t = s.skip(1);
        assert forall|a: int, b: int| 0 <= a < b < t.len() implies (#[trigger] t[a]).0 <= (#[trigger] t[b]).0 by {
            assert(t[a] == s[a + 1] && t[b] == s[b + 1]);
        }
        lemma_insert_by_node_sorted(t, n);
        let rest = insert_by_node(t, n);
        assert(r == seq![s[0]] + rest);
        assert forall|x: NodeView| r.contains(x) <==> (s.contains(x) || x == n) by {
            if r.contains(x) {
                let j = choose|j: int| 0 <= j < r.len() && r[j] == x;
                if j > 0 {
                    assert(rest[j - 1] == x);
                    assert(rest.contains(x));
                    if t.contains(x) {
                        let q = choose|q: int| 0 <= q < t.len() && t[q] == x;
                        assert(s[q + 1] == x);
                    }
                } else {
                    assert(s[0] == x);
                }
            }
            if s.contains(x) {
                let q = choose|q: int| 0 <= q < s.len() && s[q] == x;
                if q == 0 {
                    assert(r[0] == x);
                } else {
                    assert(t[q - 1] == x);
                    assert(t.contains(x));
                    assert(rest.contains(x));
                    let j = choose|j: int| 0 <= j < rest.len() && rest[j] == x;
                    assert(r[j + 1] == x);
                }
            }
            if x == n {
                assert(rest.contains(n));
                let j = choose|j: int| 0 <= j < rest.len() && rest[j] == n;
                assert(r[j + 1] == n);
            }
        }
        assert forall|a: int, b: int| 0 <= a < b < r.len() implies (#[trigger] r[a]).0 <= (#[trigger] r[b]).0 by {
            if a > 0 {
                assert(r[a] == rest[a - 1] && r[b] == rest[b - 1]);
            } else {
                assert(r[b] == rest[b - 1]);
                assert(rest.contains(rest[b - 1]));
                if t.contains(rest[b - 1]) {
                    let q = choose|q: int| 0 <= q < t.len() && t[q] == rest[b - 1];
                    assert(s[q + 1] == t[q]);
                }
            }
        }
    } else {
        assert(r == seq![n] + s);
        assert forall|x: NodeView| r.contains(x) <==> (s.contains(x) || x == n) by {
            if r.contains(x) {
                let j = choose|j: int| 0 <= j < r.len() && r[j] == x;
                if j > 0 {
                    assert(s[j - 1] == x);
                }
            }
            if s.contains(x) {
                let q = choose|q: int| 0 <= q < s.len() && s[q] == x;
                assert(r[q + 1] == x);
            }
            if x == n {
                assert(r[0] == n);
            }
        }
        assert forall|a: int, b: int| 0 <= a < b < r.len() implies (#[trigger] r[a]).0 <= (#[trigger] r[b]).0 by {
            if a > 0 {
                assert(r[a] == s[a - 1] && r[b] == s[b - 1]);
            } else {
                assert(r[b] == s[b - 1]);
                assert(s[0].0 <= s[b - 1].0 || b - 1 == 0);
            }
        }
    }
}

/// The autopilot reports only unexpired offers, each as its own entry, ordered by node id.
pub proof fn law_autopilot_reports_live_offers_by_node(offers: Seq<ResourceOfferV1>, now: i128)
    ensures
        by_node_id(autopilot_nodes_spec(offers, now)),
        forall|j: int| 0 <= j < autopilot_nodes_spec(offers, now).len() ==> exists|i: int| 0 <= i < offers.len()
            && offers[i].expires_at > now && #[trigger] autopilot_nodes_spec(offers, now)[j] == node_view_spec(offers[i], now),
    decreases offers.len(),
{
    if offers.len() > 0 {
        let init = offers.drop_last();
        law_autopilot_reports_live_offers_by_node(init, now);
        let rest = autopilot_nodes_spec(init, now);
        let all = autopilot_nodes_spec(offers, now);
        if offers.last().expires_at > now {
            lemma_insert_by_node_sorted(rest, node_view_spec(offers.last(), now));
        }
        assert forall|j: int| 0 <= j < all.len() implies exists|i: int| 0 <= i < offers.len()
            && offers[i].expires_at > now && #[trigger] all[j] == node_view_spec(offers[i], now) by {
            assert(all.contains(all[j]));
            if rest.contains(all[j]) {
                let q = choose|q: int| 0 <= q < rest.len() && rest[q] == all[j];
                let i = choose|i: int| 0 <= i < init.len() && init[i].expires_at > now && #[trigger] rest[q] == node_view_spec(init[i], now);
                assert(offers[i] == init[i]);
            } else {
                assert(offers[offers.len() - 1] == offers.last());
            }
        }
    }
}

/// The network autopilot's status at `now` over the current signed offers: for each offer that
/// has not expired, the path its node is reached by, the fresh link figures, and which classes
/// of traffic may use that path, ordered by node id.
pub fn network_autopilot_status(offers: &Vec<ResourceOfferV1>, now: i128) -> (s: NetworkAutopilotStatusV1)
    ensures
        s.schema@ == NetworkAutopilotStatusV1::SCHEMA@,
        s.generated_at == now,
        s.mode@ == NetworkAutopilotStatusV1::MODE@,
        s.policy@ == NetworkAutopilotStatusV1::POLICY@,
        s.nodes@.map_values(|n: NetworkNodeAutopilotV1| n.view_spec()) == autopilot_nodes_spec(offers@, now),
{
    let mut nodes: Vec<NetworkNodeAutopilotV1> = Vec::new();
    let mut i: usize = 0;
    while i < offers.len()
        invariant
            i <= offers@.len(),
            nodes@.map_values(|n: NetworkNodeAutopilotV1| n.view_spec()) == autopilot_nodes_spec(offers@.take(i as int), now),
        decreases offers@.len() - i,
    {
        proof {
            assert(offers@.take(i + 1).drop_last() =~= offers@.take(i as int));
            assert(offers@.take(i + 1).last() == offers@[i as int]);
        }
        if offers[i].expires_at > now {
            let node = autopilot_node(&offers[i], now);
            let ghost before = nodes@.map_values(|n: NetworkNodeAutopilotV1| n.view_spec());
            let mut pos: usize = 0;
            while pos < nodes.len() && nodes[pos].node_id <= node.node_id
                invariant
                    pos <= nodes@.len(),
                    before == nodes@.map_values(|n: NetworkNodeAutopilotV1| n.view_spec()),
                    forall|j: int| 0 <= j < pos ==> (#[trigger] before[j]).0 <= node.node_id,
                decreases nodes@.len() - pos,
            {
                assert(before[pos as int].0 == nodes@[pos as int].node_id);
                pos = pos + 1;
            }
            proof {
                if pos < nodes@.len() {
                    assert(before[pos as int].0 == nodes@[pos as int].node_id);
                }
                lemma_insert_by_node(before, node.view_spec(), pos as int);
            }
            let ghost nv = node.view_spec();
            let ghost old_nodes = nodes@;
            nodes.insert(pos, node);
            proof {
                assert(nodes@ == old_nodes.insert(pos as int, nodes@[pos as int]));
                assert(nodes@.map_values(|n: NetworkNodeAutopilotV1| n.view_spec()) =~= before.insert(pos as int, nv));
            }
        }
        i = i + 1;
    }
    proof {
        assert(offers@.take(offers@.len() as int) =~= offers@);
    }
    NetworkAutopilotStatusV1 {
        schema: NetworkAutopilotStatusV1::SCHEMA.to_string(),
        generated_at: now,
        mode: NetworkAutopilotStatusV1::MODE.to_string(),
        nodes,
        policy: NetworkAutopilotStatusV1::POLICY.to_string(),
    }
}

} // verus!
