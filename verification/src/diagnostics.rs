//! The fabric's deterministic self-scan: findings drawn from enrolled identities, live offers,
//! recent ledger evidence and protected-artifact replicas, ranked by severity; a health score;
//! and the scheduling constraints that the Governor lets diagnostics impose on their own.
//!
//! Identifiers appear in findings as their hyphenated UUID text. The evidence digest of a report
//! is the content address of the report's canonical JSON, which the caller serializes.

use crate::controller::{bytes_lt, resource_class_name, resource_class_name_spec, text_lt};
use crate::edge::{parse_uuid, uuid_parse_of};
use crate::policy::Governor;
use crate::protocol::{
    ArtifactRefV1, ArtifactReplicaReceiptV1, NodeIdentityV1, ResourceClass, ResourceOfferV1, StorageClass,
    NANOS_PER_SECOND,
};
use crate::service::be_bytes_u128;
use crate::crypto::hex_lower;
use crate::storage::{content_address, sha256_digest};
use crate::text::{contains_text, decimal, decimal_text, text_eq, utf8, vec_contains_text};
use uuid::Uuid;
use vstd::prelude::*;
use vstd::string::StringExecFns;

verus! {

broadcast use vstd::string::group_string_axioms;

pub const REPORT_SCHEMA: &'static str = "rampage.fabric-diagnostic-report.v1";
/// How far back ledger evidence counts, in nanoseconds: fifteen minutes.
pub const EVIDENCE_WINDOW_NANOS: i128 = 15 * 60 * NANOS_PER_SECOND;
/// Thermal headroom below which a contributor is constrained.
pub const THERMAL_FLOOR_PERCENT: u8 = 35;
/// Battery below which a contributor off external power is constrained.
pub const BATTERY_FLOOR_PERCENT: u8 = 40;
/// Median round trip above which interactive placement is suppressed.
pub const HIGH_LATENCY_MICROS: u64 = 75_000;
/// Slower link direction below which transfer-heavy work is suppressed.
pub const LOW_BANDWIDTH_BPS: u64 = 25_000_000;

#[derive(Debug, Clone, Copy, PartialEq, Eq, Structural)]
pub enum DiagnosticSeverity {
    Info,
    Warning,
    Critical,
}

/// The rank of a severity: critical findings come first.
pub open spec fn severity_rank(s: DiagnosticSeverity) -> int {
    match s {
        DiagnosticSeverity::Info => 0,
        DiagnosticSeverity::Warning => 1,
        DiagnosticSeverity::Critical => 2,
    }
}

fn severity_level(s: DiagnosticSeverity) -> (r: u8)
    ensures
        r == severity_rank(s),
{
    match s {
        DiagnosticSeverity::Info => 0,
        DiagnosticSeverity::Warning => 1,
        DiagnosticSeverity::Critical => 2,
    }
}

/// What a finding proposes: an action, its promotion risk, whether autonomy may take it within
/// the owner's envelope, the threshold it must keep, and the gates and rollback it runs under.
#[derive(Debug, Clone)]
pub struct DiagnosticProposal {
    pub action: &'static str,
    pub risk: &'static str,
    pub auto_eligible: bool,
    pub threshold: &'static str,
    pub required_gates: Vec<&'static str>,
    pub rollback: &'static str,
}

#[derive(Debug, Clone)]
pub struct DiagnosticFinding {
    pub severity: DiagnosticSeverity,
    pub code: &'static str,
    pub scope: String,
    pub evidence: String,
    pub proposal: DiagnosticProposal,
}

/// A finding as plain values: severity, code, scope, evidence, action, risk, autonomy and
/// threshold.
pub type FindingView = (DiagnosticSeverity, Seq<char>, Seq<char>, Seq<char>, Seq<char>, Seq<char>, bool, Seq<char>);

impl DiagnosticFinding {
    pub open spec fn finding_view(&self) -> FindingView {
        (
            self.severity,
            self.code@,
            self.scope@,
            self.evidence@,
            self.proposal.action@,
            self.proposal.risk@,
            self.proposal.auto_eligible,
            self.proposal.threshold@,
        )
    }

    /// The gates and rollback every proposal runs under.
    pub open spec fn standard_proposal(&self) -> bool {
        &&& self.proposal.required_gates@.len() == 4
        &&& self.proposal.required_gates@[0]@ == "deterministic_replay"@
        &&& self.proposal.required_gates@[1]@ == "adversarial_security"@
        &&& self.proposal.required_gates@[2]@ == "shadow"@
        &&& self.proposal.required_gates@[3]@ == "canary_rollback"@
        &&& self.proposal.rollback@ == "automatic_on_threshold_breach"@
    }
}

/// The views of a list of findings.
pub open spec fn findings_view(findings: Seq<DiagnosticFinding>) -> Seq<FindingView> {
    findings.map_values(|f: DiagnosticFinding| f.finding_view())
}

/// A finding's view from its parts.
pub open spec fn fv(
    severity: DiagnosticSeverity,
    code: Seq<char>,
    scope: Seq<char>,
    evidence: Seq<char>,
    action: Seq<char>,
    risk: Seq<char>,
    auto_eligible: bool,
    threshold: Seq<char>,
) -> FindingView {
    (severity, code, scope, evidence, action, risk, auto_eligible, threshold)
}

#[allow(clippy::too_many_arguments)]
pub fn diagnostic_finding(
    severity: DiagnosticSeverity,
    code: &'static str,
    scope: String,
    evidence: String,
    action: &'static str,
    risk: &'static str,
    auto_eligible: bool,
    threshold: &'static str,
) -> (r: DiagnosticFinding)
    ensures
        r.finding_view() == fv(severity, code@, scope@, evidence@, action@, risk@, auto_eligible, threshold@),
        r.standard_proposal(),
{
    DiagnosticFinding {
        severity,
        code,
        scope,
        evidence,
        proposal: DiagnosticProposal {
            action,
            risk,
            auto_eligible,
            threshold,
            required_gates: vec!["deterministic_replay", "adversarial_security", "shadow", "canary_rollback"],
            rollback: "automatic_on_threshold_breach",
        },
    }
}

/// The hyphenated lowercase text of a UUID, as `Uuid`'s `Display` writes it: the 32 lowercase hex
/// digits of its big-endian bytes, grouped 8-4-4-4-12 by hyphens.
pub open spec fn uuid_text_of(id: u128) -> Seq<char> {
    let h = hex_lower(be_bytes_u128(id));
    h.subrange(0, 8) + seq!['-'] + h.subrange(8, 12) + seq!['-'] + h.subrange(12, 16) + seq!['-']
        + h.subrange(16, 20) + seq!['-'] + h.subrange(20, 32)
}

/// UUID text is 36 characters of hex digits and hyphens, hyphens at 8, 13, 18 and 23.
pub proof fn lemma_uuid_text_shape(id: u128)
    ensures
        uuid_text_of(id).len() == 36,
        forall|j: int| 0 <= j < 36 ==> #[trigger] uuid_text_of(id)[j] != '.',
{
    let h = hex_lower(be_bytes_u128(id));
    crate::crypto::lemma_hex_lower_digits(be_bytes_u128(id));
    let t = uuid_text_of(id);
    assert forall|j: int| 0 <= j < 36 implies #[trigger] t[j] != '.' by {
        if j < 8 {
            assert(t[j] == h[j]);
        } else if j == 8 || j == 13 || j == 18 || j == 23 {
        } else if j < 13 {
            assert(t[j] == h[j - 1]);
        } else if j < 18 {
            assert(t[j] == h[j - 2]);
        } else if j < 23 {
            assert(t[j] == h[j - 3]);
        } else {
            assert(t[j] == h[j - 4]);
        }
    }
}

/// The text of a UUID, by `Uuid::from_u128` (big-endian bytes) and its `Display` (hyphenated
/// lowercase hex); the contract states that text.
#[verifier::external_body]
pub(crate) fn uuid_text(id: u128) -> (r: String)
    ensures
        r@ == uuid_text_of(id),
{
    Uuid::from_u128(id).to_string()
}

/// `n / d` to one decimal place, the exact quotient rounded half to even.
pub open spec fn tenths_value(n: nat, d: nat) -> nat {
    let q = (n * 10) / d;
    let rem = (n * 10) % d;
    if 2 * rem > d || (2 * rem == d && q % 2 == 1) { q + 1 } else { q }
}

/// The decimal text of `t` tenths: the whole part, a point and one digit.
pub open spec fn tenths_text_spec(t: nat) -> Seq<char> {
    decimal(t / 10) + "."@ + decimal(t % 10)
}

fn tenths_text(n: u64, d: u64) -> (r: String)
    requires
        d > 0,
    ensures
        r@ == tenths_text_spec(tenths_value(n as nat, d as nat)),
{
    let scaled: u128 = n as u128 * 10;
    let q: u128 = scaled / d as u128;
    let rem: u128 = scaled % d as u128;
    let t: u128 = if 2 * rem > d as u128 || (2 * rem == d as u128 && q % 2 == 1) { q + 1 } else { q };
    assert(t <= n as u128 * 10 + 1) by (nonlinear_arith)
        requires
            q == scaled / (d as u128),
            d > 0,
            scaled == n * 10,
            t <= q + 1,
    ;
    let whole = decimal_text((t / 10) as u64);
    let point = whole.concat(".");
    let frac = decimal_text((t % 10) as u64);
    point.concat(frac.as_str())
}

pub open spec fn owner_stop_finding() -> FindingView {
    fv(
        DiagnosticSeverity::Critical,
        "OWNER_STOP_ACTIVE"@,
        "fabric"@,
        "The durable owner stop latch is active; no new work can be admitted."@,
        "retain_stop_and_surface_state"@,
        "r0_configuration"@,
        false,
        "owner stop is never overridden by autonomy"@,
    )
}

fn owner_stop() -> (r: DiagnosticFinding)
    ensures
        r.finding_view() == owner_stop_finding(),
        r.standard_proposal(),
{
    diagnostic_finding(
        DiagnosticSeverity::Critical,
        "OWNER_STOP_ACTIVE",
        "fabric".to_string(),
        "The durable owner stop latch is active; no new work can be admitted.".to_string(),
        "retain_stop_and_surface_state",
        "r0_configuration",
        false,
        "owner stop is never overridden by autonomy",
    )
}

pub open spec fn no_enrolled_finding() -> FindingView {
    fv(
        DiagnosticSeverity::Warning,
        "NO_ENROLLED_CONTRIBUTORS"@,
        "fabric"@,
        "No contributor identity is enrolled, so the fabric has no remote capacity."@,
        "prepare_one_time_enrollment"@,
        "r0_configuration"@,
        true,
        "invite remains short-lived and enrollment remains cryptographically bound"@,
    )
}

fn no_enrolled() -> (r: DiagnosticFinding)
    ensures
        r.finding_view() == no_enrolled_finding(),
        r.standard_proposal(),
{
    diagnostic_finding(
        DiagnosticSeverity::Warning,
        "NO_ENROLLED_CONTRIBUTORS",
        "fabric".to_string(),
        "No contributor identity is enrolled, so the fabric has no remote capacity.".to_string(),
        "prepare_one_time_enrollment",
        "r0_configuration",
        true,
        "invite remains short-lived and enrollment remains cryptographically bound",
    )
}

pub open spec fn node_without_offer_finding(scope: Seq<char>) -> FindingView {
    fv(
        DiagnosticSeverity::Warning,
        "NODE_WITHOUT_LIVE_OFFER"@,
        scope,
        "The enrolled contributor has no unexpired signed resource offer."@,
        "request_offer_refresh"@,
        "r0_configuration"@,
        true,
        "refresh only; no work is issued until a verified offer arrives"@,
    )
}

fn node_without_offer(scope: String) -> (r: DiagnosticFinding)
    ensures
        r.finding_view() == node_without_offer_finding(scope@),
        r.standard_proposal(),
{
    diagnostic_finding(
        DiagnosticSeverity::Warning,
        "NODE_WITHOUT_LIVE_OFFER",
        scope,
        "The enrolled contributor has no unexpired signed resource offer.".to_string(),
        "request_offer_refresh",
        "r0_configuration",
        true,
        "refresh only; no work is issued until a verified offer arrives",
    )
}

pub open spec fn missing_capability_finding(scope: Seq<char>) -> FindingView {
    fv(
        DiagnosticSeverity::Warning,
        "MISSING_WORKLOAD_CAPABILITY_CONTRACT"@,
        scope,
        "The live offer predates operation-exact workload capability discovery."@,
        "request_offer_refresh"@,
        "r0_configuration"@,
        true,
        "jobs remain fail-closed to the legacy adapter/resource contract"@,
    )
}

fn missing_capability(scope: String) -> (r: DiagnosticFinding)
    ensures
        r.finding_view() == missing_capability_finding(scope@),
        r.standard_proposal(),
{
    diagnostic_finding(
        DiagnosticSeverity::Warning,
        "MISSING_WORKLOAD_CAPABILITY_CONTRACT",
        scope,
        "The live offer predates operation-exact workload capability discovery.".to_string(),
        "request_offer_refresh",
        "r0_configuration",
        true,
        "jobs remain fail-closed to the legacy adapter/resource contract",
    )
}

pub open spec fn loopback_only_finding(scope: Seq<char>) -> FindingView {
    fv(
        DiagnosticSeverity::Info,
        "LOOPBACK_POLLING_ONLY"@,
        scope,
        "The contributor uses the token-protected loopback polling lane and cannot receive mesh-only model or artifact traffic."@,
        "refresh_signed_mesh_endpoint"@,
        "r0_configuration"@,
        false,
        "local polling jobs remain eligible; mesh-only operations still require a signed endpoint"@,
    )
}

fn loopback_only(scope: String) -> (r: DiagnosticFinding)
    ensures
        r.finding_view() == loopback_only_finding(scope@),
        r.standard_proposal(),
{
    diagnostic_finding(
        DiagnosticSeverity::Info,
        "LOOPBACK_POLLING_ONLY",
        scope,
        "The contributor uses the token-protected loopback polling lane and cannot receive mesh-only model or artifact traffic.".to_string(),
        "refresh_signed_mesh_endpoint",
        "r0_configuration",
        false,
        "local polling jobs remain eligible; mesh-only operations still require a signed endpoint",
    )
}

pub open spec fn empty_route_finding(scope: Seq<char>) -> FindingView {
    fv(
        DiagnosticSeverity::Critical,
        "AUTHENTICATED_ROUTE_EMPTY"@,
        scope,
        "The signed mesh endpoint exposes neither a direct address nor an owner-controlled relay."@,
        "reprobe_nat_and_owner_relay"@,
        "r1_allowlisted_source"@,
        true,
        "canary route must authenticate the enrolled endpoint before use"@,
    )
}

fn empty_route(scope: String) -> (r: DiagnosticFinding)
    ensures
        r.finding_view() == empty_route_finding(scope@),
        r.standard_proposal(),
{
    diagnostic_finding(
        DiagnosticSeverity::Critical,
        "AUTHENTICATED_ROUTE_EMPTY",
        scope,
        "The signed mesh endpoint exposes neither a direct address nor an owner-controlled relay.".to_string(),
        "reprobe_nat_and_owner_relay",
        "r1_allowlisted_source",
        true,
        "canary route must authenticate the enrolled endpoint before use",
    )
}

pub open spec fn link_missing_finding(scope: Seq<char>) -> FindingView {
    fv(
        DiagnosticSeverity::Info,
        "LINK_QUALIFICATION_MISSING"@,
        scope,
        "No fresh bounded link benchmark is attached; latency-sensitive placement stays conservative."@,
        "run_bounded_link_probe"@,
        "r0_configuration"@,
        true,
        "probe is capped at the protocol transfer limit and grants no job authority"@,
    )
}

fn link_missing(scope: String) -> (r: DiagnosticFinding)
    ensures
        r.finding_view() == link_missing_finding(scope@),
        r.standard_proposal(),
{
    diagnostic_finding(
        DiagnosticSeverity::Info,
        "LINK_QUALIFICATION_MISSING",
        scope,
        "No fresh bounded link benchmark is attached; latency-sensitive placement stays conservative.".to_string(),
        "run_bounded_link_probe",
        "r0_configuration",
        true,
        "probe is capped at the protocol transfer limit and grants no job authority",
    )
}

pub open spec fn inventory_empty_finding(scope: Seq<char>) -> FindingView {
    fv(
        DiagnosticSeverity::Warning,
        "LOCAL_MODEL_INVENTORY_EMPTY"@,
        scope,
        "Ollama is advertised but no exact locally installed model is executable."@,
        "refresh_local_model_inventory"@,
        "r0_configuration"@,
        true,
        "cloud aliases and digestless models remain excluded"@,
    )
}

fn inventory_empty(scope: String) -> (r: DiagnosticFinding)
    ensures
        r.finding_view() == inventory_empty_finding(scope@),
        r.standard_proposal(),
{
    diagnostic_finding(
        DiagnosticSeverity::Warning,
        "LOCAL_MODEL_INVENTORY_EMPTY",
        scope,
        "Ollama is advertised but no exact locally installed model is executable.".to_string(),
        "refresh_local_model_inventory",
        "r0_configuration",
        true,
        "cloud aliases and digestless models remain excluded",
    )
}

pub open spec fn idle_capacity_finding(scope: Seq<char>) -> FindingView {
    fv(
        DiagnosticSeverity::Info,
        "IDLE_CAPACITY_AVAILABLE"@,
        scope,
        "The contributor reports idle capacity that can accept bounded preemptible work."@,
        "prefer_idle_capacity"@,
        "r0_configuration"@,
        true,
        "owner activity, battery, thermal, lease, and deadline gates remain authoritative"@,
    )
}

fn idle_capacity(scope: String) -> (r: DiagnosticFinding)
    ensures
        r.finding_view() == idle_capacity_finding(scope@),
        r.standard_proposal(),
{
    diagnostic_finding(
        DiagnosticSeverity::Info,
        "IDLE_CAPACITY_AVAILABLE",
        scope,
        "The contributor reports idle capacity that can accept bounded preemptible work.".to_string(),
        "prefer_idle_capacity",
        "r0_configuration",
        true,
        "owner activity, battery, thermal, lease, and deadline gates remain authoritative",
    )
}

pub open spec fn thermal_finding(scope: Seq<char>, headroom: u8) -> FindingView {
    fv(
        DiagnosticSeverity::Warning,
        "THERMAL_HEADROOM_CONSTRAINED"@,
        scope,
        "Thermal headroom is "@ + decimal(headroom as nat) + "%, below the autonomous scheduling threshold of 35%."@,
        "reduce_or_preempt_contributor_load"@,
        "r0_configuration"@,
        true,
        "preempt restart-tolerant work; never increase the owner thermal envelope"@,
    )
}

fn thermal(scope: String, headroom: u8) -> (r: DiagnosticFinding)
    ensures
        r.finding_view() == thermal_finding(scope@, headroom),
        r.standard_proposal(),
{
    let evidence = "Thermal headroom is ".to_string().concat(decimal_text(headroom as u64).as_str()).concat(
        "%, below the autonomous scheduling threshold of 35%.",
    );
    diagnostic_finding(
        DiagnosticSeverity::Warning,
        "THERMAL_HEADROOM_CONSTRAINED",
        scope,
        evidence,
        "reduce_or_preempt_contributor_load",
        "r0_configuration",
        true,
        "preempt restart-tolerant work; never increase the owner thermal envelope",
    )
}

pub open spec fn battery_finding(scope: Seq<char>, battery: u8) -> FindingView {
    fv(
        DiagnosticSeverity::Warning,
        "BATTERY_RESERVE_CONSTRAINED"@,
        scope,
        "Battery is "@ + decimal(battery as nat) + "%, below the autonomous donation floor of 40%."@,
        "preempt_mobile_contribution"@,
        "r0_configuration"@,
        true,
        "resume only after a fresh signed offer proves the battery floor"@,
    )
}

fn battery(scope: String, percent: u8) -> (r: DiagnosticFinding)
    ensures
        r.finding_view() == battery_finding(scope@, percent),
        r.standard_proposal(),
{
    let evidence = "Battery is ".to_string().concat(decimal_text(percent as u64).as_str()).concat(
        "%, below the autonomous donation floor of 40%.",
    );
    diagnostic_finding(
        DiagnosticSeverity::Warning,
        "BATTERY_RESERVE_CONSTRAINED",
        scope,
        evidence,
        "preempt_mobile_contribution",
        "r0_configuration",
        true,
        "resume only after a fresh signed offer proves the battery floor",
    )
}

pub open spec fn high_latency_finding(scope: Seq<char>, rtt_micros: u64) -> FindingView {
    fv(
        DiagnosticSeverity::Warning,
        "HIGH_LINK_LATENCY"@,
        scope,
        "Measured median RTT is "@ + tenths_text_spec(tenths_value(rtt_micros as nat, 1_000))
            + " ms; interactive speed-lane placement is suppressed."@,
        "prefer_throughput_or_whole_workload_lane"@,
        "r0_configuration"@,
        true,
        "placement change must improve measured completion time in shadow and canary"@,
    )
}

fn high_latency(scope: String, rtt_micros: u64) -> (r: DiagnosticFinding)
    ensures
        r.finding_view() == high_latency_finding(scope@, rtt_micros),
        r.standard_proposal(),
{
    let evidence = "Measured median RTT is ".to_string().concat(tenths_text(rtt_micros, 1_000).as_str()).concat(
        " ms; interactive speed-lane placement is suppressed.",
    );
    diagnostic_finding(
        DiagnosticSeverity::Warning,
        "HIGH_LINK_LATENCY",
        scope,
        evidence,
        "prefer_throughput_or_whole_workload_lane",
        "r0_configuration",
        true,
        "placement change must improve measured completion time in shadow and canary",
    )
}

pub open spec fn low_bandwidth_finding(scope: Seq<char>, slower_bps: u64) -> FindingView {
    fv(
        DiagnosticSeverity::Warning,
        "LOW_LINK_BANDWIDTH"@,
        scope,
        "The slower measured direction is "@ + tenths_text_spec(tenths_value(slower_bps as nat, 1_000_000))
            + " Mbps; transfer-heavy shards are suppressed."@,
        "prefer_data_local_or_low_transfer_work"@,
        "r0_configuration"@,
        true,
        "placement change must reduce measured bytes per successful result"@,
    )
}

fn low_bandwidth(scope: String, slower_bps: u64) -> (r: DiagnosticFinding)
    ensures
        r.finding_view() == low_bandwidth_finding(scope@, slower_bps),
        r.standard_proposal(),
{
    let evidence = "The slower measured direction is ".to_string().concat(tenths_text(slower_bps, 1_000_000).as_str()).concat(
        " Mbps; transfer-heavy shards are suppressed.",
    );
    diagnostic_finding(
        DiagnosticSeverity::Warning,
        "LOW_LINK_BANDWIDTH",
        scope,
        evidence,
        "prefer_data_local_or_low_transfer_work",
        "r0_configuration",
        true,
        "placement change must reduce measured bytes per successful result",
    )
}

pub open spec fn repeated_denials_finding(count: nat) -> FindingView {
    fv(
        DiagnosticSeverity::Warning,
        "REPEATED_AUTHORITY_DENIALS"@,
        "fabric"@,
        decimal(count) + " requests were denied in the bounded 15-minute evidence window."@,
        "cluster_denial_causes_and_adjust_safe_placement"@,
        "r1_allowlisted_source"@,
        true,
        "never broaden adapter, resource, network, or identity authority"@,
    )
}

fn repeated_denials(count: u64) -> (r: DiagnosticFinding)
    ensures
        r.finding_view() == repeated_denials_finding(count as nat),
        r.standard_proposal(),
{
    let evidence = decimal_text(count).concat(" requests were denied in the bounded 15-minute evidence window.");
    diagnostic_finding(
        DiagnosticSeverity::Warning,
        "REPEATED_AUTHORITY_DENIALS",
        "fabric".to_string(),
        evidence,
        "cluster_denial_causes_and_adjust_safe_placement",
        "r1_allowlisted_source",
        true,
        "never broaden adapter, resource, network, or identity authority",
    )
}

pub open spec fn repeated_failures_finding(count: nat) -> FindingView {
    fv(
        DiagnosticSeverity::Critical,
        "REPEATED_EXECUTION_FAILURES"@,
        "fabric"@,
        decimal(count) + " terminal execution failures occurred in the bounded 15-minute evidence window."@,
        "quarantine_failing_route_or_adapter"@,
        "r1_allowlisted_source"@,
        true,
        "canary recovery must produce verified receipts before normal traffic resumes"@,
    )
}

fn repeated_failures(count: u64) -> (r: DiagnosticFinding)
    ensures
        r.finding_view() == repeated_failures_finding(count as nat),
        r.standard_proposal(),
{
    let evidence = decimal_text(count).concat(
        " terminal execution failures occurred in the bounded 15-minute evidence window.",
    );
    diagnostic_finding(
        DiagnosticSeverity::Critical,
        "REPEATED_EXECUTION_FAILURES",
        "fabric".to_string(),
        evidence,
        "quarantine_failing_route_or_adapter",
        "r1_allowlisted_source",
        true,
        "canary recovery must produce verified receipts before normal traffic resumes",
    )
}

pub open spec fn under_replicated_finding(count: nat) -> FindingView {
    fv(
        DiagnosticSeverity::Warning,
        "PROTECTED_ARTIFACT_UNDER_REPLICATED"@,
        "protected_store"@,
        decimal(count) + " protected artifact(s) have fewer than two evidenced contributor replicas."@,
        "schedule_encrypted_replica_repair"@,
        "r1_allowlisted_source"@,
        true,
        "repair requires a signed storage lease, digest verification, and an independent destination"@,
    )
}

fn under_replicated(count: u64) -> (r: DiagnosticFinding)
    ensures
        r.finding_view() == under_replicated_finding(count as nat),
        r.standard_proposal(),
{
    let evidence = decimal_text(count).concat(
        " protected artifact(s) have fewer than two evidenced contributor replicas.",
    );
    diagnostic_finding(
        DiagnosticSeverity::Warning,
        "PROTECTED_ARTIFACT_UNDER_REPLICATED",
        "protected_store".to_string(),
        evidence,
        "schedule_encrypted_replica_repair",
        "r1_allowlisted_source",
        true,
        "repair requires a signed storage lease, digest verification, and an independent destination",
    )
}

/// A single finding where `cond` holds, none otherwise.
pub open spec fn opt(cond: bool, f: FindingView) -> Seq<FindingView> {
    if cond { seq![f] } else { Seq::empty() }
}

/// Whether an offer advertises Ollama with no installed model on any of its runtimes.
pub open spec fn inventory_empty_spec(offer: ResourceOfferV1) -> bool {
    &&& contains_text(offer.adapters@, "rampage.ollama.v1"@)
    &&& forall|i: int| 0 <= i < offer.model_runtimes@.len() ==> (#[trigger] offer.model_runtimes@[i]).installed_models@.len() == 0
}

/// Whether an idle owner's offer shows any capacity available.
pub open spec fn idle_capacity_spec(offer: ResourceOfferV1) -> bool {
    &&& offer.availability.owner_idle
    &&& exists|i: int| 0 <= i < offer.resources@.len() && (#[trigger] offer.resources@[i]).available > 0
}

/// The findings of one live offer, in the order the scan raises them: a missing capability
/// contract, thermal and battery pressure, the mesh route, the link measurement, an empty local
/// model inventory, and idle capacity.
/// Battery pressure on an offer off external power.
pub open spec fn power_findings(offer: ResourceOfferV1, scope: Seq<char>) -> Seq<FindingView> {
    let a = offer.availability;
    match a.battery_percent {
        Some(b) => opt(!a.on_ac_power && b < BATTERY_FLOOR_PERCENT, battery_finding(scope, b)),
        None => Seq::empty(),
    }
}

/// The state of an offer's mesh route: loopback polling only, or a signed route that is empty.
pub open spec fn route_findings(offer: ResourceOfferV1, scope: Seq<char>) -> Seq<FindingView> {
    match offer.mesh_endpoint {
        None => seq![loopback_only_finding(scope)],
        Some(e) => opt(e.direct_addresses@.len() == 0 && e.relay_urls@.len() == 0, empty_route_finding(scope)),
    }
}

/// The slower direction of a link benchmark.
pub open spec fn slower_direction(uplink_bps: u64, downlink_bps: u64) -> u64 {
    if uplink_bps < downlink_bps { uplink_bps } else { downlink_bps }
}

/// The state of an offer's link measurement: missing, slow to answer, or narrow.
pub open spec fn link_findings(offer: ResourceOfferV1, scope: Seq<char>) -> Seq<FindingView> {
    match offer.link_benchmark {
        None => seq![link_missing_finding(scope)],
        Some(l) => opt(l.rtt_micros_p50 > HIGH_LATENCY_MICROS, high_latency_finding(scope, l.rtt_micros_p50)) + opt(
            slower_direction(l.uplink_bps, l.downlink_bps) < LOW_BANDWIDTH_BPS,
            low_bandwidth_finding(scope, slower_direction(l.uplink_bps, l.downlink_bps)),
        ),
    }
}

/// The findings of one live offer, in the order the scan raises them: a missing capability
/// contract, thermal and battery pressure, the mesh route, the link measurement, an empty local
/// model inventory, and idle capacity.
pub open spec fn offer_findings_spec(offer: ResourceOfferV1) -> Seq<FindingView> {
    let scope = uuid_text_of(offer.node_id);
    let a = offer.availability;
    opt(offer.workload_capabilities@.len() == 0, missing_capability_finding(scope))
        + opt(a.thermal_headroom_percent < THERMAL_FLOOR_PERCENT, thermal_finding(scope, a.thermal_headroom_percent))
        + power_findings(offer, scope) + route_findings(offer, scope) + link_findings(offer, scope)
        + opt(inventory_empty_spec(offer), inventory_empty_finding(scope))
        + opt(idle_capacity_spec(offer), idle_capacity_finding(scope))
}

fn push_finding(out: &mut Vec<DiagnosticFinding>, f: DiagnosticFinding)
    requires
        forall|i: int| 0 <= i < old(out)@.len() ==> (#[trigger] old(out)@[i]).standard_proposal(),
        f.standard_proposal(),
    ensures
        findings_view(final(out)@) == findings_view(old(out)@).push(f.finding_view()),
        forall|i: int| 0 <= i < final(out)@.len() ==> (#[trigger] final(out)@[i]).standard_proposal(),
{
    let ghost before = out@;
    out.push(f);
    proof {
        assert(findings_view(out@) =~= findings_view(before).push(f.finding_view()));
        assert forall|i: int| 0 <= i < out@.len() implies (#[trigger] out@[i]).standard_proposal() by {
            if i < before.len() {
                assert(out@[i] == before[i]);
            }
        }
    }
}

fn has_empty_inventory(offer: &ResourceOfferV1) -> (r: bool)
    ensures
        r == inventory_empty_spec(*offer),
{
    if !vec_contains_text(&offer.adapters, "rampage.ollama.v1") {
        return false;
    }
    let mut i: usize = 0;
    while i < offer.model_runtimes.len()
        invariant
            i <= offer.model_runtimes@.len(),
            forall|k: int| 0 <= k < i ==> (#[trigger] offer.model_runtimes@[k]).installed_models@.len() == 0,
        decreases offer.model_runtimes@.len() - i,
    {
        if offer.model_runtimes[i].installed_models.len() != 0 {
            return false;
        }
        i = i + 1;
    }
    true
}

fn has_idle_capacity(offer: &ResourceOfferV1) -> (r: bool)
    ensures
        r == idle_capacity_spec(*offer),
{
    if !offer.availability.owner_idle {
        return false;
    }
    let mut i: usize = 0;
    while i < offer.resources.len()
        invariant
            i <= offer.resources@.len(),
            offer.availability.owner_idle,
            forall|k: int| 0 <= k < i ==> (#[trigger] offer.resources@[k]).available == 0,
        decreases offer.resources@.len() - i,
    {
        if offer.resources[i].available > 0 {
            assert(offer.resources@[i as int].available > 0);
            return true;
        }
        i = i + 1;
    }
    false
}

fn push_power(out: &mut Vec<DiagnosticFinding>, offer: &ResourceOfferV1, scope: &String)
    requires
        forall|i: int| 0 <= i < old(out)@.len() ==> (#[trigger] old(out)@[i]).standard_proposal(),
    ensures
        findings_view(final(out)@) == findings_view(old(out)@) + power_findings(*offer, scope@),
        forall|i: int| 0 <= i < final(out)@.len() ==> (#[trigger] final(out)@[i]).standard_proposal(),
{
    let ghost before = findings_view(out@);
    match offer.availability.battery_percent {
        Some(b) => {
            if !offer.availability.on_ac_power && b < BATTERY_FLOOR_PERCENT {
                push_finding(out, battery(scope.clone(), b));
            }
        },
        None => {},
    }
    assert(findings_view(out@) =~= before + power_findings(*offer, scope@));
}

fn push_route(out: &mut Vec<DiagnosticFinding>, offer: &ResourceOfferV1, scope: &String)
    requires
        forall|i: int| 0 <= i < old(out)@.len() ==> (#[trigger] old(out)@[i]).standard_proposal(),
    ensures
        findings_view(final(out)@) == findings_view(old(out)@) + route_findings(*offer, scope@),
        forall|i: int| 0 <= i < final(out)@.len() ==> (#[trigger] final(out)@[i]).standard_proposal(),
{
    let ghost before = findings_view(out@);
    match &offer.mesh_endpoint {
        None => {
            push_finding(out, loopback_only(scope.clone()));
        },
        Some(e) => {
            if e.direct_addresses.len() == 0 && e.relay_urls.len() == 0 {
                push_finding(out, empty_route(scope.clone()));
            }
        },
    }
    assert(findings_view(out@) =~= before + route_findings(*offer, scope@));
}

fn push_link(out: &mut Vec<DiagnosticFinding>, offer: &ResourceOfferV1, scope: &String)
    requires
        forall|i: int| 0 <= i < old(out)@.len() ==> (#[trigger] old(out)@[i]).standard_proposal(),
    ensures
        findings_view(final(out)@) == findings_view(old(out)@) + link_findings(*offer, scope@),
        forall|i: int| 0 <= i < final(out)@.len() ==> (#[trigger] final(out)@[i]).standard_proposal(),
{
    let ghost before = findings_view(out@);
    match &offer.link_benchmark {
        None => {
            push_finding(out, link_missing(scope.clone()));
        },
        Some(l) => {
            if l.rtt_micros_p50 > HIGH_LATENCY_MICROS {
                push_finding(out, high_latency(scope.clone(), l.rtt_micros_p50));
            }
            let slower = if l.uplink_bps < l.downlink_bps { l.uplink_bps } else { l.downlink_bps };
            if slower < LOW_BANDWIDTH_BPS {
                push_finding(out, low_bandwidth(scope.clone(), slower));
            }
        },
    }
    assert(findings_view(out@) =~= before + link_findings(*offer, scope@));
}

/// The findings of one live offer, as `offer_findings_spec` states.
pub fn offer_findings(offer: &ResourceOfferV1) -> (r: Vec<DiagnosticFinding>)
    ensures
        findings_view(r@) == offer_findings_spec(*offer),
        forall|i: int| 0 <= i < r@.len() ==> (#[trigger] r@[i]).standard_proposal(),
{
    let mut out: Vec<DiagnosticFinding> = Vec::new();
    let scope = uuid_text(offer.node_id);
    let ghost sc = scope@;
    let thermal_headroom = offer.availability.thermal_headroom_percent;
    assert(findings_view(out@) =~= Seq::<FindingView>::empty());
    if offer.workload_capabilities.len() == 0 {
        push_finding(&mut out, missing_capability(scope.clone()));
    }
    let ghost first = findings_view(out@);
    assert(first =~= opt(offer.workload_capabilities@.len() == 0, missing_capability_finding(sc)));
    if thermal_headroom < THERMAL_FLOOR_PERCENT {
        push_finding(&mut out, thermal(scope.clone(), thermal_headroom));
    }
    let ghost second = findings_view(out@);
    assert(second =~= first + opt(thermal_headroom < THERMAL_FLOOR_PERCENT, thermal_finding(sc, thermal_headroom)));
    push_power(&mut out, offer, &scope);
    push_route(&mut out, offer, &scope);
    push_link(&mut out, offer, &scope);
    let ghost third = findings_view(out@);
    if has_empty_inventory(offer) {
        push_finding(&mut out, inventory_empty(scope.clone()));
    }
    let ghost fourth = findings_view(out@);
    assert(fourth =~= third + opt(inventory_empty_spec(*offer), inventory_empty_finding(sc)));
    if has_idle_capacity(offer) {
        push_finding(&mut out, idle_capacity(scope));
    }
    assert(findings_view(out@) =~= fourth + opt(idle_capacity_spec(*offer), idle_capacity_finding(sc)));
    out
}

/// Whether some live offer at `now` comes from `node`.
pub open spec fn has_live_offer(offers: Seq<ResourceOfferV1>, now: i128, node: u128) -> bool {
    exists|i: int| 0 <= i < offers.len() && (#[trigger] offers[i]).expires_at > now && offers[i].node_id == node
}

/// A finding for each enrolled node, in order, that has no live offer.
pub open spec fn node_findings(nodes: Seq<NodeIdentityV1>, offers: Seq<ResourceOfferV1>, now: i128) -> Seq<FindingView>
    decreases nodes.len(),
{
    if nodes.len() == 0 {
        Seq::empty()
    } else {
        node_findings(nodes.drop_last(), offers, now) + opt(
            !has_live_offer(offers, now, nodes.last().node_id),
            node_without_offer_finding(uuid_text_of(nodes.last().node_id)),
        )
    }
}

/// The findings of every live offer, in order.
pub open spec fn live_offer_findings(offers: Seq<ResourceOfferV1>, now: i128) -> Seq<FindingView>
    decreases offers.len(),
{
    if offers.len() == 0 {
        Seq::empty()
    } else {
        live_offer_findings(offers.drop_last(), now) + (if offers.last().expires_at > now {
            offer_findings_spec(offers.last())
        } else {
            Seq::empty()
        })
    }
}

/// The number of live offers at `now`.
pub open spec fn live_count(offers: Seq<ResourceOfferV1>, now: i128) -> nat
    decreases offers.len(),
{
    if offers.len() == 0 {
        0
    } else {
        live_count(offers.drop_last(), now) + (if offers.last().expires_at > now { 1nat } else { 0nat })
    }
}

proof fn lemma_live_count_bound(offers: Seq<ResourceOfferV1>, now: i128)
    ensures
        live_count(offers, now) <= offers.len(),
    decreases offers.len(),
{
    if offers.len() > 0 {
        lemma_live_count_bound(offers.drop_last(), now);
    }
}

fn live_offer_present(offers: &Vec<ResourceOfferV1>, now: i128, node: u128) -> (r: bool)
    ensures
        r == has_live_offer(offers@, now, node),
{
    let mut i: usize = 0;
    while i < offers.len()
        invariant
            i <= offers@.len(),
            forall|k: int| 0 <= k < i ==> !((#[trigger] offers@[k]).expires_at > now && offers@[k].node_id == node),
        decreases offers@.len() - i,
    {
        if offers[i].expires_at > now && offers[i].node_id == node {
            assert(offers@[i as int].expires_at > now && offers@[i as int].node_id == node);
            return true;
        }
        i = i + 1;
    }
    false
}

fn append_findings(out: &mut Vec<DiagnosticFinding>, more: Vec<DiagnosticFinding>)
    requires
        forall|i: int| 0 <= i < old(out)@.len() ==> (#[trigger] old(out)@[i]).standard_proposal(),
        forall|i: int| 0 <= i < more@.len() ==> (#[trigger] more@[i]).standard_proposal(),
    ensures
        findings_view(final(out)@) == findings_view(old(out)@) + findings_view(more@),
        forall|i: int| 0 <= i < final(out)@.len() ==> (#[trigger] final(out)@[i]).standard_proposal(),
{
    let ghost before = out@;
    let ghost added = more@;
    let mut more = more;
    out.append(&mut more);
    proof {
        assert(out@ == before + added);
        assert(findings_view(out@) =~= findings_view(before) + findings_view(added));
        assert forall|i: int| 0 <= i < out@.len() implies (#[trigger] out@[i]).standard_proposal() by {
            if i < before.len() {
                assert(out@[i] == before[i]);
            } else {
                assert(out@[i] == added[i - before.len()]);
            }
        }
    }
}

/// A ledger event as the scan reads it: when it was recorded, its type, and the `state` text of
/// its payload where it has one.
#[derive(Debug, Clone)]
pub struct DiagnosticEvent {
    pub recorded_at: i128,
    pub event_type: String,
    pub state: Option<String>,
}

/// Whether an event falls in the evidence window that ends at `now`.
pub open spec fn recent(e: DiagnosticEvent, now: i128) -> bool {
    e.recorded_at >= now - EVIDENCE_WINDOW_NANOS
}

/// A refused job or mesh request.
pub open spec fn denial_event(e: DiagnosticEvent) -> bool {
    e.event_type@ == "job.blocked"@ || e.event_type@ == "mesh.request.denied"@
}

/// A receipt for work that ended without success.
pub open spec fn failed_receipt_event(e: DiagnosticEvent) -> bool {
    &&& e.event_type@ == "job.receipted"@
    &&& match e.state {
        Some(s) => s@ == "failed"@ || s@ == "ambiguous"@ || s@ == "cancelled"@ || s@ == "fenced"@,
        None => false,
    }
}

/// The number of recent denials among the events.
pub open spec fn recent_denials_spec(events: Seq<DiagnosticEvent>, now: i128) -> nat
    decreases events.len(),
{
    if events.len() == 0 {
        0
    } else {
        recent_denials_spec(events.drop_last(), now) + (if recent(events.last(), now) && denial_event(events.last()) {
            1nat
        } else {
            0nat
        })
    }
}

/// The number of recent failed receipts among the events.
pub open spec fn recent_failures_spec(events: Seq<DiagnosticEvent>, now: i128) -> nat
    decreases events.len(),
{
    if events.len() == 0 {
        0
    } else {
        recent_failures_spec(events.drop_last(), now) + (if recent(events.last(), now) && failed_receipt_event(
            events.last(),
        ) {
            1nat
        } else {
            0nat
        })
    }
}

fn in_window(t: i128, now: i128) -> (r: bool)
    ensures
        r == (t >= now - EVIDENCE_WINDOW_NANOS),
{
    if t >= now {
        true
    } else if now >= 0 {
        now - EVIDENCE_WINDOW_NANOS <= t
    } else {
        t + EVIDENCE_WINDOW_NANOS >= now
    }
}

fn is_denial(e: &DiagnosticEvent) -> (r: bool)
    ensures
        r == denial_event(*e),
{
    text_eq(e.event_type.as_str(), "job.blocked") || text_eq(e.event_type.as_str(), "mesh.request.denied")
}

fn is_failed_receipt(e: &DiagnosticEvent) -> (r: bool)
    ensures
        r == failed_receipt_event(*e),
{
    if !text_eq(e.event_type.as_str(), "job.receipted") {
        return false;
    }
    match &e.state {
        Some(s) => text_eq(s.as_str(), "failed") || text_eq(s.as_str(), "ambiguous") || text_eq(s.as_str(), "cancelled")
            || text_eq(s.as_str(), "fenced"),
        None => false,
    }
}

proof fn lemma_event_counts_bound(events: Seq<DiagnosticEvent>, now: i128)
    ensures
        recent_denials_spec(events, now) <= events.len(),
        recent_failures_spec(events, now) <= events.len(),
    decreases events.len(),
{
    if events.len() > 0 {
        lemma_event_counts_bound(events.drop_last(), now);
    }
}

/// The recent denials and recent failed receipts among the events.
pub fn count_recent_events(events: &Vec<DiagnosticEvent>, now: i128) -> (r: (usize, usize))
    ensures
        r.0 == recent_denials_spec(events@, now),
        r.1 == recent_failures_spec(events@, now),
{
    let mut denials: usize = 0;
    let mut failures: usize = 0;
    let mut i: usize = 0;
    while i < events.len()
        invariant
            i <= events@.len(),
            denials == recent_denials_spec(events@.take(i as int), now),
            failures == recent_failures_spec(events@.take(i as int), now),
        decreases events@.len() - i,
    {
        proof {
            assert(events@.take(i + 1).drop_last() =~= events@.take(i as int));
            lemma_event_counts_bound(events@.take(i as int), now);
        }
        let e = &events[i];
        let fresh = in_window(e.recorded_at, now);
        if fresh && is_denial(e) {
            denials = denials + 1;
        }
        if fresh && is_failed_receipt(e) {
            failures = failures + 1;
        }
        i = i + 1;
    }
    proof {
        assert(events@.take(events@.len() as int) =~= events@);
    }
    (denials, failures)
}

/// The first receipt the evidence holds for a replica, if any.
pub open spec fn evidence_for(
    evidence: Seq<(String, u128, ArtifactReplicaReceiptV1)>,
    digest: Seq<char>,
    node: u128,
) -> Option<ArtifactReplicaReceiptV1>
    decreases evidence.len(),
{
    if evidence.len() == 0 {
        None
    } else if evidence[0].0@ == digest && evidence[0].1 == node {
        Some(evidence[0].2)
    } else {
        evidence_for(evidence.skip(1), digest, node)
    }
}

/// Where a digest stands in a list of replica counts, or -1.
pub open spec fn digest_index(counts: Seq<(Seq<char>, nat)>, digest: Seq<char>) -> int
    decreases counts.len(),
{
    if counts.len() == 0 {
        -1
    } else if counts[0].0 == digest {
        0
    } else {
        let k = digest_index(counts.skip(1), digest);
        if k < 0 { -1 } else { k + 1 }
    }
}

/// A replica counted under its digest: its digest's count grows by `add`, or the digest joins the
/// list with count `add`.
pub open spec fn bump(counts: Seq<(Seq<char>, nat)>, digest: Seq<char>, add: nat) -> Seq<(Seq<char>, nat)> {
    let k = digest_index(counts, digest);
    if k < 0 {
        counts.push((digest, add))
    } else {
        counts.update(k, (digest, counts[k].1 + add))
    }
}

/// The evidenced replicas of each protected artifact, in order of first appearance: every
/// protected replica lists its digest, and counts where the evidence holds a receipt for it that
/// is valid at `now`.
pub open spec fn replica_counts(
    replicas: Seq<(String, u128, ArtifactRefV1)>,
    evidence: Seq<(String, u128, ArtifactReplicaReceiptV1)>,
    now: i128,
) -> Seq<(Seq<char>, nat)>
    decreases replicas.len(),
{
    if replicas.len() == 0 {
        Seq::empty()
    } else {
        let prev = replica_counts(replicas.drop_last(), evidence, now);
        let r = replicas.last();
        if r.2.storage_class != StorageClass::Protected {
            prev
        } else {
            let add: nat = match evidence_for(evidence, r.0@, r.1) {
                Some(receipt) => if receipt.valid_at_spec(now) { 1 } else { 0 },
                None => 0,
            };
            bump(prev, r.0@, add)
        }
    }
}

/// The number of artifacts among the counts with fewer than two evidenced replicas.
pub open spec fn under_replicated_spec(counts: Seq<(Seq<char>, nat)>) -> nat
    decreases counts.len(),
{
    if counts.len() == 0 {
        0
    } else {
        under_replicated_spec(counts.drop_last()) + (if counts.last().1 < 2 { 1nat } else { 0nat })
    }
}

fn find_evidence<'a>(
    evidence: &'a Vec<(String, u128, ArtifactReplicaReceiptV1)>,
    digest: &str,
    node: u128,
) -> (r: Option<&'a ArtifactReplicaReceiptV1>)
    ensures
        match r {
            Some(receipt) => evidence_for(evidence@, digest@, node) == Some(*receipt),
            None => evidence_for(evidence@, digest@, node) is None,
        },
{
    let mut i: usize = 0;
    assert(evidence@.skip(0) =~= evidence@);
    while i < evidence.len()
        invariant
            i <= evidence@.len(),
            evidence_for(evidence@, digest@, node) == evidence_for(evidence@.skip(i as int), digest@, node),
        decreases evidence@.len() - i,
    {
        proof {
            assert(evidence@.skip(i as int).skip(1) =~= evidence@.skip(i + 1));
        }
        if evidence[i].1 == node && text_eq(evidence[i].0.as_str(), digest) {
            return Some(&evidence[i].2);
        }
        i = i + 1;
    }
    None
}

/// The counts of a list as plain values.
pub open spec fn counts_view(counts: Seq<(String, usize)>) -> Seq<(Seq<char>, nat)> {
    counts.map_values(|c: (String, usize)| (c.0@, c.1 as nat))
}

fn position_of_digest(counts: &Vec<(String, usize)>, digest: &str) -> (r: Option<usize>)
    ensures
        match r {
            Some(k) => k < counts@.len() && digest_index(counts_view(counts@), digest@) == k,
            None => digest_index(counts_view(counts@), digest@) < 0,
        },
{
    let ghost cv = counts_view(counts@);
    let mut i: usize = 0;
    assert(cv.skip(0) =~= cv);
    while i < counts.len()
        invariant
            i <= counts@.len(),
            cv == counts_view(counts@),
            digest_index(cv, digest@) == (if digest_index(cv.skip(i as int), digest@) < 0 {
                -1
            } else {
                digest_index(cv.skip(i as int), digest@) + i
            }),
        decreases counts@.len() - i,
    {
        proof {
            assert(cv.skip(i as int).skip(1) =~= cv.skip(i + 1));
            assert(cv.skip(i as int)[0] == cv[i as int]);
        }
        if text_eq(counts[i].0.as_str(), digest) {
            return Some(i);
        }
        i = i + 1;
    }
    None
}

proof fn lemma_digest_index(counts: Seq<(Seq<char>, nat)>, digest: Seq<char>)
    ensures
        -1 <= digest_index(counts, digest) < counts.len(),
        digest_index(counts, digest) >= 0 ==> counts[digest_index(counts, digest)].0 == digest,
    decreases counts.len(),
{
    if counts.len() > 0 && counts[0].0 != digest {
        lemma_digest_index(counts.skip(1), digest);
    }
}

proof fn lemma_counts_bound(
    replicas: Seq<(String, u128, ArtifactRefV1)>,
    evidence: Seq<(String, u128, ArtifactReplicaReceiptV1)>,
    now: i128,
)
    ensures
        replica_counts(replicas, evidence, now).len() <= replicas.len(),
        forall|k: int| 0 <= k < replica_counts(replicas, evidence, now).len() ==> #[trigger] replica_counts(replicas, evidence, now)[k].1 <= replicas.len(),
    decreases replicas.len(),
{
    if replicas.len() > 0 {
        lemma_counts_bound(replicas.drop_last(), evidence, now);
        lemma_digest_index(replica_counts(replicas.drop_last(), evidence, now), replicas.last().0@);
    }
}

/// The evidenced replica count of each protected artifact, as `replica_counts` states.
pub fn protected_replica_counts(
    replicas: &Vec<(String, u128, ArtifactRefV1)>,
    evidence: &Vec<(String, u128, ArtifactReplicaReceiptV1)>,
    now: i128,
) -> (r: Vec<(String, usize)>)
    ensures
        counts_view(r@) == replica_counts(replicas@, evidence@, now),
{
    let mut counts: Vec<(String, usize)> = Vec::new();
    let mut i: usize = 0;
    assert(counts_view(counts@) =~= replica_counts(replicas@.take(0), evidence@, now));
    while i < replicas.len()
        invariant
            i <= replicas@.len(),
            counts_view(counts@) == replica_counts(replicas@.take(i as int), evidence@, now),
        decreases replicas@.len() - i,
    {
        proof {
            assert(replicas@.take(i + 1).drop_last() =~= replicas@.take(i as int));
            lemma_counts_bound(replicas@.take(i as int), evidence@, now);
        }
        let r = &replicas[i];
        if r.2.storage_class == StorageClass::Protected {
            let add: usize = match find_evidence(evidence, r.0.as_str(), r.1) {
                Some(receipt) => if receipt.is_valid_at(now) { 1 } else { 0 },
                None => 0,
            };
            let ghost before = counts@;
            proof {
                lemma_digest_index(counts_view(counts@), r.0@);
            }
            match position_of_digest(&counts, r.0.as_str()) {
                Some(k) => {
                    let n = counts[k].1;
                    proof {
                        assert(counts_view(counts@)[k as int].1 == n as nat);
                        assert(n <= i);
                    }
                    let name = counts[k].0.clone();
                    counts.set(k, (name, n + add));
                    proof {
                        assert(counts_view(counts@) =~= counts_view(before).update(k as int, (r.0@, (n + add) as nat)));
                    }
                },
                None => {
                    counts.push((r.0.clone(), add));
                    proof {
                        assert(counts_view(counts@) =~= counts_view(before).push((r.0@, add as nat)));
                    }
                },
            }
        }
        i = i + 1;
    }
    proof {
        assert(replicas@.take(replicas@.len() as int) =~= replicas@);
    }
    counts
}

fn count_under_replicated(counts: &Vec<(String, usize)>) -> (r: usize)
    ensures
        r == under_replicated_spec(counts_view(counts@)),
{
    let mut under: usize = 0;
    let mut i: usize = 0;
    while i < counts.len()
        invariant
            i <= counts@.len(),
            under <= i,
            under == under_replicated_spec(counts_view(counts@.take(i as int))),
        decreases counts@.len() - i,
    {
        proof {
            assert(counts_view(counts@.take(i + 1)).drop_last() =~= counts_view(counts@.take(i as int)));
        }
        if counts[i].1 < 2 {
            under = under + 1;
        }
        i = i + 1;
    }
    proof {
        assert(counts@.take(counts@.len() as int) =~= counts@);
    }
    under
}

/// The resource classes in the order of their snake_case names.
pub open spec fn class_in_name_order(k: int) -> ResourceClass {
        if k == 0 {
            ResourceClass::Codec
        } else if k == 1 {
            ResourceClass::CpuCompute
        } else if k == 2 {
            ResourceClass::GpuCompute
        } else if k == 3 {
            ResourceClass::GpuMemory
        } else if k == 4 {
            ResourceClass::LicensedService
        } else if k == 5 {
            ResourceClass::NetworkFetch
        } else if k == 6 {
            ResourceClass::NetworkRelay
        } else if k == 7 {
            ResourceClass::NpuCompute
        } else if k == 8 {
            ResourceClass::ProtectedStore
        } else if k == 9 {
            ResourceClass::RamCache
        } else if k == 10 {
            ResourceClass::RamWorkingSet
        } else if k == 11 {
            ResourceClass::Runtime
        } else if k == 12 {
            ResourceClass::StorageCache
        } else if k == 13 {
            ResourceClass::StorageScratch
    } else {
        ResourceClass::Toolchain
    }
}

fn class_at(k: usize) -> (r: ResourceClass)
    ensures
        r == class_in_name_order(k as int),
{
    if k == 0 {
        ResourceClass::Codec
    } else if k == 1 {
        ResourceClass::CpuCompute
    } else if k == 2 {
        ResourceClass::GpuCompute
    } else if k == 3 {
        ResourceClass::GpuMemory
    } else if k == 4 {
        ResourceClass::LicensedService
    } else if k == 5 {
        ResourceClass::NetworkFetch
    } else if k == 6 {
        ResourceClass::NetworkRelay
    } else if k == 7 {
        ResourceClass::NpuCompute
    } else if k == 8 {
        ResourceClass::ProtectedStore
    } else if k == 9 {
        ResourceClass::RamCache
    } else if k == 10 {
        ResourceClass::RamWorkingSet
    } else if k == 11 {
        ResourceClass::Runtime
    } else if k == 12 {
        ResourceClass::StorageCache
    } else if k == 13 {
        ResourceClass::StorageScratch
    } else {
        ResourceClass::Toolchain
    }
}

/// The capacity that resources of a class make available, summed.
pub open spec fn resources_total(resources: Seq<crate::protocol::ResourceQuantityV1>, class: ResourceClass) -> nat
    decreases resources.len(),
{
    if resources.len() == 0 {
        0
    } else {
        resources_total(resources.drop_last(), class) + (if resources.last().class == class {
            resources.last().available as nat
        } else {
            0nat
        })
    }
}

/// Whether a list of resources holds one of a class.
pub open spec fn resources_have(resources: Seq<crate::protocol::ResourceQuantityV1>, class: ResourceClass) -> bool {
    exists|j: int| 0 <= j < resources.len() && (#[trigger] resources[j]).class == class
}

/// The capacity of a class that live offers make available, summed.
pub open spec fn class_total(offers: Seq<ResourceOfferV1>, now: i128, class: ResourceClass) -> nat
    decreases offers.len(),
{
    if offers.len() == 0 {
        0
    } else {
        class_total(offers.drop_last(), now, class) + (if offers.last().expires_at > now {
            resources_total(offers.last().resources@, class)
        } else {
            0nat
        })
    }
}

/// Whether some live offer has a resource of a class.
pub open spec fn class_present(offers: Seq<ResourceOfferV1>, now: i128, class: ResourceClass) -> bool {
    exists|i: int| 0 <= i < offers.len() && (#[trigger] offers[i]).expires_at > now && resources_have(offers[i].resources@, class)
}

/// A sum, saturated at `u64::MAX`.
pub open spec fn saturated(x: nat) -> u64 {
    if x > u64::MAX { u64::MAX } else { x as u64 }
}

/// The capacity live offers make available, by class name in name order: each class that some
/// live offer has, with its summed availability, saturated; for the first `k` classes.
pub open spec fn available_upto(offers: Seq<ResourceOfferV1>, now: i128, k: nat) -> Seq<(Seq<char>, u64)>
    decreases k,
{
    if k == 0 {
        Seq::empty()
    } else {
        let class = class_in_name_order(k - 1);
        available_upto(offers, now, (k - 1) as nat) + (if class_present(offers, now, class) {
            seq![(resource_class_name_spec(class), saturated(class_total(offers, now, class)))]
        } else {
            Seq::empty()
        })
    }
}

/// The available capacity of live offers by class name, in name order.
pub open spec fn available_spec(offers: Seq<ResourceOfferV1>, now: i128) -> Seq<(Seq<char>, u64)> {
    available_upto(offers, now, 15)
}

/// A list of named amounts as plain values.
pub open spec fn amounts_view(amounts: Seq<(&'static str, u64)>) -> Seq<(Seq<char>, u64)> {
    amounts.map_values(|a: (&'static str, u64)| (a.0@, a.1))
}

fn offer_class_sum(offer: &ResourceOfferV1, class: ResourceClass) -> (r: (bool, u64))
    ensures
        r.0 == resources_have(offer.resources@, class),
        r.1 == saturated(resources_total(offer.resources@, class)),
{
    let mut have = false;
    let mut total: u64 = 0;
    let mut j: usize = 0;
    while j < offer.resources.len()
        invariant
            j <= offer.resources@.len(),
            have == resources_have(offer.resources@.take(j as int), class),
            total == saturated(resources_total(offer.resources@.take(j as int), class)),
        decreases offer.resources@.len() - j,
    {
        let ghost prefix = offer.resources@.take(j as int);
        proof {
            assert(offer.resources@.take(j + 1).drop_last() =~= prefix);
        }
        if offer.resources[j].class == class {
            have = true;
            total = total.saturating_add(offer.resources[j].available);
        }
        proof {
            let next = offer.resources@.take(j + 1);
            assert(next.last() == offer.resources@[j as int]);
            if resources_have(prefix, class) {
                let w = choose|w: int| 0 <= w < prefix.len() && (#[trigger] prefix[w]).class == class;
                assert(next[w] == prefix[w]);
            }
            if resources_have(next, class) && !resources_have(prefix, class) {
                let w = choose|w: int| 0 <= w < next.len() && (#[trigger] next[w]).class == class;
                if w < j {
                    assert(prefix[w] == next[w]);
                }
            }
            if offer.resources@[j as int].class == class {
                assert(next[j as int].class == class);
            }
        }
        j = j + 1;
    }
    proof {
        assert(offer.resources@.take(offer.resources@.len() as int) =~= offer.resources@);
    }
    (have, total)
}

fn class_figures(offers: &Vec<ResourceOfferV1>, now: i128, class: ResourceClass) -> (r: (bool, u64))
    ensures
        r.0 == class_present(offers@, now, class),
        r.1 == saturated(class_total(offers@, now, class)),
{
    let mut present = false;
    let mut total: u64 = 0;
    let mut i: usize = 0;
    while i < offers.len()
        invariant
            i <= offers@.len(),
            present == class_present(offers@.take(i as int), now, class),
            total == saturated(class_total(offers@.take(i as int), now, class)),
        decreases offers@.len() - i,
    {
        let ghost prefix = offers@.take(i as int);
        proof {
            assert(offers@.take(i + 1).drop_last() =~= prefix);
        }
        let offer = &offers[i];
        if offer.expires_at > now {
            let (have, sum) = offer_class_sum(offer, class);
            if have {
                present = true;
            }
            total = total.saturating_add(sum);
        }
        proof {
            let next = offers@.take(i + 1);
            assert(next.last() == offers@[i as int]);
            if class_present(prefix, now, class) {
                let w = choose|w: int| 0 <= w < prefix.len() && (#[trigger] prefix[w]).expires_at > now && resources_have(prefix[w].resources@, class);
                assert(next[w] == prefix[w]);
            }
            if class_present(next, now, class) && !class_present(prefix, now, class) {
                let w = choose|w: int| 0 <= w < next.len() && (#[trigger] next[w]).expires_at > now && resources_have(next[w].resources@, class);
                if w < i {
                    assert(prefix[w] == next[w]);
                }
            }
            if offer.expires_at > now && resources_have(offer.resources@, class) {
                assert(next[i as int] == *offer);
            }
        }
        i = i + 1;
    }
    proof {
        assert(offers@.take(offers@.len() as int) =~= offers@);
    }
    (present, total)
}

/// The available capacity of live offers by class name, as `available_spec` states.
pub fn available_resources(offers: &Vec<ResourceOfferV1>, now: i128) -> (r: Vec<(&'static str, u64)>)
    ensures
        amounts_view(r@) == available_spec(offers@, now),
{
    let mut out: Vec<(&'static str, u64)> = Vec::new();
    let mut k: usize = 0;
    assert(amounts_view(out@) =~= available_upto(offers@, now, 0));
    while k < 15
        invariant
            k <= 15,
            amounts_view(out@) == available_upto(offers@, now, k as nat),
        decreases 15 - k,
    {
        let class = class_at(k);
        let (present, total) = class_figures(offers, now, class);
        let ghost before = out@;
        if present {
            out.push((resource_class_name(class), total));
        }
        proof {
            assert(amounts_view(out@) =~= available_upto(offers@, now, (k + 1) as nat));
        }
        k = k + 1;
    }
    out
}

/// Whether finding `a` ranks before finding `b`: higher severity first, then by code, then by
/// scope, each text in byte order.
pub open spec fn finding_lt(a: FindingView, b: FindingView) -> bool {
    ||| severity_rank(a.0) > severity_rank(b.0)
    ||| (severity_rank(a.0) == severity_rank(b.0) && text_lt(utf8(a.1), utf8(b.1)))
    ||| (severity_rank(a.0) == severity_rank(b.0) && a.1 == b.1 && text_lt(utf8(a.2), utf8(b.2)))
}

/// A finding inserted into a ranked list after every finding it does not rank before.
pub open spec fn insert_ranked(sorted: Seq<FindingView>, x: FindingView) -> Seq<FindingView>
    decreases sorted.len(),
{
    if sorted.len() == 0 {
        seq![x]
    } else if finding_lt(x, sorted.last()) {
        insert_ranked(sorted.drop_last(), x).push(sorted.last())
    } else {
        sorted.push(x)
    }
}

/// A list of findings ranked by `finding_lt`, findings of equal rank in their original order.
pub open spec fn rank_findings(s: Seq<FindingView>) -> Seq<FindingView>
    decreases s.len(),
{
    if s.len() == 0 {
        Seq::empty()
    } else {
        insert_ranked(rank_findings(s.drop_last()), s.last())
    }
}

fn finding_before(a: &DiagnosticFinding, b: &DiagnosticFinding) -> (r: bool)
    ensures
        r == finding_lt(a.finding_view(), b.finding_view()),
{
    let ra = severity_level(a.severity);
    let rb = severity_level(b.severity);
    if ra != rb {
        return ra > rb;
    }
    if bytes_lt(a.code.as_bytes(), b.code.as_bytes()) {
        return true;
    }
    text_eq(a.code, b.code) && bytes_lt(a.scope.as_str().as_bytes(), b.scope.as_str().as_bytes())
}

proof fn lemma_insert_ranked(s: Seq<FindingView>, x: FindingView, p: int)
    requires
        0 <= p <= s.len(),
        forall|j: int| p <= j < s.len() ==> finding_lt(x, #[trigger] s[j]),
        p == 0 || !finding_lt(x, s[p - 1]),
    ensures
        insert_ranked(s, x) == s.take(p).push(x) + s.skip(p),
    decreases s.len(),
{
    if s.len() == p {
        if p == 0 {
            assert(s.take(p).push(x) + s.skip(p) =~= seq![x]);
        } else {
            assert(s.take(p).push(x) + s.skip(p) =~= s.push(x));
        }
    } else {
        let d = s.drop_last();
        assert(finding_lt(x, s[s.len() - 1]));
        assert forall|j: int| p <= j < d.len() implies finding_lt(x, #[trigger] d[j]) by {
            assert(d[j] == s[j]);
        }
        if p > 0 {
            assert(d[p - 1] == s[p - 1]);
        }
        lemma_insert_ranked(d, x, p);
        assert(d.take(p).push(x) + d.skip(p) + seq![s.last()] =~= s.take(p).push(x) + s.skip(p));
    }
}

fn copy_finding(f: &DiagnosticFinding) -> (r: DiagnosticFinding)
    requires
        f.standard_proposal(),
    ensures
        r.finding_view() == f.finding_view(),
        r.standard_proposal(),
{
    diagnostic_finding(
        f.severity,
        f.code,
        f.scope.clone(),
        f.evidence.clone(),
        f.proposal.action,
        f.proposal.risk,
        f.proposal.auto_eligible,
        f.proposal.threshold,
    )
}

/// The findings ranked, as `rank_findings` states.
pub fn sort_findings(findings: Vec<DiagnosticFinding>) -> (r: Vec<DiagnosticFinding>)
    requires
        forall|i: int| 0 <= i < findings@.len() ==> (#[trigger] findings@[i]).standard_proposal(),
    ensures
        findings_view(r@) == rank_findings(findings_view(findings@)),
        forall|i: int| 0 <= i < r@.len() ==> (#[trigger] r@[i]).standard_proposal(),
{
    let ghost all = findings_view(findings@);
    let ghost items = findings@;
    let mut sorted: Vec<DiagnosticFinding> = Vec::new();
    let mut i: usize = 0;
    let n = findings.len();
    let mut source = findings;
    assert(findings_view(sorted@) =~= rank_findings(all.take(0)));
    while i < n
        invariant
            n == items.len(),
            i <= n,
            source@ == items,
            all == findings_view(items),
            findings_view(sorted@) == rank_findings(all.take(i as int)),
            forall|k: int| 0 <= k < items.len() ==> (#[trigger] items[k]).standard_proposal(),
            forall|k: int| 0 <= k < sorted@.len() ==> (#[trigger] sorted@[k]).standard_proposal(),
        decreases n - i,
    {
        let x = copy_finding(&source[i]);
        proof {
            assert(findings_view(items)[i as int] == items[i as int].finding_view());
        }
        let mut p = sorted.len();
        while p > 0 && finding_before(&x, &sorted[p - 1])
            invariant
                p <= sorted@.len(),
                forall|j: int| p <= j < sorted@.len() ==> finding_lt(x.finding_view(), #[trigger] findings_view(sorted@)[j]),
            decreases p,
        {
            p = p - 1;
        }
        let ghost before = sorted@;
        proof {
            lemma_insert_ranked(findings_view(before), x.finding_view(), p as int);
            assert(all.take(i + 1).drop_last() =~= all.take(i as int));
        }
        sorted.insert(p, x);
        proof {
            assert(findings_view(sorted@) =~= findings_view(before).take(p as int).push(x.finding_view()) + findings_view(before).skip(p as int));
        }
        i = i + 1;
    }
    proof {
        assert(all.take(n as int) =~= all);
    }
    sorted
}

#[derive(Debug, Clone)]
pub struct DiagnosticMetrics {
    pub enrolled_nodes: usize,
    pub live_offers: usize,
    pub expired_offers: usize,
    pub active_assignments: usize,
    pub protected_artifacts: usize,
    pub under_replicated_protected_artifacts: usize,
    pub recent_denials: usize,
    pub recent_failed_receipts: usize,
    /// Available capacity by class name, in name order.
    pub available_resources: Vec<(&'static str, u64)>,
}

/// How the scan's own proposals may be acted on.
#[derive(Debug, Clone)]
pub struct DiagnosticAutonomy {
    pub mode: &'static str,
    pub per_change_approval_required: bool,
    pub eligible_within_envelope: Vec<&'static str>,
    pub authority_expansion: &'static str,
    pub promotion_requirements: Vec<&'static str>,
}

#[derive(Debug, Clone)]
pub struct FabricDiagnosticReport {
    pub schema: &'static str,
    pub generated_at: i128,
    pub status: &'static str,
    pub health_score: u8,
    pub evidence_digest: String,
    pub metrics: DiagnosticMetrics,
    pub autonomy: DiagnosticAutonomy,
    pub findings: Vec<DiagnosticFinding>,
}

/// Every finding the scan raises, before ranking: the owner stop, an empty enrollment, enrolled
/// nodes without a live offer, each live offer's findings, repeated recent denials (three or
/// more), repeated recent failed receipts (two or more), and under-replicated protected
/// artifacts.
pub open spec fn raised_findings(
    now: i128,
    nodes: Seq<NodeIdentityV1>,
    offers: Seq<ResourceOfferV1>,
    replicas: Seq<(String, u128, ArtifactRefV1)>,
    evidence: Seq<(String, u128, ArtifactReplicaReceiptV1)>,
    events: Seq<DiagnosticEvent>,
    kill_latch: bool,
) -> Seq<FindingView> {
    let denials = recent_denials_spec(events, now);
    let failures = recent_failures_spec(events, now);
    let under = under_replicated_spec(replica_counts(replicas, evidence, now));
    opt(kill_latch, owner_stop_finding()) + opt(nodes.len() == 0, no_enrolled_finding()) + node_findings(nodes, offers, now)
        + live_offer_findings(offers, now) + opt(denials >= 3, repeated_denials_finding(denials)) + opt(
        failures >= 2,
        repeated_failures_finding(failures),
    ) + opt(under > 0, under_replicated_finding(under))
}

/// The number of findings of a severity.
pub open spec fn severity_count(findings: Seq<FindingView>, severity: DiagnosticSeverity) -> nat
    decreases findings.len(),
{
    if findings.len() == 0 {
        0
    } else {
        severity_count(findings.drop_last(), severity) + (if findings.last().0 == severity { 1nat } else { 0nat })
    }
}

/// `a - b` floored at zero.
pub open spec fn floor_sub_u8(a: int, b: int) -> int {
    if a > b { a - b } else { 0 }
}

/// `x` capped at `u8::MAX`.
pub open spec fn cap_u8(x: int) -> int {
    if x > 255 { 255 } else { x }
}

/// The health score: zero under the owner stop, otherwise 100 less 25 per critical and 8 per
/// warning finding, each count taken as a `u8` (modulo 256) and each product and difference
/// saturating.
pub open spec fn health_spec(kill_latch: bool, critical: nat, warnings: nat) -> int {
    if kill_latch {
        0
    } else {
        floor_sub_u8(floor_sub_u8(100, cap_u8(((critical % 256) * 25) as int)), cap_u8(((warnings % 256) * 8) as int))
    }
}

/// The status a health score reads as.
pub open spec fn status_spec(kill_latch: bool, health: int) -> Seq<char> {
    if kill_latch {
        "stopped"@
    } else if health < 70 {
        "degraded"@
    } else if health < 90 {
        "attention"@
    } else {
        "healthy"@
    }
}

/// A report reads as stopped under the owner stop, with no health; otherwise its health is 100
/// less 25 per critical and 8 per warning finding, floored at zero, and it reads as degraded
/// below a health score of 70, needing attention from 70 to 89, and healthy from 90.
pub proof fn law_report_status_follows_health(
    r: FabricDiagnosticReport,
    now: i128,
    nodes: Seq<NodeIdentityV1>,
    offers: Seq<ResourceOfferV1>,
    active_assignments: usize,
    replicas: Seq<(String, u128, ArtifactRefV1)>,
    evidence: Seq<(String, u128, ArtifactReplicaReceiptV1)>,
    events: Seq<DiagnosticEvent>,
    kill_latch: bool,
)
    requires
        report_spec(r, now, nodes, offers, active_assignments, replicas, evidence, events, kill_latch),
    ensures
        kill_latch ==> r.status@ == "stopped"@ && r.health_score == 0,
        !kill_latch && r.health_score < 70 ==> r.status@ == "degraded"@,
        !kill_latch && 70 <= r.health_score < 90 ==> r.status@ == "attention"@,
        !kill_latch && r.health_score >= 90 ==> r.status@ == "healthy"@,
        ({
            let c = severity_count(findings_view(r.findings@), DiagnosticSeverity::Critical);
            let w = severity_count(findings_view(r.findings@), DiagnosticSeverity::Warning);
            !kill_latch && c < 256 && w < 256 ==> r.health_score == if 25 * c + 8 * w < 100 { 100 - 25 * c - 8 * w } else { 0 }
        }),
{
}

/// The fixed autonomy envelope of every report.
pub open spec fn autonomy_spec(a: DiagnosticAutonomy) -> bool {
    &&& a.mode@ == "deterministic_thresholded_governor"@
    &&& !a.per_change_approval_required
    &&& a.eligible_within_envelope@.len() == 2
    &&& a.eligible_within_envelope@[0]@ == "r0_configuration"@
    &&& a.eligible_within_envelope@[1]@ == "r1_allowlisted_source"@
    &&& a.authority_expansion@ == "automatically_denied_outside_owner_envelope"@
    &&& a.promotion_requirements@.len() == 8
    &&& a.promotion_requirements@[0]@ == "schema_policy_static"@
    &&& a.promotion_requirements@[1]@ == "deterministic_replay"@
    &&& a.promotion_requirements@[2]@ == "quality_reliability_cost"@
    &&& a.promotion_requirements@[3]@ == "sealed_holdout"@
    &&& a.promotion_requirements@[4]@ == "adversarial_security"@
    &&& a.promotion_requirements@[5]@ == "independent_replication"@
    &&& a.promotion_requirements@[6]@ == "shadow"@
    &&& a.promotion_requirements@[7]@ == "canary_rollback"@
}

/// What a report built at `now` from the fabric's state holds, its evidence digest aside.
pub open spec fn report_spec(
    r: FabricDiagnosticReport,
    now: i128,
    nodes: Seq<NodeIdentityV1>,
    offers: Seq<ResourceOfferV1>,
    active_assignments: usize,
    replicas: Seq<(String, u128, ArtifactRefV1)>,
    evidence: Seq<(String, u128, ArtifactReplicaReceiptV1)>,
    events: Seq<DiagnosticEvent>,
    kill_latch: bool,
) -> bool {
    let counts = replica_counts(replicas, evidence, now);
    let ranked = findings_view(r.findings@);
    let health = health_spec(
        kill_latch,
        severity_count(ranked, DiagnosticSeverity::Critical),
        severity_count(ranked, DiagnosticSeverity::Warning),
    );
    &&& r.schema@ == REPORT_SCHEMA@
    &&& r.generated_at == now
    &&& ranked == rank_findings(raised_findings(now, nodes, offers, replicas, evidence, events, kill_latch))
    &&& forall|i: int| 0 <= i < r.findings@.len() ==> (#[trigger] r.findings@[i]).standard_proposal()
    &&& r.health_score == health
    &&& r.status@ == status_spec(kill_latch, health)
    &&& r.metrics.enrolled_nodes == nodes.len()
    &&& r.metrics.live_offers == live_count(offers, now)
    &&& r.metrics.expired_offers == offers.len() - live_count(offers, now)
    &&& r.metrics.active_assignments == active_assignments
    &&& r.metrics.protected_artifacts == counts.len()
    &&& r.metrics.under_replicated_protected_artifacts == under_replicated_spec(counts)
    &&& r.metrics.recent_denials == recent_denials_spec(events, now)
    &&& r.metrics.recent_failed_receipts == recent_failures_spec(events, now)
    &&& amounts_view(r.metrics.available_resources@) == available_spec(offers, now)
    &&& autonomy_spec(r.autonomy)
}

fn count_severity(findings: &Vec<DiagnosticFinding>, severity: DiagnosticSeverity) -> (r: usize)
    ensures
        r == severity_count(findings_view(findings@), severity),
{
    let mut count: usize = 0;
    let mut i: usize = 0;
    while i < findings.len()
        invariant
            i <= findings@.len(),
            count <= i,
            count == severity_count(findings_view(findings@.take(i as int)), severity),
        decreases findings@.len() - i,
    {
        proof {
            assert(findings_view(findings@.take(i + 1)).drop_last() =~= findings_view(findings@.take(i as int)));
        }
        if findings[i].severity == severity {
            count = count + 1;
        }
        i = i + 1;
    }
    proof {
        assert(findings@.take(findings@.len() as int) =~= findings@);
    }
    count
}

fn health_score(kill_latch: bool, critical: usize, warnings: usize) -> (r: u8)
    ensures
        r == health_spec(kill_latch, critical as nat, warnings as nat),
{
    if kill_latch {
        return 0;
    }
    let c = (critical % 256) as u16;
    let w = (warnings % 256) as u16;
    let critical_penalty: u8 = if c * 25 > 255 { 255 } else { (c * 25) as u8 };
    let warning_penalty: u8 = if w * 8 > 255 { 255 } else { (w * 8) as u8 };
    100u8.saturating_sub(critical_penalty).saturating_sub(warning_penalty)
}

fn status_text(kill_latch: bool, health: u8) -> (r: &'static str)
    ensures
        r@ == status_spec(kill_latch, health as int),
{
    if kill_latch {
        "stopped"
    } else if health < 70 {
        "degraded"
    } else if health < 90 {
        "attention"
    } else {
        "healthy"
    }
}

fn autonomy() -> (r: DiagnosticAutonomy)
    ensures
        autonomy_spec(r),
{
    DiagnosticAutonomy {
        mode: "deterministic_thresholded_governor",
        per_change_approval_required: false,
        eligible_within_envelope: vec!["r0_configuration", "r1_allowlisted_source"],
        authority_expansion: "automatically_denied_outside_owner_envelope",
        promotion_requirements: vec![
            "schema_policy_static",
            "deterministic_replay",
            "quality_reliability_cost",
            "sealed_holdout",
            "adversarial_security",
            "independent_replication",
            "shadow",
            "canary_rollback",
        ],
    }
}

fn push_fabric_findings(
    out: &mut Vec<DiagnosticFinding>,
    nodes: &Vec<NodeIdentityV1>,
    offers: &Vec<ResourceOfferV1>,
    now: i128,
    kill_latch: bool,
) -> (live: usize)
    requires
        old(out)@.len() == 0,
    ensures
        findings_view(final(out)@) == opt(kill_latch, owner_stop_finding()) + opt(nodes@.len() == 0, no_enrolled_finding())
            + node_findings(nodes@, offers@, now) + live_offer_findings(offers@, now),
        forall|i: int| 0 <= i < final(out)@.len() ==> (#[trigger] final(out)@[i]).standard_proposal(),
        live == live_count(offers@, now),
{
    if kill_latch {
        push_finding(out, owner_stop());
    }
    if nodes.len() == 0 {
        push_finding(out, no_enrolled());
    }
    let ghost head = findings_view(out@);
    assert(head =~= opt(kill_latch, owner_stop_finding()) + opt(nodes@.len() == 0, no_enrolled_finding()));
    let mut i: usize = 0;
    while i < nodes.len()
        invariant
            i <= nodes@.len(),
            findings_view(out@) == head + node_findings(nodes@.take(i as int), offers@, now),
            forall|k: int| 0 <= k < out@.len() ==> (#[trigger] out@[k]).standard_proposal(),
        decreases nodes@.len() - i,
    {
        proof {
            assert(nodes@.take(i + 1).drop_last() =~= nodes@.take(i as int));
        }
        let ghost before = findings_view(out@);
        let node_id = nodes[i].node_id;
        if !live_offer_present(offers, now, node_id) {
            push_finding(out, node_without_offer(uuid_text(node_id)));
        }
        proof {
            assert(findings_view(out@) =~= before + opt(
                !has_live_offer(offers@, now, node_id),
                node_without_offer_finding(uuid_text_of(node_id)),
            ));
        }
        i = i + 1;
    }
    proof {
        assert(nodes@.take(nodes@.len() as int) =~= nodes@);
    }
    let ghost mid = findings_view(out@);
    let mut live: usize = 0;
    let mut k: usize = 0;
    while k < offers.len()
        invariant
            k <= offers@.len(),
            live <= k,
            live == live_count(offers@.take(k as int), now),
            findings_view(out@) == mid + live_offer_findings(offers@.take(k as int), now),
            forall|m: int| 0 <= m < out@.len() ==> (#[trigger] out@[m]).standard_proposal(),
        decreases offers@.len() - k,
    {
        proof {
            assert(offers@.take(k + 1).drop_last() =~= offers@.take(k as int));
        }
        let ghost before = findings_view(out@);
        let offer = &offers[k];
        if offer.expires_at > now {
            let more = offer_findings(offer);
            append_findings(out, more);
            live = live + 1;
        }
        proof {
            assert(findings_view(out@) =~= before + (if offer.expires_at > now {
                offer_findings_spec(*offer)
            } else {
                Seq::<FindingView>::empty()
            }));
        }
        k = k + 1;
    }
    proof {
        assert(offers@.take(offers@.len() as int) =~= offers@);
    }
    live
}

/// The fabric's self-scan at `now`, as `report_spec` states, with an empty evidence digest that
/// [`seal_diagnostic_report`] fills in.
pub fn build_diagnostic_report(
    now: i128,
    nodes: &Vec<NodeIdentityV1>,
    offers: &Vec<ResourceOfferV1>,
    active_assignments: usize,
    replicas: &Vec<(String, u128, ArtifactRefV1)>,
    evidence: &Vec<(String, u128, ArtifactReplicaReceiptV1)>,
    events: &Vec<DiagnosticEvent>,
    kill_latch: bool,
) -> (r: FabricDiagnosticReport)
    ensures
        report_spec(r, now, nodes@, offers@, active_assignments, replicas@, evidence@, events@, kill_latch),
        r.evidence_digest@ == Seq::<char>::empty(),
        !kill_latch && r.health_score < 70 ==> r.status@ == "degraded"@,
        !kill_latch && 70 <= r.health_score < 90 ==> r.status@ == "attention"@,
        !kill_latch && r.health_score >= 90 ==> r.status@ == "healthy"@,
        kill_latch ==> r.status@ == "stopped"@,
{
    let mut findings: Vec<DiagnosticFinding> = Vec::new();
    let live = push_fabric_findings(&mut findings, nodes, offers, now, kill_latch);
    proof {
        lemma_live_count_bound(offers@, now);
    }
    let (denials, failures) = count_recent_events(events, now);
    let ghost before = findings_view(findings@);
    if denials >= 3 {
        push_finding(&mut findings, repeated_denials(denials as u64));
    }
    if failures >= 2 {
        push_finding(&mut findings, repeated_failures(failures as u64));
    }
    let counts = protected_replica_counts(replicas, evidence, now);
    let under = count_under_replicated(&counts);
    if under > 0 {
        push_finding(&mut findings, under_replicated(under as u64));
    }
    proof {
        assert(findings_view(findings@) =~= raised_findings(now, nodes@, offers@, replicas@, evidence@, events@, kill_latch));
    }
    let ranked = sort_findings(findings);
    let critical = count_severity(&ranked, DiagnosticSeverity::Critical);
    let warnings = count_severity(&ranked, DiagnosticSeverity::Warning);
    let health = health_score(kill_latch, critical, warnings);
    let status = status_text(kill_latch, health);
    let metrics = DiagnosticMetrics {
        enrolled_nodes: nodes.len(),
        live_offers: live,
        expired_offers: offers.len() - live,
        active_assignments,
        protected_artifacts: counts.len(),
        under_replicated_protected_artifacts: under,
        recent_denials: denials,
        recent_failed_receipts: failures,
        available_resources: available_resources(offers, now),
    };
    let report = FabricDiagnosticReport {
        schema: REPORT_SCHEMA,
        generated_at: now,
        status,
        health_score: health,
        evidence_digest: String::new(),
        metrics,
        autonomy: autonomy(),
        findings: ranked,
    };
    proof {
        assert(report_spec(report, now, nodes@, offers@, active_assignments, replicas@, evidence@, events@, kill_latch));
        law_report_status_follows_health(report, now, nodes@, offers@, active_assignments, replicas@, evidence@, events@, kill_latch);
    }
    report
}

/// Record a report's evidence digest: the content address of its canonical JSON, which holds the
/// status, health score, metrics, autonomy and findings. Nothing else changes.
pub fn seal_diagnostic_report(report: &mut FabricDiagnosticReport, canonical_json: &[u8])
    ensures
        final(report).evidence_digest@ == content_address(canonical_json@),
        final(report).schema == old(report).schema,
        final(report).generated_at == old(report).generated_at,
        final(report).status == old(report).status,
        final(report).health_score == old(report).health_score,
        final(report).metrics == old(report).metrics,
        final(report).autonomy == old(report).autonomy,
        final(report).findings == old(report).findings,
{
    report.evidence_digest = sha256_digest(canonical_json);
}

/// The nodes diagnostics keep out of placement, with their reasons, for one report.
#[derive(Debug, Clone, PartialEq, Eq)]
pub struct AutonomousConstraints {
    pub evidence_digest: String,
    /// Excluded node ids in increasing order, each with its finding codes in byte order.
    pub excluded_nodes: Vec<(u128, Vec<String>)>,
}

/// The suppression a finding code calls for, if diagnostics may ever take one on their own.
pub open spec fn suppression_action(code: Seq<char>) -> Option<Seq<char>> {
    if code == "THERMAL_HEADROOM_CONSTRAINED"@ {
        Some("suppress_thermally_constrained_node"@)
    } else if code == "BATTERY_RESERVE_CONSTRAINED"@ {
        Some("suppress_low_battery_node"@)
    } else if code == "AUTHENTICATED_ROUTE_MISSING"@ || code == "AUTHENTICATED_ROUTE_EMPTY"@ {
        Some("suppress_unroutable_node"@)
    } else {
        None
    }
}

/// Whether the Governor lets diagnostics take an action on their own: its STOP latch is off and
/// the action only reduces scheduling authority.
pub open spec fn governor_allows(governor: Governor, action: Seq<char>) -> bool {
    &&& !governor.config_of().killed
    &&& (action == "suppress_thermally_constrained_node"@ || action == "suppress_low_battery_node"@
        || action == "suppress_unroutable_node"@)
}

/// Whether a finding keeps its scope's node out of placement for its code.
pub open spec fn finding_excludes(governor: Governor, f: FindingView, node: u128) -> bool {
    &&& suppression_action(f.1) matches Some(action) && governor_allows(governor, action)
    &&& uuid_parse_of(f.2) == Some(node)
}

/// Whether some finding with `code` keeps `node` out of placement.
pub open spec fn excluded_for(governor: Governor, findings: Seq<FindingView>, node: u128, code: Seq<char>) -> bool {
    exists|i: int| 0 <= i < findings.len() && (#[trigger] findings[i]).1 == code && finding_excludes(governor, findings[i], node)
}

/// Whether some finding keeps `node` out of placement.
pub open spec fn excluded_node(governor: Governor, findings: Seq<FindingView>, node: u128) -> bool {
    exists|i: int| 0 <= i < findings.len() && finding_excludes(governor, #[trigger] findings[i], node)
}

/// The codes that can exclude a node, in byte order.
pub open spec fn exclusion_codes() -> Seq<Seq<char>> {
    seq![
        "AUTHENTICATED_ROUTE_EMPTY"@,
        "AUTHENTICATED_ROUTE_MISSING"@,
        "BATTERY_RESERVE_CONSTRAINED"@,
        "THERMAL_HEADROOM_CONSTRAINED"@,
    ]
}

/// The reasons, among the first `k` exclusion codes, that keep `node` out of placement.
pub open spec fn reasons_upto(governor: Governor, findings: Seq<FindingView>, node: u128, k: nat) -> Seq<Seq<char>>
    decreases k,
{
    if k == 0 {
        Seq::empty()
    } else {
        reasons_upto(governor, findings, node, (k - 1) as nat) + (if excluded_for(governor, findings, node, exclusion_codes()[k - 1]) {
            seq![exclusion_codes()[k - 1]]
        } else {
            Seq::empty()
        })
    }
}

/// Whether `c` holds the constraints diagnostics impose from a report: its evidence digest, and
/// exactly the excluded nodes, in increasing order, each with its reasons in byte order.
pub open spec fn constraints_spec(c: AutonomousConstraints, governor: Governor, report: FabricDiagnosticReport) -> bool {
    let findings = findings_view(report.findings@);
    let ex = c.excluded_nodes@;
    &&& c.evidence_digest@ == report.evidence_digest@
    &&& forall|i: int, j: int| 0 <= i < j < ex.len() ==> (#[trigger] ex[i]).0 < (#[trigger] ex[j]).0
    &&& forall|i: int| 0 <= i < ex.len() ==> excluded_node(governor, findings, (#[trigger] ex[i]).0)
    &&& forall|i: int| 0 <= i < ex.len() ==> (#[trigger] ex[i]).1@.map_values(|t: String| t@) == reasons_upto(governor, findings, ex[i].0, 4)
    &&& forall|node: u128| excluded_node(governor, findings, node) ==> exists|i: int| 0 <= i < ex.len() && (#[trigger] ex[i]).0 == node
}

fn exclusion_code(k: usize) -> (r: &'static str)
    requires
        k < 4,
    ensures
        r@ == exclusion_codes()[k as int],
{
    if k == 0 {
        "AUTHENTICATED_ROUTE_EMPTY"
    } else if k == 1 {
        "AUTHENTICATED_ROUTE_MISSING"
    } else if k == 2 {
        "BATTERY_RESERVE_CONSTRAINED"
    } else {
        "THERMAL_HEADROOM_CONSTRAINED"
    }
}

fn excluded_by(governor: &Governor, f: &DiagnosticFinding) -> (r: Option<u128>)
    ensures
        match r {
            Some(node) => finding_excludes(*governor, f.finding_view(), node),
            None => forall|node: u128| !finding_excludes(*governor, f.finding_view(), node),
        },
{
    let action = if text_eq(f.code, "THERMAL_HEADROOM_CONSTRAINED") {
        "suppress_thermally_constrained_node"
    } else if text_eq(f.code, "BATTERY_RESERVE_CONSTRAINED") {
        "suppress_low_battery_node"
    } else if text_eq(f.code, "AUTHENTICATED_ROUTE_MISSING") || text_eq(f.code, "AUTHENTICATED_ROUTE_EMPTY") {
        "suppress_unroutable_node"
    } else {
        return None;
    };
    if governor.authorize_diagnostic_action(action).is_err() {
        return None;
    }
    parse_uuid(f.scope.as_str())
}

fn insert_node(ids: &mut Vec<u128>, node: u128)
    requires
        forall|i: int, j: int| 0 <= i < j < old(ids)@.len() ==> old(ids)@[i] < old(ids)@[j],
    ensures
        forall|i: int, j: int| 0 <= i < j < final(ids)@.len() ==> final(ids)@[i] < final(ids)@[j],
        forall|x: u128| final(ids)@.contains(x) <==> (old(ids)@.contains(x) || x == node),
{
    let mut p: usize = 0;
    while p < ids.len() && ids[p] < node
        invariant
            ids@ == old(ids)@,
            p <= ids@.len(),
            forall|i: int| 0 <= i < p ==> ids@[i] < node,
        decreases ids@.len() - p,
    {
        p = p + 1;
    }
    if p < ids.len() && ids[p] == node {
        assert(ids@[p as int] == node);
        return;
    }
    let ghost before = ids@;
    ids.insert(p, node);
    proof {
        assert forall|x: u128| ids@.contains(x) <==> (before.contains(x) || x == node) by {
            if ids@.contains(x) {
                let w = choose|w: int| 0 <= w < ids@.len() && ids@[w] == x;
                if w < p {
                    assert(before[w] == x);
                } else if w > p {
                    assert(before[w - 1] == x);
                }
            }
            if before.contains(x) {
                let w = choose|w: int| 0 <= w < before.len() && before[w] == x;
                if w < p {
                    assert(ids@[w] == x);
                } else {
                    assert(ids@[w + 1] == x);
                }
            }
            if x == node {
                assert(ids@[p as int] == x);
            }
        }
        assert(before == old(ids)@);
        assert(forall|x: u128| ids@.contains(x) <==> (old(ids)@.contains(x) || x == node));
    }
}

fn reasons_for(governor: &Governor, findings: &Vec<DiagnosticFinding>, node: u128) -> (r: Vec<String>)
    ensures
        r@.map_values(|t: String| t@) == reasons_upto(*governor, findings_view(findings@), node, 4),
{
    let ghost fs = findings_view(findings@);
    let mut reasons: Vec<String> = Vec::new();
    let mut k: usize = 0;
    assert(reasons@.map_values(|t: String| t@) =~= reasons_upto(*governor, fs, node, 0));
    while k < 4
        invariant
            k <= 4,
            fs == findings_view(findings@),
            reasons@.map_values(|t: String| t@) == reasons_upto(*governor, fs, node, k as nat),
        decreases 4 - k,
    {
        let code = exclusion_code(k);
        let mut found = false;
        let mut i: usize = 0;
        while !found && i < findings.len()
            invariant
                i <= findings@.len(),
                fs == findings_view(findings@),
                found ==> excluded_for(*governor, fs, node, code@),
                !found ==> forall|m: int| 0 <= m < i ==> !((#[trigger] fs[m]).1 == code@ && finding_excludes(*governor, fs[m], node)),
            decreases findings@.len() - i + (if found { 0int } else { 1int }),
        {
            let f = &findings[i];
            if text_eq(f.code, code) {
                match excluded_by(governor, f) {
                    Some(n) => {
                        if n == node {
                            assert(fs[i as int] == f.finding_view());
                            found = true;
                        }
                    },
                    None => {},
                }
            }
            if !found {
                proof {
                    assert(fs[i as int] == f.finding_view());
                    if fs[i as int].1 == code@ && finding_excludes(*governor, fs[i as int], node) {
                        assert(uuid_parse_of(fs[i as int].2) == Some(node));
                    }
                }
                i = i + 1;
            }
        }
        let ghost before = reasons@;
        if found {
            reasons.push(code.to_string());
        }
        proof {
            assert(reasons@.map_values(|t: String| t@) =~= reasons_upto(*governor, fs, node, (k + 1) as nat));
        }
        k = k + 1;
    }
    reasons
}

/// The constraints diagnostics impose from a report, as `constraints_spec` states: a node is
/// excluded for each thermal, battery or route finding about it, where the Governor allows the
/// suppression that finding calls for.
pub fn derive_autonomous_constraints(governor: &Governor, report: &FabricDiagnosticReport) -> (r: AutonomousConstraints)
    ensures
        constraints_spec(r, *governor, *report),
{
    let findings = &report.findings;
    let ghost fs = findings_view(findings@);
    let mut ids: Vec<u128> = Vec::new();
    let mut i: usize = 0;
    while i < findings.len()
        invariant
            i <= findings@.len(),
            fs == findings_view(findings@),
            forall|a: int, b: int| 0 <= a < b < ids@.len() ==> ids@[a] < ids@[b],
            forall|x: u128| ids@.contains(x) ==> excluded_node(*governor, fs, x),
            forall|m: int, x: u128| 0 <= m < i && #[trigger] finding_excludes(*governor, fs[m], x) ==> ids@.contains(x),
        decreases findings@.len() - i,
    {
        let ghost before = ids@;
        match excluded_by(governor, &findings[i]) {
            Some(node) => {
                proof {
                    assert(fs[i as int] == findings[i as int].finding_view());
                }
                insert_node(&mut ids, node);
            },
            None => {
                proof {
                    assert(fs[i as int] == findings[i as int].finding_view());
                }
            },
        }
        proof {
            assert forall|m: int, x: u128| 0 <= m < i + 1 && #[trigger] finding_excludes(*governor, fs[m], x) implies ids@.contains(x) by {
                if m < i {
                    assert(before.contains(x));
                }
            }
        }
        i = i + 1;
    }
    let mut excluded: Vec<(u128, Vec<String>)> = Vec::new();
    let mut k: usize = 0;
    while k < ids.len()
        invariant
            k <= ids@.len(),
            fs == findings_view(findings@),
            excluded@.len() == k,
            forall|m: int| 0 <= m < k ==> (#[trigger] excluded@[m]).0 == ids@[m],
            forall|m: int| 0 <= m < k ==> (#[trigger] excluded@[m]).1@.map_values(|t: String| t@) == reasons_upto(*governor, fs, ids@[m], 4),
        decreases ids@.len() - k,
    {
        let node = ids[k];
        let reasons = reasons_for(governor, findings, node);
        excluded.push((node, reasons));
        k = k + 1;
    }
    proof {
        assert forall|node: u128| excluded_node(*governor, fs, node) implies exists|m: int| 0 <= m < excluded@.len() && (#[trigger] excluded@[m]).0 == node by {
            let w = choose|w: int| 0 <= w < fs.len() && finding_excludes(*governor, #[trigger] fs[w], node);
            assert(ids@.contains(node));
            let m = choose|m: int| 0 <= m < ids@.len() && ids@[m] == node;
            assert(excluded@[m].0 == node);
        }
        assert forall|m: int| 0 <= m < excluded@.len() implies excluded_node(*governor, fs, (#[trigger] excluded@[m]).0) by {
            assert(ids@.contains(ids@[m]));
        }
    }
    let r = AutonomousConstraints { evidence_digest: report.evidence_digest.clone(), excluded_nodes: excluded };
    assert(r.evidence_digest@ == report.evidence_digest@);
    assert(forall|a: int, b: int| 0 <= a < b < r.excluded_nodes@.len() ==> (#[trigger] r.excluded_nodes@[a]).0 < (#[trigger] r.excluded_nodes@[b]).0);
    assert(forall|m: int| 0 <= m < r.excluded_nodes@.len() ==> excluded_node(*governor, fs, (#[trigger] r.excluded_nodes@[m]).0));
    assert(forall|m: int| 0 <= m < r.excluded_nodes@.len() ==> (#[trigger] r.excluded_nodes@[m]).1@.map_values(|t: String| t@) == reasons_upto(*governor, fs, r.excluded_nodes@[m].0, 4));
    assert(r.excluded_nodes@ == excluded@);
    assert(forall|node: u128| excluded_node(*governor, fs, node) ==> exists|m: int| 0 <= m < r.excluded_nodes@.len() && (#[trigger] r.excluded_nodes@[m]).0 == node);
    r
}

/// The offers placement may use under a set of constraints: those of nodes it does not exclude,
/// in their order.
pub open spec fn offers_outside_spec(c: AutonomousConstraints, offers: Seq<ResourceOfferV1>) -> Seq<ResourceOfferV1> {
    offers.filter(|o: ResourceOfferV1| !exists|i: int| 0 <= i < c.excluded_nodes@.len() && (#[trigger] c.excluded_nodes@[i]).0 == o.node_id)
}

fn node_excluded(c: &AutonomousConstraints, node: u128) -> (r: bool)
    ensures
        r == exists|i: int| 0 <= i < c.excluded_nodes@.len() && (#[trigger] c.excluded_nodes@[i]).0 == node,
{
    let mut i: usize = 0;
    while i < c.excluded_nodes.len()
        invariant
            i <= c.excluded_nodes@.len(),
            forall|k: int| 0 <= k < i ==> (#[trigger] c.excluded_nodes@[k]).0 != node,
        decreases c.excluded_nodes@.len() - i,
    {
        if c.excluded_nodes[i].0 == node {
            assert(c.excluded_nodes@[i as int].0 == node);
            return true;
        }
        i = i + 1;
    }
    false
}

/// The offers placement may use under a set of constraints, as `offers_outside_spec` states.
pub fn offers_outside(c: &AutonomousConstraints, offers: Vec<ResourceOfferV1>) -> (r: Vec<ResourceOfferV1>)
    ensures
        r@ == offers_outside_spec(*c, offers@),
{
    let ghost pred = |o: ResourceOfferV1| !exists|i: int| 0 <= i < c.excluded_nodes@.len() && (#[trigger] c.excluded_nodes@[i]).0 == o.node_id;
    let ghost all = offers@;
    assert(all.len() <= usize::MAX) by {
        assert(offers@.len() == offers.len());
    }
    let mut rest = offers;
    let mut out: Vec<ResourceOfferV1> = Vec::new();
    let mut k: usize = 0;
    proof {
        reveal_with_fuel(Seq::filter, 1);
        assert(all.take(0).filter(pred) =~= Seq::<ResourceOfferV1>::empty());
        assert(rest@ =~= all.skip(0));
    }
    while rest.len() > 0
        invariant
            k <= all.len(),
            all.len() <= usize::MAX,
            rest@ == all.skip(k as int),
            out@ == all.take(k as int).filter(pred),
            pred == (|o: ResourceOfferV1| !exists|i: int| 0 <= i < c.excluded_nodes@.len() && (#[trigger] c.excluded_nodes@[i]).0 == o.node_id),
        decreases rest@.len(),
    {
        let offer = rest.remove(0);
        proof {
            assert(offer == all[k as int]);
            assert(all.take(k + 1).drop_last() =~= all.take(k as int));
            assert(all.take(k + 1).last() == all[k as int]);
            assert(rest@ =~= all.skip(k + 1));
            reveal_with_fuel(Seq::filter, 1);
        }
        if !node_excluded(c, offer.node_id) {
            out.push(offer);
        }
        k = k + 1;
    }
    proof {
        assert(all.take(all.len() as int) =~= all);
    }
    out
}

/// Diagnostics only ever take offers away from placement: every offer left under a set of
/// constraints is one of the offers given, and none of an excluded node is left.
pub proof fn law_constraints_only_remove_offers(c: AutonomousConstraints, offers: Seq<ResourceOfferV1>)
    ensures
        offers_outside_spec(c, offers).len() <= offers.len(),
        forall|k: int| 0 <= k < offers_outside_spec(c, offers).len() ==> offers.contains(#[trigger] offers_outside_spec(c, offers)[k]),
        forall|k: int, i: int| 0 <= k < offers_outside_spec(c, offers).len() && 0 <= i < c.excluded_nodes@.len() ==> (#[trigger] offers_outside_spec(c, offers)[k]).node_id != (#[trigger] c.excluded_nodes@[i]).0,
{
    let pred = |o: ResourceOfferV1| !exists|i: int| 0 <= i < c.excluded_nodes@.len() && (#[trigger] c.excluded_nodes@[i]).0 == o.node_id;
    offers.lemma_filter_len(pred);
    assert forall|k: int| 0 <= k < offers_outside_spec(c, offers).len() implies offers.contains(#[trigger] offers_outside_spec(c, offers)[k]) by {
        let kept = offers_outside_spec(c, offers);
        assert(kept.contains(kept[k]));
        offers.lemma_filter_contains_rev(pred, kept[k]);
    }
    assert forall|k: int, i: int| 0 <= k < offers_outside_spec(c, offers).len() && 0 <= i < c.excluded_nodes@.len() implies (#[trigger] offers_outside_spec(c, offers)[k]).node_id != (#[trigger] c.excluded_nodes@[i]).0 by {
        offers.lemma_filter_pred(pred, k);
    }
}

/// Under the owner's STOP latch diagnostics exclude no node on their own.
pub proof fn law_stopped_governor_imposes_no_constraints(
    c: AutonomousConstraints,
    governor: Governor,
    report: FabricDiagnosticReport,
)
    requires
        constraints_spec(c, governor, report),
        governor.config_of().killed,
    ensures
        c.excluded_nodes@.len() == 0,
{
    if c.excluded_nodes@.len() > 0 {
        let findings = findings_view(report.findings@);
        assert(excluded_node(governor, findings, c.excluded_nodes@[0].0));
    }
}

} // verus!
