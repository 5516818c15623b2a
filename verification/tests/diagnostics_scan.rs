use rampage::diagnostics::{
    build_diagnostic_report, derive_autonomous_constraints, offers_outside, seal_diagnostic_report, DiagnosticEvent,
    DiagnosticSeverity, FabricDiagnosticReport,
};
use rampage::policy::{Governor, GovernorConfig};
use serde_json::Value;
use rampage::protocol::{
    ArtifactRefV1, ArtifactReplicaReceiptV1, AvailabilityV1, DeviceKind, InstalledModelV1, MeshEndpointRecordV1,
    ModelBackend, ModelMemoryKind, ModelParallelism, ModelRuntimeOfferV1, ModelRuntimeStatus, NodeIdentityV1,
    ResourceClass, ResourceOfferV1, ResourceQuantityV1, StorageClass,
};

const NOW: i128 = 1_700_000_000_000_000_000;
const SECOND: i128 = 1_000_000_000;
const MINUTE: i128 = 60 * SECOND;
const GIB: u64 = 1024 * 1024 * 1024;

fn scan(
    now: i128,
    nodes: &Vec<NodeIdentityV1>,
    offers: &Vec<ResourceOfferV1>,
    replicas: &Vec<(String, u128, ArtifactRefV1)>,
    evidence: &Vec<(String, u128, ArtifactReplicaReceiptV1)>,
    events: &Vec<DiagnosticEvent>,
    kill_latch: bool,
) -> FabricDiagnosticReport {
    let mut report = build_diagnostic_report(now, nodes, offers, 0, replicas, evidence, events, kill_latch);
    let canonical = canonical_json(&report);
    seal_diagnostic_report(&mut report, &canonical);
    report
}

fn strings(items: &[&'static str]) -> Value {
    Value::Array(items.iter().map(|s| Value::String(s.to_string())).collect())
}

fn severity_name(severity: DiagnosticSeverity) -> &'static str {
    match severity {
        DiagnosticSeverity::Info => "info",
        DiagnosticSeverity::Warning => "warning",
        DiagnosticSeverity::Critical => "critical",
    }
}

/// The JSON the evidence digest covers: status, health score, metrics, autonomy and findings,
/// every object with its keys in order, written compactly.
fn canonical_json(report: &FabricDiagnosticReport) -> Vec<u8> {
    let m = &report.metrics;
    let mut resources = serde_json::Map::new();
    for (name, amount) in &m.available_resources {
        resources.insert(name.to_string(), Value::from(*amount));
    }
    let mut metrics = serde_json::Map::new();
    metrics.insert("enrolled_nodes".into(), Value::from(m.enrolled_nodes));
    metrics.insert("live_offers".into(), Value::from(m.live_offers));
    metrics.insert("expired_offers".into(), Value::from(m.expired_offers));
    metrics.insert("active_assignments".into(), Value::from(m.active_assignments));
    metrics.insert("protected_artifacts".into(), Value::from(m.protected_artifacts));
    metrics.insert("under_replicated_protected_artifacts".into(), Value::from(m.under_replicated_protected_artifacts));
    metrics.insert("recent_denials".into(), Value::from(m.recent_denials));
    metrics.insert("recent_failed_receipts".into(), Value::from(m.recent_failed_receipts));
    metrics.insert("available_resources".into(), Value::Object(resources));
    let a = &report.autonomy;
    let mut autonomy = serde_json::Map::new();
    autonomy.insert("mode".into(), Value::from(a.mode));
    autonomy.insert("per_change_approval_required".into(), Value::from(a.per_change_approval_required));
    autonomy.insert("eligible_within_envelope".into(), strings(&a.eligible_within_envelope));
    autonomy.insert("authority_expansion".into(), Value::from(a.authority_expansion));
    autonomy.insert("promotion_requirements".into(), strings(&a.promotion_requirements));
    let findings = report
        .findings
        .iter()
        .map(|f| {
            let mut proposal = serde_json::Map::new();
            proposal.insert("action".into(), Value::from(f.proposal.action));
            proposal.insert("risk".into(), Value::from(f.proposal.risk));
            proposal.insert("auto_eligible".into(), Value::from(f.proposal.auto_eligible));
            proposal.insert("threshold".into(), Value::from(f.proposal.threshold));
            proposal.insert("required_gates".into(), strings(&f.proposal.required_gates));
            proposal.insert("rollback".into(), Value::from(f.proposal.rollback));
            let mut finding = serde_json::Map::new();
            finding.insert("severity".into(), Value::from(severity_name(f.severity)));
            finding.insert("code".into(), Value::from(f.code));
            finding.insert("scope".into(), Value::from(f.scope.clone()));
            finding.insert("evidence".into(), Value::from(f.evidence.clone()));
            finding.insert("proposal".into(), Value::Object(proposal));
            Value::Object(finding)
        })
        .collect();
    let mut top = serde_json::Map::new();
    top.insert("status".into(), Value::from(report.status));
    top.insert("health_score".into(), Value::from(report.health_score));
    top.insert("metrics".into(), Value::Object(metrics));
    top.insert("autonomy".into(), Value::Object(autonomy));
    top.insert("findings".into(), Value::Array(findings));
    serde_json::to_vec(&Value::Object(top)).unwrap()
}

fn empty_scan(now: i128) -> FabricDiagnosticReport {
    scan(now, &vec![], &vec![], &vec![], &vec![], &vec![], false)
}

fn valid_model_offer(node_id: u128) -> ResourceOfferV1 {
    ResourceOfferV1 {
        schema: "rampage.resource-offer.v1".into(),
        offer_id: node_id + 1,
        node_id,
        observed_at: NOW,
        expires_at: NOW + MINUTE,
        resources: vec![ResourceQuantityV1 {
            class: ResourceClass::RamWorkingSet,
            capacity: 4 * GIB,
            available: 4 * GIB,
            unit: "byte".into(),
            labels: vec![],
        }],
        availability: AvailabilityV1 {
            on_ac_power: true,
            battery_percent: None,
            thermal_headroom_percent: 80,
            foreground_allowed: true,
            owner_idle: true,
        },
        adapters: vec!["rampage.ollama.v1".into()],
        workload_capabilities: Vec::new(),
        model_runtimes: vec![ModelRuntimeOfferV1 {
            schema: ModelRuntimeOfferV1::SCHEMA.into(),
            adapter: "rampage.ollama.v1".into(),
            backend: ModelBackend::LocalOllama,
            runtime_version: "test".into(),
            runtime_digest: "shipped-local:test".into(),
            compatibility_key: "ollama-test".into(),
            memory_kind: ModelMemoryKind::Host,
            available_model_bytes: 4 * GIB,
            supported_parallelism: vec![ModelParallelism::WholeModel],
            status: ModelRuntimeStatus::ShippedLocal,
            installed_models: vec![InstalledModelV1 {
                schema: InstalledModelV1::SCHEMA.into(),
                model_id: "gemma3:4b".into(),
                artifact_digest: format!("sha256:{}", "d".repeat(64)),
                artifact_size_bytes: GIB,
            }],
            certification_digest: None,
        }],
        link_benchmark: None,
        mesh_endpoint: None,
        signature: "signed".into(),
    }
}

fn identity(node_id: u128) -> NodeIdentityV1 {
    NodeIdentityV1 {
        schema: "rampage.node-identity.v1".into(),
        node_id,
        owner_id: 7,
        display_name: "unroutable".into(),
        device_kind: DeviceKind::Desktop,
        platform: "windows-x86_64".into(),
        public_key: "test-key".into(),
        enrolled_at: NOW,
        fencing_epoch: 1,
    }
}

#[test]
fn self_scan_is_stable_and_requires_no_per_change_approval() {
    let report = empty_scan(NOW);
    let repeated = empty_scan(NOW + SECOND);
    assert!(!report.autonomy.per_change_approval_required);
    assert_eq!(report.autonomy.authority_expansion, "automatically_denied_outside_owner_envelope");
    assert!(report.findings.iter().any(|finding| finding.code == "NO_ENROLLED_CONTRIBUTORS"));
    assert_eq!(report.evidence_digest, repeated.evidence_digest);
    assert!(report.evidence_digest.starts_with("sha256:"));
}

#[test]
fn self_scan_promotes_repeated_denials_to_an_evidenced_finding() {
    let events = (0..3)
        .map(|_| DiagnosticEvent { recorded_at: NOW, event_type: "job.blocked".into(), state: None })
        .collect::<Vec<_>>();
    let report = scan(NOW, &vec![], &vec![], &vec![], &vec![], &events, false);
    assert_eq!(report.metrics.recent_denials, 3);
    let finding = report.findings.iter().find(|finding| finding.code == "REPEATED_AUTHORITY_DENIALS").unwrap();
    assert!(finding.proposal.auto_eligible);
    assert_eq!(finding.proposal.risk, "r1_allowlisted_source");
    assert_eq!(finding.evidence, "3 requests were denied in the bounded 15-minute evidence window.");
}

#[test]
fn stale_evidence_and_successful_receipts_do_not_count() {
    let events = vec![
        DiagnosticEvent { recorded_at: NOW - 16 * MINUTE, event_type: "job.blocked".into(), state: None },
        DiagnosticEvent { recorded_at: NOW - 15 * MINUTE, event_type: "mesh.request.denied".into(), state: None },
        DiagnosticEvent { recorded_at: NOW, event_type: "job.receipted".into(), state: Some("succeeded".into()) },
        DiagnosticEvent { recorded_at: NOW, event_type: "job.receipted".into(), state: Some("failed".into()) },
        DiagnosticEvent { recorded_at: NOW, event_type: "job.receipted".into(), state: Some("fenced".into()) },
    ];
    let report = scan(NOW, &vec![], &vec![], &vec![], &vec![], &events, false);
    assert_eq!(report.metrics.recent_denials, 1);
    assert_eq!(report.metrics.recent_failed_receipts, 2);
    assert_eq!(report.findings[0].code, "REPEATED_EXECUTION_FAILURES");
    assert_eq!(report.findings[0].severity, DiagnosticSeverity::Critical);
}

#[test]
fn diagnostics_preserve_local_polling_but_exclude_an_empty_mesh_route() {
    let node_id = 0x0190_a5a4_7d1e_7c3b_8a53_5a2b_9b0c_1d2e;
    let mut offer = valid_model_offer(node_id);
    let nodes = vec![identity(node_id)];
    let governor = Governor::ephemeral(GovernorConfig::default());
    let report = scan(NOW, &nodes, &vec![offer.clone()], &vec![], &vec![], &vec![], false);
    let constraints = derive_autonomous_constraints(&governor, &report);
    assert!(report.findings.iter().any(|finding| finding.code == "LOOPBACK_POLLING_ONLY"));
    assert!(constraints.excluded_nodes.is_empty());

    offer.mesh_endpoint = Some(MeshEndpointRecordV1 {
        schema: MeshEndpointRecordV1::SCHEMA.into(),
        endpoint_id: "test-key".into(),
        direct_addresses: Vec::new(),
        relay_urls: Vec::new(),
        issued_at: NOW,
        expires_at: offer.expires_at,
        signature: "signed".into(),
    });
    let report = scan(NOW, &nodes, &vec![offer.clone()], &vec![], &vec![], &vec![], false);
    let constraints = derive_autonomous_constraints(&governor, &report);
    assert_eq!(constraints.excluded_nodes.len(), 1);
    assert_eq!(constraints.excluded_nodes[0].0, node_id);
    assert_eq!(constraints.excluded_nodes[0].1, vec!["AUTHENTICATED_ROUTE_EMPTY".to_string()]);
    assert_eq!(constraints.evidence_digest, report.evidence_digest);
    let scope = report.findings.iter().find(|f| f.code == "AUTHENTICATED_ROUTE_EMPTY").unwrap().scope.clone();
    assert_eq!(scope, "0190a5a4-7d1e-7c3b-8a53-5a2b9b0c1d2e");
    assert!(offers_outside(&constraints, vec![offer.clone(), valid_model_offer(5)]).iter().all(|o| o.node_id == 5));

    let mut stopped = GovernorConfig::default();
    stopped.killed = true;
    let constraints = derive_autonomous_constraints(&Governor::ephemeral(stopped), &report);
    assert!(constraints.excluded_nodes.is_empty());
}

#[test]
fn protected_durability_counts_only_fresh_independent_receipts() {
    let digest = format!("sha256:{}", "d".repeat(64));
    let first = 11u128;
    let second = 12u128;
    let artifact = ArtifactRefV1 {
        schema: "rampage.artifact-ref.v1".into(),
        digest: digest.clone(),
        size_bytes: 42,
        media_type: "application/octet-stream".into(),
        storage_class: StorageClass::Protected,
        encrypted: true,
    };
    let replicas = vec![(digest.clone(), first, artifact.clone()), (digest.clone(), second, artifact)];
    let receipt = |node_id, expires_at| ArtifactReplicaReceiptV1 {
        schema: ArtifactReplicaReceiptV1::SCHEMA.into(),
        receipt_id: 100 + node_id,
        session_id: 200 + node_id,
        lease_id: 300 + node_id,
        node_id,
        digest: digest.clone(),
        size_bytes: 42,
        storage_class: StorageClass::Protected,
        challenge_nonce: "0123456789abcdef0123456789abcdef".into(),
        verified_at: NOW - MINUTE,
        expires_at,
        fencing_epoch: 3,
        signature: "signed".into(),
    };
    let evidence = vec![
        (digest.clone(), first, receipt(first, NOW + 9 * MINUTE)),
        (digest.clone(), second, receipt(second, NOW - SECOND)),
    ];
    let report = scan(NOW, &vec![], &vec![], &replicas, &evidence, &vec![], false);
    assert_eq!(report.metrics.protected_artifacts, 1);
    assert_eq!(report.metrics.under_replicated_protected_artifacts, 1);
    assert!(report.findings.iter().any(|finding| finding.code == "PROTECTED_ARTIFACT_UNDER_REPLICATED"));
}

#[test]
fn findings_are_ranked_and_the_health_score_follows_them() {
    let mut offer = valid_model_offer(1);
    offer.availability.thermal_headroom_percent = 20;
    offer.availability.on_ac_power = false;
    offer.availability.battery_percent = Some(30);
    let report = scan(NOW, &vec![identity(1), identity(2)], &vec![offer], &vec![], &vec![], &vec![], false);
    let ranks = report
        .findings
        .iter()
        .map(|f| match f.severity {
            DiagnosticSeverity::Critical => 2,
            DiagnosticSeverity::Warning => 1,
            DiagnosticSeverity::Info => 0,
        })
        .collect::<Vec<_>>();
    assert!(ranks.windows(2).all(|w| w[0] >= w[1]));
    let warnings = report.findings.iter().filter(|f| f.severity == DiagnosticSeverity::Warning).count() as u8;
    assert_eq!(report.health_score, 100u8.saturating_sub(warnings * 8));
    let thermal = report.findings.iter().find(|f| f.code == "THERMAL_HEADROOM_CONSTRAINED").unwrap();
    assert_eq!(thermal.evidence, "Thermal headroom is 20%, below the autonomous scheduling threshold of 35%.");
    assert_eq!(report.metrics.available_resources, vec![("ram_working_set", 4 * GIB)]);
    assert_eq!(report.metrics.live_offers, 1);
    assert_eq!(report.metrics.enrolled_nodes, 2);
    assert!(report.findings.iter().any(|f| f.code == "NODE_WITHOUT_LIVE_OFFER"));
}

#[test]
fn the_owner_stop_zeroes_health_and_link_figures_read_in_tenths() {
    let report = scan(NOW, &vec![], &vec![], &vec![], &vec![], &vec![], true);
    assert_eq!(report.health_score, 0);
    assert_eq!(report.status, "stopped");
    assert_eq!(report.findings[0].code, "OWNER_STOP_ACTIVE");

    let mut offer = valid_model_offer(3);
    offer.link_benchmark = Some(rampage::protocol::LinkBenchmarkV1 {
        schema: rampage::protocol::LinkBenchmarkV1::SCHEMA.into(),
        controller_endpoint_id: "controller".into(),
        observed_at: NOW,
        expires_at: NOW + MINUTE,
        rtt_micros_p50: 80_250,
        uplink_bps: 12_345_678,
        downlink_bps: 50_000_000,
        transfer_bytes: 262_144,
        samples: 3,
        transport: "authenticated_quic".into(),
        observed_path: None,
    });
    let report = scan(NOW, &vec![identity(3)], &vec![offer], &vec![], &vec![], &vec![], false);
    let latency = report.findings.iter().find(|f| f.code == "HIGH_LINK_LATENCY").unwrap();
    assert_eq!(latency.evidence, format!("Measured median RTT is {:.1} ms; interactive speed-lane placement is suppressed.", 80_250f64 / 1_000.0));
    let bandwidth = report.findings.iter().find(|f| f.code == "LOW_LINK_BANDWIDTH").unwrap();
    assert_eq!(bandwidth.evidence, format!("The slower measured direction is {:.1} Mbps; transfer-heavy shards are suppressed.", 12_345_678f64 / 1_000_000.0));
}
