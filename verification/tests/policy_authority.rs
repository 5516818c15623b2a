use rampage::policy::{
    classify_promotion_paths, sign_offer, verify_lease_with_key, verify_mesh_endpoint_with_key,
    verify_model_session_lease_with_key, verify_offer, verify_promotion_canary_with_key,
    verify_storage_lease_with_key, Denial, Governor, GovernorConfig, ModelSessionLimits, RiskClass,
};
use rampage::protocol::{
    ArtifactTransferOperation, AvailabilityV1, CapabilityLeaseV1, DeviceKind, ExecutionPattern,
    InstalledModelV1, JobSpecV1, MeshEndpointRecordV1, ModelBackend, ModelMemoryKind, ModelParallelism,
    ModelRuntimeOfferV1, ModelRuntimeStatus, ModelSessionLeaseV1, NodeIdentityV1, PromotionCandidateV1,
    PromotionCanaryLeaseV1, PromotionEvidenceGateV1, PromotionRiskV1, ResourceClass, ResourceOfferV1,
    ResourceQuantityV1, ResourceRequestV1, StorageClass, StorageLeaseV1, WorkloadCapabilityStatus,
    WorkloadCapabilityV1, WorkloadDomain, WorkloadIsolation, WorkloadTrust,
};

const NOW: i128 = 1_700_000_000_000_000_000;
const SECOND: i128 = 1_000_000_000;
const MINUTE: i128 = 60 * SECOND;

fn fixtures(kind: &str, restart_tolerant: bool) -> (JobSpecV1, ResourceOfferV1) {
    let resource = ResourceQuantityV1 {
        class: ResourceClass::CpuCompute,
        capacity: 8,
        available: 6,
        unit: "logical_core".into(),
        labels: vec![("device_kind".into(), kind.into())],
    };
    (
        JobSpecV1 {
            schema: JobSpecV1::SCHEMA.into(),
            job_id: 101,
            project_id: 102,
            submitted_by: 103,
            adapter: "rampage.hash.v1".into(),
            operation: "hash".into(),
            arguments: vec![],
            inputs: vec![],
            requests: vec![ResourceRequestV1 {
                class: ResourceClass::CpuCompute,
                minimum: 1,
                preferred: 2,
                unit: "logical_core".into(),
                required_labels: vec![],
            }],
            trust: WorkloadTrust::NativeTrusted,
            restart_tolerant,
            network_allowlist: vec![],
            deadline: NOW + 5 * MINUTE,
            idempotency_key: "test".into(),
        },
        ResourceOfferV1 {
            schema: "rampage.resource-offer.v1".into(),
            offer_id: 104,
            node_id: 105,
            observed_at: NOW,
            expires_at: NOW + MINUTE,
            resources: vec![resource],
            availability: AvailabilityV1 {
                on_ac_power: true,
                battery_percent: None,
                thermal_headroom_percent: 80,
                foreground_allowed: true,
                owner_idle: true,
            },
            adapters: vec!["rampage.hash.v1".into()],
            workload_capabilities: Vec::new(),
            model_runtimes: Vec::new(),
            link_benchmark: None,
            mesh_endpoint: None,
            signature: "agent-signed".into(),
        },
    )
}

fn governor_key(governor: &Governor) -> String {
    hex::encode(governor.verifying_key())
}

fn lease_message(lease: &CapabilityLeaseV1) -> String {
    let mut unsigned = lease.clone();
    unsigned.signature = String::new();
    format!("{unsigned:?}")
}

fn storage_message(lease: &StorageLeaseV1) -> String {
    let mut unsigned = lease.clone();
    unsigned.signature = String::new();
    format!("{unsigned:?}")
}

fn model_lease_message(lease: &ModelSessionLeaseV1) -> String {
    let mut unsigned = lease.clone();
    unsigned.signature = String::new();
    format!("{unsigned:?}")
}

fn canary_message(lease: &PromotionCanaryLeaseV1) -> String {
    let mut unsigned = lease.clone();
    unsigned.signature = String::new();
    format!("{unsigned:?}")
}

fn offer_message(offer: &ResourceOfferV1) -> String {
    let mut unsigned = offer.clone();
    unsigned.signature = String::new();
    format!("{unsigned:?}")
}

fn endpoint_message(endpoint: &MeshEndpointRecordV1) -> String {
    let mut unsigned = endpoint.clone();
    unsigned.signature = String::new();
    format!("{unsigned:?}")
}

fn signed_job_lease(governor: &Governor, job: &JobSpecV1, offer: &ResourceOfferV1, epoch: u64) -> CapabilityLeaseV1 {
    let mut lease = governor
        .authorize_job_at_epoch(job, offer, offer.node_id, epoch, NOW, 900, "nonce".to_string())
        .unwrap();
    lease.signature = governor.sign_contract(lease_message(&lease).as_bytes());
    lease
}

#[test]
fn issues_verifiable_scoped_lease() {
    let governor = Governor::ephemeral(GovernorConfig::default());
    let (job, offer) = fixtures("desktop", true);
    let mut lease = governor.authorize_job(&job, &offer, offer.node_id, NOW, 900, "nonce".to_string()).unwrap();
    assert_eq!(lease.adapter, job.adapter);
    assert_eq!(lease.granted.len(), 1);
    assert_eq!(lease.granted[0].capacity, 1);
    assert_eq!(lease.granted[0].available, 1);
    lease.signature = governor.sign_contract(lease_message(&lease).as_bytes());
    assert!(governor.verify_lease(&lease, lease_message(&lease).as_bytes()).is_ok());
}

#[test]
fn issued_lease_expires_at_the_ttl_or_the_deadline() {
    let governor = Governor::ephemeral(GovernorConfig::default());
    let (mut job, offer) = fixtures("desktop", true);
    let lease = governor.authorize_job(&job, &offer, offer.node_id, NOW, 900, "nonce".to_string()).unwrap();
    assert_eq!(lease.issued_at, NOW);
    assert_eq!(lease.expires_at, NOW + 120 * SECOND);
    job.deadline = NOW + 30 * SECOND;
    let lease = governor.authorize_job(&job, &offer, offer.node_id, NOW, 900, "nonce".to_string()).unwrap();
    assert_eq!(lease.expires_at, NOW + 30 * SECOND);
}

#[test]
fn issued_authority_carries_the_signed_fencing_epoch() {
    let governor = Governor::ephemeral(GovernorConfig::default());
    let (job, mut offer) = fixtures("desktop", true);
    offer.resources.push(ResourceQuantityV1 {
        class: ResourceClass::StorageCache,
        capacity: 4096,
        available: 4096,
        unit: "byte".into(),
        labels: vec![],
    });
    let lease = signed_job_lease(&governor, &job, &offer, 23);
    assert_eq!(lease.fencing_epoch, 23);
    assert!(governor.verify_lease(&lease, lease_message(&lease).as_bytes()).is_ok());

    let mut storage_lease = governor
        .authorize_storage_at_epoch(
            &offer,
            &format!("sha256:{}", "b".repeat(64)),
            1024,
            StorageClass::Cache,
            ArtifactTransferOperation::Put,
            23,
            NOW,
            901,
            "storage-nonce".to_string(),
        )
        .unwrap();
    assert_eq!(storage_lease.fencing_epoch, 23);
    storage_lease.signature = governor.sign_contract(storage_message(&storage_lease).as_bytes());
    assert!(verify_storage_lease_with_key(
        &governor_key(&governor),
        &storage_lease,
        storage_message(&storage_lease).as_bytes()
    )
    .is_ok());
}

#[test]
fn model_session_authority_is_exact_signed_and_tamper_evident() {
    let governor = Governor::ephemeral(GovernorConfig::default());
    let (_, mut offer) = fixtures("desktop", true);
    offer.adapters = vec!["rampage.ollama.v1".into()];
    offer.resources.push(ResourceQuantityV1 {
        class: ResourceClass::RamWorkingSet,
        capacity: 4 * 1024 * 1024 * 1024,
        available: 4 * 1024 * 1024 * 1024,
        unit: "byte".into(),
        labels: vec![],
    });
    offer.mesh_endpoint = Some(MeshEndpointRecordV1 {
        schema: MeshEndpointRecordV1::SCHEMA.into(),
        endpoint_id: "worker".into(),
        direct_addresses: vec!["127.0.0.1:1".into()],
        relay_urls: vec![],
        issued_at: NOW,
        expires_at: offer.expires_at,
        signature: "signed".into(),
    });
    let model = InstalledModelV1 {
        schema: InstalledModelV1::SCHEMA.into(),
        model_id: "gemma3:4b".into(),
        artifact_digest: format!("sha256:{}", "d".repeat(64)),
        artifact_size_bytes: 1024 * 1024 * 1024,
    };
    let runtime = ModelRuntimeOfferV1 {
        schema: ModelRuntimeOfferV1::SCHEMA.into(),
        adapter: "rampage.ollama.v1".into(),
        backend: ModelBackend::LocalOllama,
        runtime_version: "test".into(),
        runtime_digest: "shipped-local:test".into(),
        compatibility_key: "ollama-test".into(),
        memory_kind: ModelMemoryKind::Host,
        available_model_bytes: 2 * 1024 * 1024 * 1024,
        supported_parallelism: vec![ModelParallelism::WholeModel],
        status: ModelRuntimeStatus::ShippedLocal,
        installed_models: vec![model.clone()],
        certification_digest: None,
    };
    offer.model_runtimes = vec![runtime.clone()];
    let mut lease = governor
        .authorize_model_session_at_epoch(
            &offer,
            &runtime,
            &model,
            "controller",
            ModelSessionLimits { max_prompt_bytes: 4096, max_output_tokens: 512 },
            9,
            NOW,
            902,
            903,
            "model-nonce".to_string(),
        )
        .unwrap();
    lease.signature = governor.sign_contract(model_lease_message(&lease).as_bytes());
    let key = governor_key(&governor);
    assert!(lease.is_active_at(NOW, 9));
    assert!(verify_model_session_lease_with_key(&key, &lease, model_lease_message(&lease).as_bytes()).is_ok());
    let mut tampered = lease;
    tampered.model_id = "other".into();
    assert_eq!(
        verify_model_session_lease_with_key(&key, &tampered, model_lease_message(&tampered).as_bytes()),
        Err(Denial::InvalidSignature)
    );
}

#[test]
fn governor_rechecks_offer_adapter_and_resource_contract() {
    let governor = Governor::ephemeral(GovernorConfig::default());
    let (job, mut offer) = fixtures("desktop", true);
    offer.adapters.clear();
    assert_eq!(governor.check_job(&job, &offer, offer.node_id, NOW), Err(Denial::OfferAdapterMismatch));
    offer.adapters.push(job.adapter.clone());
    offer.resources[0].available = 0;
    assert_eq!(governor.check_job(&job, &offer, offer.node_id, NOW), Err(Denial::OfferResourceMismatch));
}

#[test]
fn governor_denies_candidate_or_wrong_operation_capabilities() {
    let governor = Governor::ephemeral(GovernorConfig::default());
    let (job, mut offer) = fixtures("desktop", true);
    offer.workload_capabilities = vec![WorkloadCapabilityV1 {
        schema: WorkloadCapabilityV1::SCHEMA.into(),
        adapter: job.adapter.clone(),
        domain: WorkloadDomain::DataProcessing,
        operations: vec![job.operation.clone()],
        execution_patterns: vec![ExecutionPattern::WholeWorkload],
        resource_classes: vec![ResourceClass::CpuCompute],
        isolation: WorkloadIsolation::AllowlistedInProcess,
        runtime_digest: "shipped-agent:test".into(),
        checkpointable: false,
        preemptible: true,
        network_allowlist_required: false,
        status: WorkloadCapabilityStatus::Candidate,
        qualification_digest: None,
    }];
    assert_eq!(governor.check_job(&job, &offer, offer.node_id, NOW), Err(Denial::WorkloadCapabilityMismatch));
    offer.workload_capabilities[0].status = WorkloadCapabilityStatus::Shipped;
    assert_eq!(governor.check_job(&job, &offer, offer.node_id, NOW), Ok(()));
    offer.workload_capabilities[0].operations = vec!["other".into()];
    assert_eq!(governor.check_job(&job, &offer, offer.node_id, NOW), Err(Denial::WorkloadCapabilityMismatch));
}

#[test]
fn governor_denies_untrusted_adapters_foreign_nodes_and_the_kill_latch() {
    let (mut job, offer) = fixtures("desktop", true);
    let mut config = GovernorConfig::default();
    config.killed = true;
    assert_eq!(Governor::ephemeral(config).check_job(&job, &offer, offer.node_id, NOW), Err(Denial::KillLatch));
    let governor = Governor::ephemeral(GovernorConfig::default());
    assert_eq!(governor.check_job(&job, &offer, 999, NOW), Err(Denial::NodeMismatch));
    assert_eq!(governor.check_job(&job, &offer, offer.node_id, NOW + MINUTE), Err(Denial::OfferExpired));
    job.adapter = "rampage.unknown.v1".into();
    assert_eq!(governor.check_job(&job, &offer, offer.node_id, NOW), Err(Denial::AdapterDenied));
}

#[test]
fn rejects_non_restartable_mobile_work() {
    let governor = Governor::ephemeral(GovernorConfig::default());
    let (job, offer) = fixtures("phone", false);
    assert_eq!(
        governor.authorize_job(&job, &offer, offer.node_id, NOW, 900, "nonce".to_string()).unwrap_err(),
        Denial::MobileRequiresRestartTolerance
    );
}

#[test]
fn rejects_mobile_work_that_would_drain_a_low_battery() {
    let governor = Governor::ephemeral(GovernorConfig::default());
    let (job, mut offer) = fixtures("phone", true);
    offer.availability.on_ac_power = false;
    offer.availability.battery_percent = Some(20);
    assert!(matches!(
        governor.authorize_job(&job, &offer, offer.node_id, NOW, 900, "nonce".to_string()),
        Err(Denial::MobileBatteryDenied)
    ));
}

#[test]
fn authority_critical_promotion_is_automatically_denied() {
    let governor = Governor::ephemeral(GovernorConfig::default());
    assert_eq!(
        governor.authorize_promotion(7, RiskClass::R3AuthorityCritical),
        Err(Denial::AutonomousAuthorityDenied)
    );
}

#[test]
fn protected_promotion_requires_a_preconfigured_project_envelope() {
    let project_id = 11;
    let mut config = GovernorConfig::default();
    config.autonomous_protected_projects.push(project_id);
    let governor = Governor::ephemeral(config);
    assert_eq!(governor.authorize_promotion(project_id, RiskClass::R2ProtectedChange), Ok(()));
    assert_eq!(
        governor.authorize_promotion(12, RiskClass::R2ProtectedChange),
        Err(Denial::AutonomousAuthorityDenied)
    );
}

#[test]
fn diagnostic_autonomy_can_only_reduce_scheduling_authority() {
    let governor = Governor::ephemeral(GovernorConfig::default());
    assert_eq!(governor.authorize_diagnostic_action("suppress_thermally_constrained_node"), Ok(()));
    assert_eq!(governor.authorize_diagnostic_action("enroll_peer"), Err(Denial::DiagnosticActionDenied));
}

const REQUIRED_GATES: [&str; 8] = [
    "g0_schema_policy_static",
    "g1_deterministic_replay",
    "g2_quality_reliability_cost",
    "g3_sealed_holdout",
    "g4_adversarial_security",
    "g5_independent_replication",
    "g6_shadow",
    "g7_canary_rollback",
];

fn valid_promotion_candidate() -> PromotionCandidateV1 {
    PromotionCandidateV1 {
        schema: PromotionCandidateV1::SCHEMA.into(),
        proposal_id: 21,
        project_id: 22,
        base_revision: "abc123".into(),
        candidate_digest: format!("sha256:{}", "b".repeat(64)),
        changed_paths: vec!["routing/placement.toml".into()],
        risk: PromotionRiskV1::R0Configuration,
        gates: REQUIRED_GATES
            .iter()
            .enumerate()
            .map(|(index, name)| PromotionEvidenceGateV1 {
                name: (*name).into(),
                passed: true,
                evidence_digest: format!("sha256:{:064x}", index + 1),
                independent: *name == "g5_independent_replication",
            })
            .collect(),
        requested_at: NOW,
        expires_at: NOW + 10 * MINUTE,
    }
}

#[test]
fn promotion_canary_requires_full_evidence_and_is_signed_and_bounded() {
    let governor = Governor::ephemeral(GovernorConfig::default());
    let candidate = valid_promotion_candidate();
    let mut lease = governor
        .authorize_promotion_canary_at_epoch(&candidate, 7, NOW, 31, "canary-nonce".to_string())
        .unwrap();
    lease.signature = governor.sign_contract(canary_message(&lease).as_bytes());
    let public_key = governor_key(&governor);
    assert!(lease.is_active_at(NOW, 7));
    assert_eq!(lease.max_traffic_basis_points, 1_000);
    assert!(verify_promotion_canary_with_key(&public_key, &lease, canary_message(&lease).as_bytes()).is_ok());
    let mut tampered = lease;
    tampered.max_traffic_basis_points = 10_000;
    assert_eq!(
        verify_promotion_canary_with_key(&public_key, &tampered, canary_message(&tampered).as_bytes()),
        Err(Denial::InvalidSignature)
    );
}

#[test]
fn promotion_canary_denies_risk_understatement_and_missing_gate_evidence() {
    let governor = Governor::ephemeral(GovernorConfig::default());
    let mut candidate = valid_promotion_candidate();
    candidate.changed_paths = vec!["crates/rampage-policy/src/lib.rs".into()];
    assert_eq!(
        governor.authorize_promotion_canary_at_epoch(&candidate, 1, NOW, 31, "n".to_string()).unwrap_err(),
        Denial::PromotionRiskMismatch
    );
    candidate.changed_paths = vec!["CRATES/RAMPAGE-POLICY/src/lib.rs".into()];
    assert_eq!(
        governor.authorize_promotion_canary_at_epoch(&candidate, 1, NOW, 31, "n".to_string()).unwrap_err(),
        Denial::PromotionRiskMismatch
    );
    candidate.changed_paths = vec!["routing/placement.toml".into()];
    candidate.gates[0].passed = false;
    assert_eq!(
        governor.authorize_promotion_canary_at_epoch(&candidate, 1, NOW, 31, "n".to_string()).unwrap_err(),
        Denial::InvalidPromotionEvidence
    );
}

#[test]
fn promotion_paths_are_classified_by_their_most_critical_change() {
    assert_eq!(classify_promotion_paths(&vec!["routing/placement.toml".into()]), RiskClass::R0Configuration);
    assert_eq!(
        classify_promotion_paths(&vec!["routing/placement.toml".into(), "crates/rampage-policy/src/lib.rs".into()]),
        RiskClass::R3AuthorityCritical
    );
}

#[test]
fn signed_offer_detects_tampering() {
    let signing_key = [7u8; 32];
    let (_, mut offer) = fixtures("desktop", true);
    let public_key = hex::encode(ed25519_dalek::SigningKey::from_bytes(&signing_key).verifying_key().to_bytes());
    let identity = NodeIdentityV1 {
        schema: "rampage.node-identity.v1".into(),
        node_id: offer.node_id,
        owner_id: 41,
        display_name: "test node".into(),
        device_kind: DeviceKind::Desktop,
        platform: "windows-x86_64".into(),
        public_key,
        enrolled_at: NOW,
        fencing_epoch: 0,
    };
    let message = offer_message(&offer);
    sign_offer(&signing_key, &mut offer, message.as_bytes());
    assert!(verify_offer(&identity, &offer, offer_message(&offer).as_bytes()).is_ok());
    offer.resources[0].available += 1;
    assert_eq!(verify_offer(&identity, &offer, offer_message(&offer).as_bytes()), Err(Denial::InvalidSignature));
}

#[test]
fn worker_can_verify_governor_lease_without_governor_secret() {
    let governor = Governor::ephemeral(GovernorConfig::default());
    let (job, offer) = fixtures("desktop", true);
    let lease = signed_job_lease(&governor, &job, &offer, 0);
    let public_key = governor_key(&governor);
    assert!(verify_lease_with_key(&public_key, &lease, lease_message(&lease).as_bytes()).is_ok());
    let mut tampered = lease;
    tampered.operation = "not-authorized".into();
    assert_eq!(
        verify_lease_with_key(&public_key, &tampered, lease_message(&tampered).as_bytes()),
        Err(Denial::InvalidSignature)
    );
}

#[test]
fn storage_lease_is_capacity_bounded_signed_and_tamper_evident() {
    let governor = Governor::ephemeral(GovernorConfig::default());
    let (_, mut offer) = fixtures("desktop", true);
    offer.resources.push(ResourceQuantityV1 {
        class: ResourceClass::StorageCache,
        capacity: 4096,
        available: 2048,
        unit: "byte".into(),
        labels: vec![],
    });
    let digest = format!("sha256:{}", "a".repeat(64));
    let mut lease = governor
        .authorize_storage(&offer, &digest, 1024, StorageClass::Cache, ArtifactTransferOperation::Put, NOW, 51, "s".to_string())
        .unwrap();
    lease.signature = governor.sign_contract(storage_message(&lease).as_bytes());
    let key = governor_key(&governor);
    assert!(verify_storage_lease_with_key(&key, &lease, storage_message(&lease).as_bytes()).is_ok());
    let mut tampered = lease;
    tampered.size_bytes += 1;
    assert_eq!(
        verify_storage_lease_with_key(&key, &tampered, storage_message(&tampered).as_bytes()),
        Err(Denial::InvalidSignature)
    );
    assert_eq!(
        governor
            .authorize_storage(&offer, &digest, 2049, StorageClass::Cache, ArtifactTransferOperation::Put, NOW, 52, "s".to_string())
            .unwrap_err(),
        Denial::StorageCapacityDenied
    );
}

#[test]
fn cpu_adapter_cannot_claim_gpu_memory_it_does_not_use() {
    let governor = Governor::ephemeral(GovernorConfig::default());
    let (mut job, offer) = fixtures("desktop", true);
    job.requests[0].class = ResourceClass::GpuMemory;
    job.requests[0].unit = "byte".into();
    assert_eq!(
        governor.authorize_job(&job, &offer, offer.node_id, NOW, 900, "nonce".to_string()).unwrap_err(),
        Denial::AdapterResourceDenied
    );
}

#[test]
fn signed_mesh_endpoint_detects_address_tampering() {
    let governor = Governor::ephemeral(GovernorConfig::default());
    let mut endpoint = MeshEndpointRecordV1 {
        schema: MeshEndpointRecordV1::SCHEMA.into(),
        endpoint_id: "endpoint".into(),
        direct_addresses: vec!["192.0.2.10:4000".into()],
        relay_urls: vec![],
        issued_at: NOW,
        expires_at: NOW + 10 * MINUTE,
        signature: String::new(),
    };
    let message = endpoint_message(&endpoint);
    governor.sign_mesh_endpoint(&mut endpoint, message.as_bytes());
    let public_key = governor_key(&governor);
    assert!(verify_mesh_endpoint_with_key(&public_key, &endpoint, endpoint_message(&endpoint).as_bytes(), NOW).is_ok());
    endpoint.direct_addresses[0] = "192.0.2.99:4000".into();
    assert_eq!(
        verify_mesh_endpoint_with_key(&public_key, &endpoint, endpoint_message(&endpoint).as_bytes(), NOW),
        Err(Denial::InvalidSignature)
    );
}

#[test]
fn classifying_joined_paths_gives_the_higher_risk() {
    let config: Vec<String> = vec!["routing/placement.toml".into(), "prompts/system.md".into()];
    let source: Vec<String> = vec!["services/api/src/handler.rs".into()];
    let protected: Vec<String> = vec!["services/api/package.json".into()];
    assert_eq!(classify_promotion_paths(&vec![]), RiskClass::R0Configuration);
    assert_eq!(classify_promotion_paths(&config), RiskClass::R0Configuration);
    assert_eq!(classify_promotion_paths(&source), RiskClass::R1AllowlistedSource);
    let joined: Vec<String> = config.iter().chain(source.iter()).cloned().collect();
    assert_eq!(classify_promotion_paths(&joined), RiskClass::R1AllowlistedSource);
    let joined: Vec<String> = source.iter().chain(protected.iter()).cloned().collect();
    assert_eq!(classify_promotion_paths(&joined), RiskClass::R2ProtectedChange);
}

#[test]
fn classification_ignores_case_and_separators() {
    assert_eq!(classify_promotion_paths(&vec!["CRATES/RAMPAGE-POLICY/src/lib.rs".into()]), RiskClass::R3AuthorityCritical);
    assert_eq!(classify_promotion_paths(&vec!["crates\\rampage-policy\\src\\lib.rs".into()]), RiskClass::R3AuthorityCritical);
    assert_eq!(classify_promotion_paths(&vec!["crates/rampage-policy/src/lib.rs".into()]), RiskClass::R3AuthorityCritical);
    assert_eq!(classify_promotion_paths(&vec!["Routing\\Placement.toml".into()]), RiskClass::R0Configuration);
}
