use rampage::protocol::{
    ArtifactTransferActionV2, ArtifactTransferOperation, ArtifactTransferRequestV2, CapabilityLeaseV1,
    ComputeStrategy, ContractError, ExecutionPattern, JobSpecV1, LinkBenchmarkV1, ModelBackend,
    ModelChatMessageV1, ModelInvocationRequestV1, ModelMemoryKind, ModelParallelism, ModelRuntimeOfferV1,
    ModelRuntimeStatus, ModelSessionLeaseV1, ModelSessionRequestV1, PromotionCandidateV1,
    PromotionEvidenceGateV1, PromotionRiskV1, RelayAccessManifestV1, ResourceClass, ShardSetV1,
    StorageClass, StorageLeaseV1, WorkloadCapabilityStatus, WorkloadCapabilityV1, WorkloadDomain,
    WorkloadIsolation, WorkloadTrust, expected_artifact_chunk_size, ARTIFACT_TRANSFER_CHUNK_BYTES,
    LINK_BENCHMARK_TRANSFER_BYTES, MAX_MODEL_SESSION_NODES,
};
use rampage::text::is_sha256_digest;

const NOW: i128 = 1_700_000_000_000_000_000;
const SECOND: i128 = 1_000_000_000;
const MINUTE: i128 = 60 * SECOND;

fn digest(c: char) -> String {
    format!("sha256:{}", c.to_string().repeat(64))
}

fn job(job_id: u128, project_id: u128, submitted_by: u128, adapter: &str, operation: &str, key: &str) -> JobSpecV1 {
    JobSpecV1 {
        schema: JobSpecV1::SCHEMA.into(),
        job_id,
        project_id,
        submitted_by,
        adapter: adapter.into(),
        operation: operation.into(),
        arguments: vec![],
        inputs: vec![],
        requests: vec![],
        trust: WorkloadTrust::NativeTrusted,
        restart_tolerant: true,
        network_allowlist: vec![],
        deadline: NOW + 5 * MINUTE,
        idempotency_key: key.into(),
    }
}

#[test]
fn sha256_contracts_require_canonical_lowercase_hex() {
    assert!(is_sha256_digest(&format!("sha256:{}", "a".repeat(64))));
    assert!(!is_sha256_digest(&format!("sha256:{}", "A".repeat(64))));
}

#[test]
fn sha256_contracts_refuse_wrong_length_and_prefix() {
    assert!(!is_sha256_digest(&format!("sha256:{}", "a".repeat(63))));
    assert!(!is_sha256_digest(&format!("sha512:{}", "a".repeat(64))));
    assert!(!is_sha256_digest(&"a".repeat(71)));
}

#[test]
fn rejects_expired_job() {
    let mut job = job(1, 2, 3, "rampage.echo.v1", "echo", "one");
    job.deadline = NOW - SECOND;
    assert_eq!(job.validate_at(NOW), Err(ContractError::DeadlineExpired));
}

#[test]
fn lease_is_fenced_by_epoch() {
    let lease = CapabilityLeaseV1 {
        schema: CapabilityLeaseV1::SCHEMA.into(),
        lease_id: 1,
        job_id: 2,
        node_id: 3,
        project_id: 4,
        adapter: "rampage.echo.v1".into(),
        operation: "echo".into(),
        input_digests: vec![],
        granted: vec![],
        network_allowlist: vec![],
        issued_at: NOW,
        expires_at: NOW + MINUTE,
        nonce: "nonce".into(),
        fencing_epoch: 4,
        signature: "signed".into(),
    };
    assert!(lease.is_active_at(NOW, 4));
    assert!(!lease.is_active_at(NOW, 5));
    assert!(!lease.is_active_at(NOW + MINUTE, 4));
}

#[test]
fn link_benchmark_is_scoped_fresh_and_bounded() {
    let mut benchmark = LinkBenchmarkV1 {
        schema: LinkBenchmarkV1::SCHEMA.into(),
        controller_endpoint_id: "controller-a".into(),
        observed_at: NOW,
        expires_at: NOW + 2 * MINUTE,
        rtt_micros_p50: 2_000,
        uplink_bps: 100_000_000,
        downlink_bps: 200_000_000,
        transfer_bytes: LINK_BENCHMARK_TRANSFER_BYTES,
        samples: 3,
        transport: "authenticated_quic".into(),
        observed_path: None,
    };
    assert!(benchmark.is_valid_for("controller-a", NOW + SECOND, NOW + MINUTE));
    benchmark.controller_endpoint_id = "controller-b".into();
    assert!(!benchmark.is_valid_for("controller-a", NOW + SECOND, NOW + MINUTE));
}

#[test]
fn shard_set_requires_independent_restart_tolerant_jobs() {
    let mut shard = job(10, 20, 30, "rampage.eval-shard.v1", "score", "shard-1");
    shard.arguments = vec![("values".into(), "1,2,3".into())];
    let mut set = ShardSetV1 {
        schema: ShardSetV1::SCHEMA.into(),
        set_id: 40,
        project_id: 20,
        submitted_by: 30,
        shards: vec![shard],
        minimum_successes: 1,
        deadline: NOW + 5 * MINUTE,
        idempotency_key: "set-1".into(),
    };
    assert_eq!(set.validate_at(NOW), Ok(()));
    set.shards[0].restart_tolerant = false;
    assert_eq!(set.validate_at(NOW), Err(ContractError::UnsafeShardLifecycle));
}

#[test]
fn shard_set_rejects_duplicate_job_identity() {
    let shard = job(10, 20, 30, "rampage.hash.v1", "hash", "duplicate");
    let set = ShardSetV1 {
        schema: ShardSetV1::SCHEMA.into(),
        set_id: 40,
        project_id: 20,
        submitted_by: 30,
        shards: vec![shard.clone(), shard],
        minimum_successes: 1,
        deadline: NOW + 5 * MINUTE,
        idempotency_key: "set-1".into(),
    };
    assert_eq!(set.validate_at(NOW), Err(ContractError::DuplicateShardIdentity));
}

#[test]
fn shard_set_rejects_foreign_shards_and_bad_thresholds() {
    let shard = job(10, 21, 30, "rampage.hash.v1", "hash", "one");
    let mut set = ShardSetV1 {
        schema: ShardSetV1::SCHEMA.into(),
        set_id: 40,
        project_id: 20,
        submitted_by: 30,
        shards: vec![shard],
        minimum_successes: 1,
        deadline: NOW + 5 * MINUTE,
        idempotency_key: "set-1".into(),
    };
    assert_eq!(set.validate_at(NOW), Err(ContractError::ShardOwnershipMismatch));
    set.shards[0].project_id = 20;
    set.minimum_successes = 2;
    assert_eq!(set.validate_at(NOW), Err(ContractError::InvalidSuccessThreshold));
    set.minimum_successes = 1;
    set.shards.clear();
    assert_eq!(set.validate_at(NOW), Err(ContractError::InvalidShardCount));
}

#[test]
fn model_session_keeps_strategy_and_capacity_bounded() {
    let mut request = ModelSessionRequestV1 {
        schema: ModelSessionRequestV1::SCHEMA.into(),
        session_id: 1,
        model_id: "local/large-model".into(),
        estimated_weight_bytes: 40 * 1024 * 1024 * 1024,
        kv_cache_bytes: 4 * 1024 * 1024 * 1024,
        context_tokens: 32_768,
        strategy: ComputeStrategy::MaximumModelSize,
        max_nodes: 8,
        deadline: NOW + 10 * MINUTE,
        idempotency_key: "model-session-1".into(),
    };
    assert_eq!(request.validate_at(NOW), Ok(()));
    assert_eq!(request.required_bytes(), 44 * 1024 * 1024 * 1024);
    request.max_nodes = MAX_MODEL_SESSION_NODES + 1;
    assert_eq!(request.validate_at(NOW), Err(ContractError::InvalidModelNodeCount));
}

#[test]
fn distributed_runtime_requires_exact_runtime_and_campaign_digests() {
    let mut runtime = ModelRuntimeOfferV1 {
        schema: ModelRuntimeOfferV1::SCHEMA.into(),
        adapter: "rampage.exo-mlx.v1".into(),
        backend: ModelBackend::ExoMlx,
        runtime_version: "pinned".into(),
        runtime_digest: digest('a'),
        compatibility_key: "mlx-arm64-v1".into(),
        memory_kind: ModelMemoryKind::Unified,
        available_model_bytes: 64 * 1024 * 1024 * 1024,
        supported_parallelism: vec![ModelParallelism::Pipeline, ModelParallelism::Tensor],
        status: ModelRuntimeStatus::Qualified,
        installed_models: vec![],
        certification_digest: Some(digest('b')),
    };
    assert!(runtime.is_qualified_for_distributed());
    runtime.status = ModelRuntimeStatus::Candidate;
    assert!(!runtime.is_qualified_for_distributed());
}

fn model_lease(node_id: u128) -> ModelSessionLeaseV1 {
    ModelSessionLeaseV1 {
        schema: ModelSessionLeaseV1::SCHEMA.into(),
        lease_id: 1,
        session_id: 2,
        node_id,
        controller_endpoint_id: "controller-endpoint".into(),
        model_id: "gemma3:4b".into(),
        model_digest: digest('a'),
        backend: ModelBackend::LocalOllama,
        runtime_digest: "shipped-local:1.0".into(),
        parallelism: ModelParallelism::WholeModel,
        max_prompt_bytes: 1024,
        max_output_tokens: 512,
        issued_at: NOW,
        expires_at: NOW + MINUTE,
        nonce: "one-shot".into(),
        fencing_epoch: 7,
        signature: "signed".into(),
    }
}

#[test]
fn model_invocation_is_bounded_and_scoped_to_one_worker() {
    let node_id = 77;
    let lease = model_lease(node_id);
    assert!(lease.is_active_at(NOW, 7));
    let mut request = ModelInvocationRequestV1 {
        schema: ModelInvocationRequestV1::SCHEMA.into(),
        request_id: 3,
        lease,
        messages: vec![ModelChatMessageV1 { role: "user".into(), content: "hello".into() }],
        max_output_tokens: 128,
        stream: true,
        temperature: Some(0.5f32.to_bits()),
        top_p: Some(0.9f32.to_bits()),
    };
    assert!(request.is_valid_for(node_id, "controller-endpoint"));
    assert!(!request.is_valid_for(78, "controller-endpoint"));
    request.max_output_tokens = 513;
    assert!(!request.is_valid_for(node_id, "controller-endpoint"));
}

#[test]
fn model_invocation_prompt_bytes_count_roles_and_content() {
    let request = ModelInvocationRequestV1 {
        schema: ModelInvocationRequestV1::SCHEMA.into(),
        request_id: 3,
        lease: model_lease(77),
        messages: vec![
            ModelChatMessageV1 { role: "user".into(), content: "hello".into() },
            ModelChatMessageV1 { role: "assistant".into(), content: "hi".into() },
        ],
        max_output_tokens: 128,
        stream: false,
        temperature: None,
        top_p: None,
    };
    assert_eq!(request.prompt_bytes(), 4 + 5 + 9 + 2);
}

fn render_capability() -> WorkloadCapabilityV1 {
    WorkloadCapabilityV1 {
        schema: WorkloadCapabilityV1::SCHEMA.into(),
        adapter: "rampage.render.v1".into(),
        domain: WorkloadDomain::CreativeProduction,
        operations: vec!["render_frame".into()],
        execution_patterns: vec![ExecutionPattern::IndependentShard],
        resource_classes: vec![ResourceClass::CpuCompute, ResourceClass::GpuCompute],
        isolation: WorkloadIsolation::DedicatedProcess,
        runtime_digest: "shipped-renderer:test".into(),
        checkpointable: true,
        preemptible: true,
        network_allowlist_required: false,
        status: WorkloadCapabilityStatus::Shipped,
        qualification_digest: None,
    }
}

#[test]
fn workload_capability_authority_is_operation_exact_and_candidate_safe() {
    let mut capability = render_capability();
    assert!(capability.authorizes("rampage.render.v1", "render_frame"));
    assert!(!capability.authorizes("rampage.render.v1", "encode_video"));
    capability.status = WorkloadCapabilityStatus::Candidate;
    assert!(!capability.authorizes("rampage.render.v1", "render_frame"));
}

#[test]
fn qualified_workload_capability_needs_a_qualification_digest() {
    let mut capability = render_capability();
    capability.status = WorkloadCapabilityStatus::Qualified;
    assert!(!capability.is_valid());
    capability.qualification_digest = Some(digest('c'));
    assert!(capability.is_valid());
    assert!(capability.authorizes("rampage.render.v1", "render_frame"));
}

const REQUIRED_GATES: [&str; 8] = [
    "g0_schema_policy_static",
    "g1_deterministic_replay",
    "g2_quality_reliability_cost",
    "g3_sealed_holdout",
    "g4_adversarial_security",
    "g5_independent_replication",
    "g6_shadow",
    "g7_canary_rollback",
];

fn promotion_candidate() -> PromotionCandidateV1 {
    PromotionCandidateV1 {
        schema: PromotionCandidateV1::SCHEMA.into(),
        proposal_id: 1,
        project_id: 2,
        base_revision: "abc123".into(),
        candidate_digest: digest('a'),
        changed_paths: vec!["routing/cache.toml".into()],
        risk: PromotionRiskV1::R0Configuration,
        gates: REQUIRED_GATES
            .iter()
            .enumerate()
            .map(|(index, name)| PromotionEvidenceGateV1 {
                name: (*name).into(),
                passed: true,
                evidence_digest: format!("sha256:{index:064x}"),
                independent: *name == "g5_independent_replication",
            })
            .collect(),
        requested_at: NOW,
        expires_at: NOW + 10 * MINUTE,
    }
}

#[test]
fn promotion_candidate_requires_every_independent_content_addressed_gate() {
    let mut candidate = promotion_candidate();
    assert!(candidate.is_valid_at(NOW));
    candidate.gates[5].independent = false;
    assert!(!candidate.is_valid_at(NOW));
    candidate.gates[5].independent = true;
    let first = candidate.gates[0].clone();
    candidate.gates.push(first);
    assert!(!candidate.is_valid_at(NOW));
    candidate.gates.pop();
    candidate.changed_paths = vec!["../policy.rs".into()];
    assert!(!candidate.is_valid_at(NOW));
    candidate.changed_paths = vec!["C:\\policy.rs".into()];
    assert!(!candidate.is_valid_at(NOW));
}

#[test]
fn relay_access_manifest_is_short_lived_bounded_and_endpoint_exact() {
    let mut manifest = RelayAccessManifestV1 {
        schema: RelayAccessManifestV1::SCHEMA.into(),
        fabric_id: digest('a'),
        generation: 1,
        allowed_endpoint_ids: vec!["b".repeat(64)],
        issued_at: NOW,
        expires_at: NOW + 10 * MINUTE,
        signature: "signed".into(),
    };
    assert!(manifest.is_valid_at(NOW));
    manifest.allowed_endpoint_ids.push("not-an-endpoint".into());
    assert!(!manifest.is_valid_at(NOW));
    manifest.allowed_endpoint_ids.pop();
    manifest.expires_at = NOW + 16 * MINUTE;
    assert!(!manifest.is_valid_at(NOW));
}

#[test]
fn artifact_v2_frames_are_chunk_bounded_and_operation_exact() {
    let lease = StorageLeaseV1 {
        schema: StorageLeaseV1::SCHEMA.into(),
        lease_id: 1,
        node_id: 2,
        digest: digest('a'),
        operation: ArtifactTransferOperation::Put,
        storage_class: StorageClass::Protected,
        size_bytes: u64::from(ARTIFACT_TRANSFER_CHUNK_BYTES) + 17,
        issued_at: NOW,
        expires_at: NOW + 2 * MINUTE,
        nonce: "one-shot".into(),
        fencing_epoch: 9,
        signature: "signed".into(),
    };
    let mut request = ArtifactTransferRequestV2 {
        schema: ArtifactTransferRequestV2::SCHEMA.into(),
        request_id: 3,
        session_id: 4,
        lease,
        media_type: "application/octet-stream".into(),
        action: ArtifactTransferActionV2::PutChunk,
        chunk_size: ARTIFACT_TRANSFER_CHUNK_BYTES,
        chunk_index: Some(1),
        chunk_digest: Some(digest('b')),
        payload_size: 17,
        challenge_nonce: "challenge".into(),
    };
    assert!(request.is_valid());
    request.payload_size = 18;
    assert!(!request.is_valid());
    request.payload_size = 17;
    request.action = ArtifactTransferActionV2::GetChunk;
    request.chunk_digest = None;
    assert!(!request.is_valid());
    request.lease.operation = ArtifactTransferOperation::Get;
    request.payload_size = 0;
    assert!(request.is_valid());
}

#[test]
fn chunk_sizes_follow_the_declared_layout() {
    assert_eq!(expected_artifact_chunk_size(10, 4, 0), Some(4));
    assert_eq!(expected_artifact_chunk_size(10, 4, 2), Some(2));
    assert_eq!(expected_artifact_chunk_size(10, 4, 3), None);
    assert_eq!(expected_artifact_chunk_size(0, 4, 0), None);
    assert_eq!(expected_artifact_chunk_size(10, 0, 0), None);
}

#[test]
fn chunk_sizes_add_up_to_the_artifact() {
    for (size, chunk) in [(1u64, 1u32), (10, 4), (12, 4), (3_111, 1_024), (5, 7)] {
        let count = (size + chunk as u64 - 1) / chunk as u64;
        let mut total = 0u64;
        for index in 0..count as u32 {
            total += expected_artifact_chunk_size(size, chunk, index).unwrap();
        }
        assert_eq!(total, size);
        assert_eq!(expected_artifact_chunk_size(size, chunk, count as u32), None);
    }
}
