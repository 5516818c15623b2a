use rampage::catalog::{authorize_model_invocation, catalog_candidates, prompt_byte_count, select_model_candidate, CatalogCandidate};
use rampage::gateway::OpenAiChatMessage;
use rampage::invocation::{read_model_frame, FrameOutcome, ModelStream};
use rampage::policy::{sign_model_receipt, Governor, GovernorConfig};
use rampage::progress::shard_set_status;
use rampage::protocol::{
    ArtifactRefV1, ArtifactReplicaReceiptV1, AvailabilityV1, CapabilityLeaseV1, DeviceKind, ExecutionReceiptV1, InstalledModelV1, JobSpecV1,
    JobState, MeshEndpointRecordV1, ModelBackend, ModelExecutionReceiptV1, ModelInvocationFrameKind,
    ModelInvocationFrameV1, ModelMemoryKind, ModelParallelism, ModelRuntimeOfferV1, ModelRuntimeStatus,
    ModelSessionLeaseV1, NodeIdentityV1, ResourceClass, ResourceOfferV1, ResourceQuantityV1, ShardSetV1,
    StorageClass, WorkloadTrust,
};
use rampage::repair::{
    continue_repairs, group_by_digest, is_replica_verified, protected_replicas, repair_targets, repair_wanted,
    stale_replicas, verification_complete, verified_nodes, MAX_AUTONOMOUS_REPAIRS_PER_CYCLE,
};
use rampage::restore::{replay_events, RestoreEvent};
use rampage::service::Assignment;
use rampage::storage::sha256_digest;

const NOW: i128 = 1_700_000_000_000_000_000;
const MINUTE: i128 = 60_000_000_000;
const GIB: u64 = 1024 * 1024 * 1024;

fn model_offer(node_id: u128, room: u64, digest_char: &str) -> ResourceOfferV1 {
    ResourceOfferV1 {
        schema: "rampage.resource-offer.v1".into(),
        offer_id: node_id + 100,
        node_id,
        observed_at: NOW,
        expires_at: NOW + MINUTE,
        resources: vec![ResourceQuantityV1 {
            class: ResourceClass::RamWorkingSet,
            capacity: 8 * GIB,
            available: 8 * GIB,
            unit: "byte".into(),
            labels: vec![],
        }],
        availability: AvailabilityV1 {
            on_ac_power: true,
            battery_percent: None,
            thermal_headroom_percent: 80,
            foreground_allowed: true,
            owner_idle: true,
        },
        adapters: vec!["rampage.ollama.v1".into()],
        workload_capabilities: Vec::new(),
        model_runtimes: vec![ModelRuntimeOfferV1 {
            schema: ModelRuntimeOfferV1::SCHEMA.into(),
            adapter: "rampage.ollama.v1".into(),
            backend: ModelBackend::LocalOllama,
            runtime_version: "test".into(),
            runtime_digest: "shipped-local:test".into(),
            compatibility_key: "ollama-test".into(),
            memory_kind: ModelMemoryKind::Host,
            available_model_bytes: room,
            supported_parallelism: vec![ModelParallelism::WholeModel],
            status: ModelRuntimeStatus::ShippedLocal,
            installed_models: vec![InstalledModelV1 {
                schema: InstalledModelV1::SCHEMA.into(),
                model_id: "gemma3:4b".into(),
                artifact_digest: format!("sha256:{}", digest_char.repeat(64)),
                artifact_size_bytes: GIB,
            }],
            certification_digest: None,
        }],
        link_benchmark: None,
        mesh_endpoint: Some(MeshEndpointRecordV1 {
            schema: MeshEndpointRecordV1::SCHEMA.into(),
            endpoint_id: format!("worker-{node_id}"),
            direct_addresses: vec!["127.0.0.1:1".into()],
            relay_urls: vec![],
            issued_at: NOW,
            expires_at: NOW + MINUTE,
            signature: "signed".into(),
        }),
        signature: "signed".into(),
    }
}

#[test]
fn catalog_lists_consistently_installed_models_on_eligible_contributors() {
    let mut hot = model_offer(3, 4 * GIB, "d");
    hot.availability.thermal_headroom_percent = 10;
    let offers = vec![model_offer(1, 2 * GIB, "d"), hot, model_offer(2, 4 * GIB, "d")];
    let candidates = catalog_candidates(&offers, "gemma3:4b", NOW, &vec![]);
    assert_eq!(
        candidates,
        vec![CatalogCandidate { offer: 0, runtime: 0, model: 0 }, CatalogCandidate { offer: 2, runtime: 0, model: 0 }]
    );
    assert_eq!(catalog_candidates(&offers, "gemma3:4b", NOW, &vec![2]).len(), 1);
    assert!(catalog_candidates(&offers, "llama", NOW, &vec![]).is_empty());
    assert!(catalog_candidates(&offers, "gemma3:4b", NOW + MINUTE, &vec![]).is_empty());
    let split = vec![model_offer(1, 2 * GIB, "d"), model_offer(2, 4 * GIB, "e")];
    assert!(catalog_candidates(&split, "gemma3:4b", NOW, &vec![]).is_empty());
    let mut small = model_offer(1, GIB, "d");
    small.model_runtimes[0].available_model_bytes = GIB + GIB / 10;
    assert!(catalog_candidates(&vec![small], "gemma3:4b", NOW, &vec![]).is_empty());
}

#[test]
fn model_requests_go_to_the_roomiest_candidate() {
    let offers = vec![model_offer(1, 4 * GIB, "d"), model_offer(2, 2 * GIB, "d"), model_offer(3, 4 * GIB, "d")];
    let candidates = catalog_candidates(&offers, "gemma3:4b", NOW, &vec![]);
    assert_eq!(select_model_candidate(&offers, &candidates), 2);
    let messages = vec![
        OpenAiChatMessage { role: "user".into(), content: "hello".into() },
        OpenAiChatMessage { role: "assistant".into(), content: "hé".into() },
    ];
    assert_eq!(prompt_byte_count(&messages), 4 + 5 + 9 + 3);
    assert_eq!(prompt_byte_count(&vec![]), 0);
}

#[test]
fn model_invocations_are_authorized_on_the_chosen_contributor() {
    let governor = Governor::ephemeral(GovernorConfig::default());
    let offers = vec![model_offer(1, 2 * GIB, "d"), model_offer(2, 4 * GIB, "d")];
    let messages = vec![OpenAiChatMessage { role: "user".into(), content: "hello".into() }];
    let stopped = authorize_model_invocation(true, &governor, &offers, &vec![], "gemma3:4b", &messages, 64, "controller", 0, NOW, 1, 2, "n".into());
    let failure = stopped.unwrap_err();
    assert_eq!((failure.status, failure.code), (423, "owner_stop_active"));
    let missing = authorize_model_invocation(false, &governor, &offers, &vec![], "llama", &messages, 64, "controller", 0, NOW, 1, 2, "n".into());
    assert_eq!(missing.unwrap_err().code, "model_not_found");
    match authorize_model_invocation(false, &governor, &offers, &vec![], "gemma3:4b", &messages, 64, "controller", 4, NOW, 1, 2, "n".into()) {
        Ok((candidate, lease)) => {
            assert_eq!(candidate.offer, 1);
            assert_eq!(lease.node_id, 2);
            assert_eq!(lease.max_prompt_bytes, 9);
            assert_eq!(lease.fencing_epoch, 4);
            assert_eq!(lease.model_id, "gemma3:4b");
        },
        Err(failure) => {
            assert_eq!(failure.status, 403);
            assert_eq!(failure.code, "model_authority_denied");
        },
    }
}

fn session_lease() -> ModelSessionLeaseV1 {
    ModelSessionLeaseV1 {
        schema: ModelSessionLeaseV1::SCHEMA.into(),
        lease_id: 11,
        session_id: 12,
        node_id: 13,
        controller_endpoint_id: "controller".into(),
        model_id: "gemma3:4b".into(),
        model_digest: format!("sha256:{}", "d".repeat(64)),
        backend: ModelBackend::LocalOllama,
        runtime_digest: "shipped-local:test".into(),
        parallelism: ModelParallelism::WholeModel,
        max_prompt_bytes: 100,
        max_output_tokens: 10,
        issued_at: NOW,
        expires_at: NOW + MINUTE,
        nonce: "nonce".into(),
        fencing_epoch: 0,
        signature: "signed".into(),
    }
}

fn frame(sequence: u64, kind: ModelInvocationFrameKind, content: &str) -> ModelInvocationFrameV1 {
    ModelInvocationFrameV1 {
        schema: ModelInvocationFrameV1::SCHEMA.into(),
        request_id: 14,
        sequence,
        kind,
        content: content.into(),
        finish_reason: None,
        error: None,
        receipt: None,
    }
}

fn worker_identity(key: &[u8; 32]) -> NodeIdentityV1 {
    NodeIdentityV1 {
        schema: NodeIdentityV1::SCHEMA.into(),
        node_id: 13,
        owner_id: 3,
        display_name: "worker".into(),
        device_kind: DeviceKind::Desktop,
        platform: "linux".into(),
        public_key: hex::encode(ed25519_dalek::SigningKey::from_bytes(key).verifying_key().to_bytes()),
        enrolled_at: NOW,
        fencing_epoch: 0,
    }
}

fn signed_receipt(key: &[u8; 32], output: &str, state: JobState) -> ModelExecutionReceiptV1 {
    let mut receipt = ModelExecutionReceiptV1 {
        schema: ModelExecutionReceiptV1::SCHEMA.into(),
        receipt_id: 15,
        lease_id: 11,
        session_id: 12,
        request_id: 14,
        node_id: 13,
        state,
        started_at: NOW,
        finished_at: NOW + 1,
        output_digest: sha256_digest(output.as_bytes()),
        output_bytes: output.len() as u64,
        usage: None,
        error: None,
        signature: String::new(),
    };
    sign_model_receipt(key, &mut receipt, b"receipt-json");
    receipt
}

#[test]
fn deltas_stream_in_sequence_and_a_receipted_end_completes() {
    let key = [9u8; 32];
    let identity = worker_identity(&key);
    let lease = session_lease();
    let mut stream = ModelStream { expected_sequence: 0, output: String::new() };
    match read_model_frame(&mut stream, frame(0, ModelInvocationFrameKind::Delta, "hel"), Some(&identity), &lease, 14, b"") {
        FrameOutcome::Forward(text) => assert_eq!(text, "hel"),
        other => panic!("unexpected {other:?}"),
    }
    match read_model_frame(&mut stream, frame(1, ModelInvocationFrameKind::Delta, "lo"), Some(&identity), &lease, 14, b"") {
        FrameOutcome::Forward(text) => assert_eq!(text, "lo"),
        other => panic!("unexpected {other:?}"),
    }
    assert_eq!(stream.output, "hello");
    assert_eq!(stream.expected_sequence, 2);
    let mut end = frame(2, ModelInvocationFrameKind::Complete, "");
    end.receipt = Some(signed_receipt(&key, "hello", JobState::Succeeded));
    match read_model_frame(&mut stream, end, Some(&identity), &lease, 14, b"receipt-json") {
        FrameOutcome::Receipted(receipt, Ok(reason)) => {
            assert_eq!(receipt.receipt_id, 15);
            assert_eq!(reason, "stop");
        },
        other => panic!("unexpected {other:?}"),
    }
}

fn failure_message(outcome: FrameOutcome) -> (u16, &'static str, String) {
    match outcome {
        FrameOutcome::Failed(f) => (f.status, f.code, f.message),
        other => panic!("unexpected {other:?}"),
    }
}

#[test]
fn broken_streams_fail_with_their_reason() {
    let key = [9u8; 32];
    let identity = worker_identity(&key);
    let lease = session_lease();
    let mut stream = ModelStream { expected_sequence: 0, output: String::new() };
    assert_eq!(
        failure_message(read_model_frame(&mut stream, frame(1, ModelInvocationFrameKind::Delta, "x"), Some(&identity), &lease, 14, b"")).2,
        "model frame sequence is not contiguous"
    );
    let mut terminal_delta = frame(0, ModelInvocationFrameKind::Delta, "x");
    terminal_delta.finish_reason = Some("stop".into());
    assert_eq!(
        failure_message(read_model_frame(&mut stream, terminal_delta, Some(&identity), &lease, 14, b"")).2,
        "model delta contains terminal fields"
    );
    let mut refused = frame(0, ModelInvocationFrameKind::Error, "");
    refused.error = Some("busy".into());
    assert_eq!(
        failure_message(read_model_frame(&mut stream, refused, Some(&identity), &lease, 14, b"")),
        (502, "worker_rejected_session", "busy".to_string())
    );
    assert_eq!(
        failure_message(read_model_frame(&mut stream, frame(0, ModelInvocationFrameKind::Complete, "text"), Some(&identity), &lease, 14, b"")).2,
        "terminal model frame contains output text"
    );
    assert_eq!(
        failure_message(read_model_frame(&mut stream, frame(0, ModelInvocationFrameKind::Complete, ""), Some(&identity), &lease, 14, b"")).2,
        "terminal model frame omitted its signed receipt"
    );
    let mut mismatched = frame(0, ModelInvocationFrameKind::Complete, "");
    mismatched.receipt = Some(signed_receipt(&key, "other output", JobState::Succeeded));
    assert_eq!(
        failure_message(read_model_frame(&mut stream, mismatched, Some(&identity), &lease, 14, b"receipt-json")).2,
        "model receipt does not match the invocation transcript"
    );
    let mut disagreeing = frame(0, ModelInvocationFrameKind::Complete, "");
    disagreeing.receipt = Some(signed_receipt(&key, "", JobState::Failed));
    assert_eq!(
        failure_message(read_model_frame(&mut stream, disagreeing, Some(&identity), &lease, 14, b"receipt-json")).2,
        "terminal frame and signed receipt disagree on execution state"
    );
    let mut unsigned = frame(0, ModelInvocationFrameKind::Complete, "");
    unsigned.receipt = Some(signed_receipt(&key, "", JobState::Succeeded));
    assert_eq!(
        failure_message(read_model_frame(&mut stream, unsigned, None, &lease, 14, b"receipt-json")).2,
        "model receipt signer is not enrolled"
    );
    let mut failed = frame(0, ModelInvocationFrameKind::Error, "");
    failed.receipt = Some(signed_receipt(&key, "", JobState::Failed));
    match read_model_frame(&mut stream, failed, Some(&identity), &lease, 14, b"receipt-json") {
        FrameOutcome::Receipted(_, Err(f)) => assert_eq!((f.code, f.message.as_str()), ("model_execution_failed", "model execution failed")),
        other => panic!("unexpected {other:?}"),
    }
    assert_eq!(stream.expected_sequence, 0);
    assert!(stream.output.is_empty());
}

fn shard(job_id: u128) -> JobSpecV1 {
    JobSpecV1 {
        schema: JobSpecV1::SCHEMA.into(),
        job_id,
        project_id: 1,
        submitted_by: 2,
        adapter: "rampage.echo.v1".into(),
        operation: "echo".into(),
        arguments: vec![],
        inputs: vec![],
        requests: vec![],
        trust: WorkloadTrust::NativeTrusted,
        restart_tolerant: true,
        network_allowlist: vec![],
        deadline: NOW + 5 * MINUTE,
        idempotency_key: format!("key-{job_id}"),
    }
}

fn capability_lease(job_id: u128, node_id: u128, expires_at: i128) -> CapabilityLeaseV1 {
    CapabilityLeaseV1 {
        schema: CapabilityLeaseV1::SCHEMA.into(),
        lease_id: job_id + 1000,
        job_id,
        node_id,
        project_id: 1,
        adapter: "rampage.echo.v1".into(),
        operation: "echo".into(),
        input_digests: vec![],
        granted: vec![],
        network_allowlist: vec![],
        issued_at: NOW,
        expires_at,
        nonce: "nonce".into(),
        fencing_epoch: 0,
        signature: "signed".into(),
    }
}

fn receipt(job_id: u128, receipt_id: u128, state: JobState) -> ExecutionReceiptV1 {
    ExecutionReceiptV1 {
        schema: "rampage.execution-receipt.v1".into(),
        receipt_id,
        lease_id: job_id + 1000,
        job_id,
        node_id: 7,
        state,
        started_at: NOW,
        finished_at: NOW + 1,
        outputs: vec![],
        metrics: vec![],
        stdout_digest: None,
        stderr_digest: None,
        result: Some(format!("result-{receipt_id}")),
        signature: "signed".into(),
    }
}

fn shard_set(minimum_successes: u32) -> ShardSetV1 {
    ShardSetV1 {
        schema: ShardSetV1::SCHEMA.into(),
        set_id: 500,
        project_id: 1,
        submitted_by: 2,
        shards: vec![shard(1), shard(2), shard(3), shard(4)],
        minimum_successes,
        deadline: NOW + 5 * MINUTE,
        idempotency_key: "set".into(),
    }
}

#[test]
fn shard_set_progress_counts_latest_receipts() {
    let set = shard_set(2);
    let leases = vec![capability_lease(1, 7, NOW + MINUTE), capability_lease(2, 8, NOW + MINUTE), capability_lease(2, 9, NOW + MINUTE)];
    let receipts = vec![receipt(1, 31, JobState::Failed), receipt(1, 32, JobState::Succeeded), receipt(2, 33, JobState::Failed)];
    let assignments = vec![Assignment { job: shard(3), lease: capability_lease(3, 7, NOW + MINUTE), claimed: true }];
    let status = shard_set_status(&set, &leases, &receipts, &assignments);
    assert_eq!((status.total, status.succeeded, status.failed, status.terminal), (4, 1, 1, 2));
    assert_eq!(status.status, "running");
    assert!(!status.threshold_met);
    assert!(status.threshold_still_possible);
    assert_eq!(status.members[0].status, "succeeded");
    assert_eq!(status.members[0].receipt_id, Some(32));
    assert_eq!(status.members[0].result.as_deref(), Some("result-32"));
    assert_eq!(status.members[1].node_id, Some(9));
    assert_eq!(status.members[2].status, "running");
    assert_eq!(status.members[3].status, "ambiguous");
    assert_eq!(status.members[3].node_id, None);
}

#[test]
fn shard_sets_finish_by_their_threshold() {
    let leases = vec![];
    let all = vec![
        receipt(1, 31, JobState::Succeeded),
        receipt(2, 32, JobState::Succeeded),
        receipt(3, 33, JobState::Failed),
        receipt(4, 34, JobState::Failed),
    ];
    let met = shard_set_status(&shard_set(2), &leases, &all, &vec![]);
    assert_eq!((met.status, met.threshold_met), ("succeeded", true));
    let missed = shard_set_status(&shard_set(3), &leases, &all, &vec![]);
    assert_eq!((missed.status, missed.threshold_still_possible), ("failed", false));
}

fn artifact(digest: &str) -> ArtifactRefV1 {
    ArtifactRefV1 {
        schema: ArtifactRefV1::SCHEMA.into(),
        digest: digest.into(),
        size_bytes: 10,
        media_type: "application/octet-stream".into(),
        storage_class: StorageClass::Protected,
        encrypted: true,
    }
}

#[test]
fn replay_rebuilds_live_state_from_the_ledger() {
    let identity = worker_identity(&[9u8; 32]);
    let events = vec![
        RestoreEvent::NodeEnrolled(identity),
        RestoreEvent::InviteCreated { invite_id: 70, secret_hash: "h".into(), expires_at: NOW + MINUTE },
        RestoreEvent::InviteCreated { invite_id: 71, secret_hash: "h".into(), expires_at: NOW + MINUTE },
        RestoreEvent::InviteConsumed(70),
        RestoreEvent::InviteCreated { invite_id: 72, secret_hash: "h".into(), expires_at: NOW - 1 },
        RestoreEvent::JobProposed(shard(1)),
        RestoreEvent::LeaseIssued(capability_lease(1, 13, NOW + MINUTE)),
        RestoreEvent::JobProposed(shard(2)),
        RestoreEvent::LeaseIssued(capability_lease(2, 13, NOW - 1)),
        RestoreEvent::JobClaimed(1),
        RestoreEvent::ShardSetAdmitted(shard_set(1), vec![capability_lease(3, 13, NOW + MINUTE), capability_lease(9, 13, NOW + MINUTE)]),
        RestoreEvent::JobProposed(shard(4)),
        RestoreEvent::LeaseIssued(capability_lease(4, 13, NOW + MINUTE)),
        RestoreEvent::JobReceipted { job_id: 4, receipt: Some((40, 4)) },
        RestoreEvent::ArtifactRecorded { node_id: 13, artifact: artifact("sha256:aa"), replica_receipt: None },
        RestoreEvent::ReplicaInvalidated { node_id: 13, digest: "sha256:aa".into() },
        RestoreEvent::Other,
    ];
    let plan = replay_events(&events, NOW, 0);
    assert_eq!(plan.nodes, vec![(13, 0)]);
    assert_eq!(plan.invites, vec![(71, 2)]);
    assert_eq!(plan.assignments.len(), 2);
    let (job1, first) = plan.assignments[0];
    assert_eq!((job1, first.job_event, first.lease_event, first.claimed), (1, 5, 6, true));
    let (job3, shard_assignment) = plan.assignments[1];
    assert_eq!((job3, shard_assignment.job_shard, shard_assignment.lease_index), (3, Some(2), Some(0)));
    assert_eq!(plan.completed_receipts, vec![(40, 4)]);
    assert_eq!(plan.shard_sets, vec![(500, 10)]);
    assert_eq!(plan.artifact_replicas, vec![(("sha256:aa".to_string(), 13), 14)]);
    assert!(plan.replica_evidence.is_empty());
    let stale = replay_events(&events, NOW, 1);
    assert!(stale.assignments.is_empty());
}

fn replica_receipt(digest: &str, node_id: u128, expires_at: i128) -> ArtifactReplicaReceiptV1 {
    ArtifactReplicaReceiptV1 {
        schema: ArtifactReplicaReceiptV1::SCHEMA.into(),
        receipt_id: 1,
        session_id: 2,
        lease_id: 3,
        node_id,
        digest: digest.into(),
        size_bytes: 10,
        storage_class: StorageClass::Protected,
        challenge_nonce: "challenge".into(),
        verified_at: NOW - 1,
        expires_at,
        fencing_epoch: 0,
        signature: "signed".into(),
    }
}

fn recorded(digest: &str, node_id: u128, class: StorageClass) -> ((String, u128), ArtifactRefV1) {
    let mut a = artifact(digest);
    a.storage_class = class;
    ((digest.to_string(), node_id), a)
}

#[test]
fn protected_replicas_are_ordered_grouped_and_checked_for_fresh_evidence() {
    let aa = format!("sha256:{}", "a".repeat(64));
    let bb = format!("sha256:{}", "b".repeat(64));
    let replicas = vec![
        recorded(&bb, 2, StorageClass::Protected),
        recorded(&aa, 3, StorageClass::Cache),
        recorded(&aa, 5, StorageClass::Protected),
        recorded(&aa, 1, StorageClass::Protected),
    ];
    let protected = protected_replicas(&replicas);
    let keys: Vec<(String, u128, usize)> = protected.iter().map(|p| (p.digest.clone(), p.node_id, p.replica)).collect();
    assert_eq!(keys, vec![(aa.clone(), 1, 3), (aa.clone(), 5, 2), (bb.clone(), 2, 0)]);
    let evidence = vec![
        ((aa.clone(), 1), replica_receipt(&aa, 1, NOW + MINUTE)),
        ((bb.clone(), 2), replica_receipt(&bb, 2, NOW)),
    ];
    assert!(is_replica_verified(&evidence, &aa, 1, NOW));
    assert!(!is_replica_verified(&evidence, &bb, 2, NOW));
    let stale: Vec<u128> = stale_replicas(&protected, &evidence, NOW).iter().map(|p| p.node_id).collect();
    assert_eq!(stale, vec![5, 2]);
    let groups = group_by_digest(&protected);
    assert_eq!(groups.len(), 2);
    assert_eq!((groups[0].digest.as_str(), groups[0].source, groups[0].nodes.clone()), (aa.as_str(), 3, vec![1, 5]));
    assert_eq!(groups[1].nodes, vec![2]);
    assert!(!verification_complete(&groups[0], &evidence, &vec![], NOW));
    assert!(verification_complete(&groups[0], &evidence, &vec![(aa.clone(), 5)], NOW));
    assert_eq!(verified_nodes(&groups[0], &evidence, NOW), vec![1]);
}

#[test]
fn repairs_are_bounded_and_go_to_new_reachable_nodes() {
    assert!(repair_wanted(true, 1, 0));
    assert!(!repair_wanted(false, 0, 0));
    assert!(!repair_wanted(true, 2, 0));
    assert!(!repair_wanted(true, 0, MAX_AUTONOMOUS_REPAIRS_PER_CYCLE));
    assert!(continue_repairs(1, 3));
    assert!(!continue_repairs(2, 0));
    let mut unreachable = model_offer(7, GIB, "d");
    unreachable.mesh_endpoint = None;
    let offers = vec![model_offer(1, GIB, "d"), unreachable, model_offer(8, GIB, "d")];
    assert_eq!(repair_targets(&offers, &vec![1, 5], NOW), vec![2]);
    assert!(repair_targets(&offers, &vec![1, 5], NOW + MINUTE).is_empty());
}
