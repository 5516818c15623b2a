use rampage::controller::{
    choose_offer, choose_offer_with_topology, plan_model_session, plan_shard_set, score_offer_with_admission,
    AdmissionPolicy, ModelPlanState, ResourceReservation,
};
use rampage::protocol::{
    ArtifactRefV1, AvailabilityV1, ComputeStrategy, JobSpecV1, LinkBenchmarkV1, MeshEndpointRecordV1, ModelBackend,
    ModelMemoryKind, ModelParallelism, ModelRuntimeOfferV1, ModelRuntimeStatus, ModelSessionRequestV1, ResourceClass,
    ResourceOfferV1, ResourceQuantityV1, ResourceRequestV1, ShardSetV1, StorageClass, WorkloadTrust,
    LINK_BENCHMARK_TRANSFER_BYTES,
};
use rampage::autopilot::{admit_traffic, network_autopilot_status, NetworkPathKindV1, TrafficClassV1};
use rampage::protocol::ObservedLinkPathV1;
use std::collections::BTreeSet;

const NOW: i128 = 1_700_000_000_000_000_000;
const SECOND: i128 = 1_000_000_000;
const MINUTE: i128 = 60 * SECOND;
const GIB: u64 = 1024 * 1024 * 1024;

fn job(job_id: u128, minimum: u64, preferred: u64, key: &str) -> JobSpecV1 {
    JobSpecV1 {
        schema: JobSpecV1::SCHEMA.into(),
        job_id,
        project_id: 1,
        submitted_by: 2,
        adapter: "rampage.echo.v1".into(),
        operation: "echo".into(),
        arguments: vec![],
        inputs: vec![],
        requests: vec![ResourceRequestV1 {
            class: ResourceClass::CpuCompute,
            minimum,
            preferred,
            unit: "logical_core".into(),
            required_labels: vec![],
        }],
        trust: WorkloadTrust::NativeTrusted,
        restart_tolerant: true,
        network_allowlist: vec![],
        deadline: NOW + 5 * MINUTE,
        idempotency_key: key.into(),
    }
}

fn cpu_offer(node_id: u128, available: u64) -> ResourceOfferV1 {
    ResourceOfferV1 {
        schema: "rampage.resource-offer.v1".into(),
        offer_id: node_id + 1_000,
        node_id,
        observed_at: NOW,
        expires_at: NOW + MINUTE,
        resources: vec![ResourceQuantityV1 {
            class: ResourceClass::CpuCompute,
            capacity: available,
            available,
            unit: "logical_core".into(),
            labels: vec![],
        }],
        availability: AvailabilityV1 {
            on_ac_power: true,
            battery_percent: None,
            thermal_headroom_percent: 80,
            foreground_allowed: true,
            owner_idle: true,
        },
        adapters: vec!["rampage.echo.v1".into()],
        workload_capabilities: Vec::new(),
        model_runtimes: Vec::new(),
        link_benchmark: None,
        mesh_endpoint: None,
        signature: "signed".into(),
    }
}

fn no_reserve() -> AdmissionPolicy {
    AdmissionPolicy { protected_owner_reserve: vec![], safety_guardband_percent: 0 }
}

#[test]
fn chooses_more_headroom_after_hard_constraints() {
    let job = job(10, 2, 4, "placement-test");
    let offers = vec![cpu_offer(11, 4), cpu_offer(12, 12)];
    let (selected, _) = choose_offer(&job, &offers, NOW).unwrap();
    assert_eq!(selected.node_id, offers[1].node_id);
}

#[test]
fn no_offer_is_chosen_when_none_satisfies_the_job() {
    let job = job(10, 8, 8, "placement-test");
    let offers = vec![cpu_offer(11, 4), cpu_offer(12, 6)];
    assert!(choose_offer(&job, &offers, NOW).is_none());
    assert!(choose_offer(&job, &[], NOW).is_none());
}

#[test]
fn pending_reservations_owner_reserve_and_guardband_prevent_overcommit() {
    let job = job(20, 7, 7, "reservation-test");
    let offer = cpu_offer(21, 10);
    let policy = AdmissionPolicy {
        protected_owner_reserve: vec![(ResourceClass::CpuCompute, 1)],
        safety_guardband_percent: 10,
    };
    let reservations = vec![ResourceReservation {
        job_id: 22,
        node_id: offer.node_id,
        class: ResourceClass::CpuCompute,
        amount: 2,
        expires_at: NOW + MINUTE,
    }];
    let score = score_offer_with_admission(&job, &offer, &reservations, &policy, NOW);
    assert!(!score.satisfies); // 10 - 2 pending - 1 owner - 1 guardband = 6.
    let relaxed = job_with_minimum(6);
    let score = score_offer_with_admission(&relaxed, &offer, &reservations, &policy, NOW);
    assert!(score.satisfies);
    let expired = vec![ResourceReservation { expires_at: NOW, ..reservations[0] }];
    let score = score_offer_with_admission(&job, &offer, &expired, &policy, NOW);
    assert!(score.satisfies); // An expired reservation holds nothing: 10 - 1 owner - 1 guardband = 8.
}

fn job_with_minimum(minimum: u64) -> JobSpecV1 {
    job(20, minimum, minimum, "reservation-test")
}

#[test]
fn measured_staging_cost_changes_placement_only_when_it_outweighs_capacity() {
    let mut job = job(30, 1, 4, "staging-test");
    let digest = format!("sha256:{}", "ab".repeat(32));
    job.inputs = vec![ArtifactRefV1 {
        schema: "rampage.artifact-ref.v1".into(),
        digest: digest.clone(),
        size_bytes: 1024 * 1024,
        media_type: "application/octet-stream".into(),
        storage_class: StorageClass::Cache,
        encrypted: true,
    }];
    let local = cpu_offer(31, 4);
    let mut remote = local.clone();
    remote.node_id = 32;
    remote.resources[0].capacity = 12;
    remote.resources[0].available = 12;
    remote.mesh_endpoint = Some(MeshEndpointRecordV1 {
        schema: MeshEndpointRecordV1::SCHEMA.into(),
        endpoint_id: "remote".into(),
        direct_addresses: vec!["127.0.0.1:1".into()],
        relay_urls: vec![],
        issued_at: NOW,
        expires_at: NOW + 2 * MINUTE,
        signature: "signed".into(),
    });
    remote.link_benchmark = Some(LinkBenchmarkV1 {
        schema: LinkBenchmarkV1::SCHEMA.into(),
        controller_endpoint_id: "controller".into(),
        observed_at: NOW,
        expires_at: NOW + 2 * MINUTE,
        rtt_micros_p50: 2_000,
        uplink_bps: 1_000_000_000,
        downlink_bps: 1_000_000_000,
        transfer_bytes: LINK_BENCHMARK_TRANSFER_BYTES,
        samples: 3,
        transport: "authenticated_quic".into(),
        observed_path: None,
    });
    let offers = vec![local.clone(), remote.clone()];
    let locality = vec![(local.node_id, vec![digest.clone()]), (remote.node_id, vec![])];
    let (selected, score) = choose_offer_with_topology(&job, &offers, &vec![], &no_reserve(), NOW, &locality).unwrap();
    assert_eq!(selected.node_id, remote.node_id);
    assert_eq!(score.topology_confidence, "measured");

    job.inputs[0].size_bytes = 64 * 1024 * 1024;
    remote.link_benchmark.as_mut().unwrap().downlink_bps = 20_000_000;
    let offers = vec![local.clone(), remote.clone()];
    let (selected, score) = choose_offer_with_topology(&job, &offers, &vec![], &no_reserve(), NOW, &locality).unwrap();
    assert_eq!(selected.node_id, local.node_id);
    assert_eq!(score.estimated_transfer_millis, 0);
}

fn shard_set(count: u128, minimum_successes: u32) -> ShardSetV1 {
    ShardSetV1 {
        schema: ShardSetV1::SCHEMA.into(),
        set_id: 40,
        project_id: 1,
        submitted_by: 2,
        shards: (0..count)
            .map(|index| {
                let mut shard = job(100 + index, 1, 1, &format!("shard-{index}"));
                shard.arguments = vec![("value".into(), index.to_string())];
                shard
            })
            .collect(),
        minimum_successes,
        deadline: NOW + 5 * MINUTE,
        idempotency_key: "set".into(),
    }
}

#[test]
fn shard_set_planning_uses_one_evolving_reservation_book() {
    let set = shard_set(4, 4);
    let offers = vec![cpu_offer(41, 2), cpu_offer(42, 2)];
    let placements = plan_shard_set(&set, &offers, &vec![], &no_reserve(), NOW, &vec![]).unwrap();
    assert_eq!(placements.len(), 4);
    assert_eq!(placements.iter().map(|placement| placement.node_id).collect::<BTreeSet<_>>().len(), 2);
    for (placement, shard) in placements.iter().zip(set.shards.iter()) {
        assert_eq!(placement.job_id, shard.job_id);
    }
}

#[test]
fn shard_set_planning_fails_without_partial_authority() {
    let set = shard_set(2, 1);
    let failure = plan_shard_set(&set, &[cpu_offer(51, 1)], &vec![], &no_reserve(), NOW, &vec![]).unwrap_err();
    assert_eq!(failure.planned_shards, 1);
    assert_eq!(failure.blocked_job_id, set.shards[1].job_id);
    assert_eq!(failure.reason, "no admissible offer after provisional shard reservations");
}

fn model_request(strategy: ComputeStrategy, weights_gib: u64, kv_gib: u64) -> ModelSessionRequestV1 {
    ModelSessionRequestV1 {
        schema: ModelSessionRequestV1::SCHEMA.into(),
        session_id: 60,
        model_id: "test/large-model".into(),
        estimated_weight_bytes: weights_gib * GIB,
        kv_cache_bytes: kv_gib * GIB,
        context_tokens: 32_768,
        strategy,
        max_nodes: 8,
        deadline: NOW + 10 * MINUTE,
        idempotency_key: "model-session".into(),
    }
}

fn model_offer(node_id: u128, memory_gib: u64, remote: bool, rtt_micros: u64, bandwidth_mbps: u64) -> ResourceOfferV1 {
    let bytes = memory_gib * GIB;
    ResourceOfferV1 {
        schema: "rampage.resource-offer.v1".into(),
        offer_id: node_id + 1_000,
        node_id,
        observed_at: NOW,
        expires_at: NOW + MINUTE,
        resources: vec![ResourceQuantityV1 {
            class: ResourceClass::RamWorkingSet,
            capacity: bytes,
            available: bytes,
            unit: "byte".into(),
            labels: vec![],
        }],
        availability: AvailabilityV1 {
            on_ac_power: true,
            battery_percent: None,
            thermal_headroom_percent: 80,
            foreground_allowed: true,
            owner_idle: true,
        },
        adapters: vec!["rampage.exo-mlx.v1".into()],
        workload_capabilities: Vec::new(),
        model_runtimes: vec![ModelRuntimeOfferV1 {
            schema: ModelRuntimeOfferV1::SCHEMA.into(),
            adapter: "rampage.exo-mlx.v1".into(),
            backend: ModelBackend::ExoMlx,
            runtime_version: "pinned-test".into(),
            runtime_digest: format!("sha256:{}", "a".repeat(64)),
            compatibility_key: "exo-mlx-unified-test".into(),
            memory_kind: ModelMemoryKind::Unified,
            available_model_bytes: bytes,
            supported_parallelism: vec![
                ModelParallelism::WholeModel,
                ModelParallelism::Pipeline,
                ModelParallelism::Tensor,
                ModelParallelism::Replica,
            ],
            status: ModelRuntimeStatus::Qualified,
            installed_models: vec![],
            certification_digest: Some(format!("sha256:{}", "b".repeat(64))),
        }],
        link_benchmark: if remote {
            Some(LinkBenchmarkV1 {
                schema: LinkBenchmarkV1::SCHEMA.into(),
                controller_endpoint_id: "controller".into(),
                observed_at: NOW,
                expires_at: NOW + 2 * MINUTE,
                rtt_micros_p50: rtt_micros,
                uplink_bps: bandwidth_mbps * 1_000_000,
                downlink_bps: bandwidth_mbps * 1_000_000,
                transfer_bytes: LINK_BENCHMARK_TRANSFER_BYTES,
                samples: 3,
                transport: "authenticated_quic".into(),
                observed_path: None,
            })
        } else {
            None
        },
        mesh_endpoint: if remote {
            Some(MeshEndpointRecordV1 {
                schema: MeshEndpointRecordV1::SCHEMA.into(),
                endpoint_id: node_id.to_string(),
                direct_addresses: vec!["127.0.0.1:1".into()],
                relay_urls: vec![],
                issued_at: NOW,
                expires_at: NOW + 2 * MINUTE,
                signature: "signed".into(),
            })
        } else {
            None
        },
        signature: "signed".into(),
    }
}

#[test]
fn maximum_model_plan_combines_only_qualified_compatible_memory() {
    let request = model_request(ComputeStrategy::MaximumModelSize, 40, 4);
    let offers = vec![model_offer(61, 24, false, 500, 10_000), model_offer(62, 24, true, 500, 10_000)];
    let plan = plan_model_session(&request, &offers, NOW);
    assert_eq!(plan.state, ModelPlanState::Ready);
    assert_eq!(plan.backend, Some(ModelBackend::ExoMlx));
    assert_eq!(plan.parallelism, Some(ModelParallelism::Pipeline));
    assert!(plan.distributed);
    assert_eq!(plan.placements.len(), 2);
    assert_eq!(plan.placements.iter().map(|placement| placement.assigned_bytes).sum::<u64>(), request.required_bytes());
    assert_eq!(plan.execution_authority, "none_preview_only");
}

#[test]
fn speed_boost_rejects_slow_distributed_topology() {
    let request = model_request(ComputeStrategy::SpeedBoost, 20, 2);
    let offers = vec![model_offer(71, 32, false, 500, 10_000), model_offer(72, 32, true, 12_000, 300)];
    let plan = plan_model_session(&request, &offers, NOW);
    assert_eq!(plan.state, ModelPlanState::Ready);
    assert_eq!(plan.parallelism, Some(ModelParallelism::WholeModel));
    assert!(!plan.distributed);
    assert_eq!(plan.predicted_speedup_milli, 1_000);
    assert!(plan.warnings.iter().any(|warning| warning.contains("speedup gate")));
}

#[test]
fn candidate_runtime_reports_theoretical_fit_without_authority() {
    let request = model_request(ComputeStrategy::MaximumModelSize, 30, 2);
    let mut offers = vec![model_offer(81, 20, false, 500, 10_000), model_offer(82, 20, true, 500, 10_000)];
    for offer in &mut offers {
        offer.model_runtimes[0].status = ModelRuntimeStatus::Candidate;
        offer.model_runtimes[0].certification_digest = None;
    }
    let plan = plan_model_session(&request, &offers, NOW);
    assert_eq!(plan.state, ModelPlanState::QualificationRequired);
    assert!(plan.blockers.iter().any(|blocker| blocker.contains("qualification digest")));
    assert_eq!(plan.execution_authority, "none_preview_only");
}

#[test]
fn model_plan_without_runtimes_is_capacity_blocked() {
    let request = model_request(ComputeStrategy::MaximumModelSize, 30, 2);
    let mut offer = model_offer(91, 20, false, 500, 10_000);
    offer.model_runtimes.clear();
    let plan = plan_model_session(&request, &[offer], NOW);
    assert_eq!(plan.state, ModelPlanState::CapacityBlocked);
    assert!(plan.placements.is_empty());
    assert_eq!(plan.execution_authority, "none_preview_only");
}

#[test]
fn efficiency_picks_the_smallest_node_that_holds_the_model() {
    let request = model_request(ComputeStrategy::Efficiency, 10, 2);
    let offers = vec![model_offer(101, 32, false, 500, 10_000), model_offer(102, 16, false, 500, 10_000), model_offer(103, 8, false, 500, 10_000)];
    let plan = plan_model_session(&request, &offers, NOW);
    assert_eq!(plan.parallelism, Some(ModelParallelism::WholeModel));
    assert_eq!(plan.placements.len(), 1);
    assert_eq!(plan.placements[0].node_id, 102);
    assert_eq!(plan.state, ModelPlanState::Ready);
}

#[test]
fn throughput_replicates_over_every_holder() {
    let request = model_request(ComputeStrategy::MaximumThroughput, 10, 2);
    let offers = vec![model_offer(111, 32, false, 500, 10_000), model_offer(112, 16, true, 500, 10_000), model_offer(113, 8, true, 500, 10_000)];
    let plan = plan_model_session(&request, &offers, NOW);
    assert_eq!(plan.parallelism, Some(ModelParallelism::Replica));
    assert_eq!(plan.predicted_speedup_milli, 2_000);
    let nodes: Vec<u128> = plan.placements.iter().map(|p| p.node_id).collect();
    assert_eq!(nodes, vec![111, 112]);
    assert!(plan.placements.iter().all(|p| p.assigned_bytes == request.required_bytes()));
}

#[test]
fn autonomous_balance_takes_the_largest_single_holder() {
    let request = model_request(ComputeStrategy::AutonomousBalanced, 10, 2);
    let offers = vec![model_offer(121, 16, false, 500, 10_000), model_offer(122, 32, true, 500, 10_000)];
    let plan = plan_model_session(&request, &offers, NOW);
    assert_eq!(plan.parallelism, Some(ModelParallelism::WholeModel));
    assert!(!plan.distributed);
    assert_eq!(plan.placements.len(), 1);
    assert_eq!(plan.placements[0].node_id, 122);
}

#[test]
fn groups_are_cut_to_the_largest_nodes() {
    let mut request = model_request(ComputeStrategy::MaximumModelSize, 40, 4);
    request.max_nodes = 1;
    let offers = vec![model_offer(131, 16, false, 500, 10_000), model_offer(132, 32, true, 500, 10_000)];
    let plan = plan_model_session(&request, &offers, NOW);
    assert_eq!(plan.parallelism, Some(ModelParallelism::WholeModel));
    assert_eq!(plan.placements.len(), 1);
    assert_eq!(plan.placements[0].node_id, 132);
    assert_eq!(plan.state, ModelPlanState::CapacityBlocked);
}

#[test]
fn speed_boost_goes_tensor_over_a_fast_link() {
    let request = model_request(ComputeStrategy::SpeedBoost, 20, 2);
    let offers = vec![model_offer(141, 32, false, 500, 10_000), model_offer(142, 32, true, 500, 10_000)];
    let plan = plan_model_session(&request, &offers, NOW);
    assert_eq!(plan.parallelism, Some(ModelParallelism::Tensor));
    assert!(plan.distributed);
    assert!(plan.predicted_speedup_milli > 1_100);
    assert_eq!(plan.placements.len(), 2);
}

#[test]
fn network_autopilot_admits_each_traffic_class_from_fresh_thresholds() {
    let local = model_offer(151, 16, false, 0, 0);
    let mut remote = model_offer(152, 16, true, 20_000, 100);
    remote.link_benchmark.as_mut().unwrap().observed_path = Some(ObservedLinkPathV1::Direct);
    let status = network_autopilot_status(&vec![local, remote.clone()], NOW);
    assert_eq!(status.nodes.len(), 2);
    let local = status.nodes.iter().find(|node| node.preferred_path == NetworkPathKindV1::ControllerLocal).unwrap();
    assert!(local.traffic.iter().all(|traffic| traffic.admitted));
    let measured = status.nodes.iter().find(|node| node.node_id == remote.node_id).unwrap();
    assert_eq!(measured.preferred_path, NetworkPathKindV1::DirectMeasured);
    assert!(measured.traffic.iter().all(|traffic| traffic.admitted));
}

#[test]
fn network_autopilot_keeps_control_but_fences_unmeasured_performance() {
    let mut remote = model_offer(161, 16, true, 20_000, 100);
    remote.link_benchmark = None;
    remote.mesh_endpoint.as_mut().unwrap().relay_urls = vec!["https://relay.example.test".into()];
    let status = network_autopilot_status(&vec![remote], NOW);
    let node = &status.nodes[0];
    assert_eq!(node.preferred_path, NetworkPathKindV1::OwnerRelayBootstrap);
    assert!(node.traffic[0].admitted);
    assert!(node.traffic[1..].iter().all(|traffic| !traffic.admitted));
}

#[test]
fn network_autopilot_orders_live_nodes_and_reports_link_figures() {
    let mut expired = model_offer(171, 16, true, 20_000, 100);
    expired.expires_at = NOW;
    let later = model_offer(175, 16, true, 20_000, 100);
    let earlier = model_offer(172, 16, true, 1_500, 300);
    let status = network_autopilot_status(&vec![expired, later, earlier], NOW);
    assert_eq!(status.generated_at, NOW);
    assert_eq!(status.mode, "automatic_evidence_gated");
    let ids: Vec<u128> = status.nodes.iter().map(|n| n.node_id).collect();
    assert_eq!(ids, vec![172, 175]);
    let first = &status.nodes[0];
    assert_eq!(first.preferred_path, NetworkPathKindV1::DirectCandidate);
    assert_eq!(first.rtt_micros_p50, Some(1_500));
    assert_eq!(first.uplink_kbps, Some(300_000));
    assert_eq!(first.direct_candidates, 1);
    let classes: Vec<TrafficClassV1> = first.traffic.iter().map(|t| t.traffic_class).collect();
    assert_eq!(
        classes,
        vec![
            TrafficClassV1::AuthorityControl,
            TrafficClassV1::InteractiveAi,
            TrafficClassV1::RemoteMedia,
            TrafficClassV1::Artifact,
            TrafficClassV1::BulkBackground
        ]
    );
}

#[test]
fn traffic_admission_follows_each_class_threshold() {
    let mut remote = model_offer(181, 16, true, 60_000, 8);
    let link = remote.link_benchmark.take().unwrap();
    let path = NetworkPathKindV1::DirectCandidate;
    assert!(admit_traffic(TrafficClassV1::AuthorityControl, path, None, true).admitted);
    assert!(!admit_traffic(TrafficClassV1::AuthorityControl, path, None, false).admitted);
    assert!(!admit_traffic(TrafficClassV1::Artifact, path, None, true).admitted);
    assert!(!admit_traffic(TrafficClassV1::InteractiveAi, path, Some(&link), true).admitted);
    assert!(!admit_traffic(TrafficClassV1::RemoteMedia, path, Some(&link), true).admitted);
    assert!(admit_traffic(TrafficClassV1::Artifact, path, Some(&link), true).admitted);
    assert!(!admit_traffic(TrafficClassV1::BulkBackground, path, Some(&link), true).admitted);
    assert!(admit_traffic(TrafficClassV1::BulkBackground, NetworkPathKindV1::ControllerLocal, None, false).admitted);
    let admission = admit_traffic(TrafficClassV1::InteractiveAi, path, Some(&link), true);
    assert_eq!(admission.traffic_class, TrafficClassV1::InteractiveAi);
    assert!(admission.reason.contains("75 ms"));
}
