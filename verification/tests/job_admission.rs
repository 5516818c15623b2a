use rampage::admission::{
    check_shard_authority, decide_job_submission, issue_shard_leases, jobs_equal, replay_shard_set, shard_keys_conflict,
    shard_sets_equal, staging_refusal_message, JobSubmission, ShardSetReplay,
};
use rampage::controller::{plan_shard_set, AdmissionPolicy};
use rampage::policy::{Denial, Governor, GovernorConfig};
use rampage::protocol::{
    AvailabilityV1, CapabilityLeaseV1, JobSpecV1, ResourceClass, ResourceOfferV1, ResourceQuantityV1, ResourceRequestV1,
    ShardSetV1, WorkloadTrust,
};
use rampage::service::Assignment;

const NOW: i128 = 1_700_000_000_000_000_000;
const MINUTE: i128 = 60_000_000_000;

fn job(job_id: u128, minimum: u64, key: &str) -> JobSpecV1 {
    JobSpecV1 {
        schema: JobSpecV1::SCHEMA.into(),
        job_id,
        project_id: 1,
        submitted_by: 2,
        adapter: "rampage.echo.v1".into(),
        operation: "echo".into(),
        arguments: vec![("mode".into(), "fast".into())],
        inputs: vec![],
        requests: vec![ResourceRequestV1 {
            class: ResourceClass::CpuCompute,
            minimum,
            preferred: minimum,
            unit: "logical_core".into(),
            required_labels: vec![],
        }],
        trust: WorkloadTrust::NativeTrusted,
        restart_tolerant: true,
        network_allowlist: vec![],
        deadline: NOW + 5 * MINUTE,
        idempotency_key: key.into(),
    }
}

fn cpu_offer(node_id: u128, available: u64) -> ResourceOfferV1 {
    ResourceOfferV1 {
        schema: "rampage.resource-offer.v1".into(),
        offer_id: node_id + 1_000,
        node_id,
        observed_at: NOW,
        expires_at: NOW + MINUTE,
        resources: vec![ResourceQuantityV1 {
            class: ResourceClass::CpuCompute,
            capacity: available,
            available,
            unit: "logical_core".into(),
            labels: vec![],
        }],
        availability: AvailabilityV1 {
            on_ac_power: true,
            battery_percent: None,
            thermal_headroom_percent: 80,
            foreground_allowed: true,
            owner_idle: true,
        },
        adapters: vec!["rampage.echo.v1".into()],
        workload_capabilities: Vec::new(),
        model_runtimes: Vec::new(),
        link_benchmark: None,
        mesh_endpoint: None,
        signature: "signed".into(),
    }
}

fn no_reserve() -> AdmissionPolicy {
    AdmissionPolicy { protected_owner_reserve: vec![], safety_guardband_percent: 0 }
}

fn lease_for(job_id: u128) -> CapabilityLeaseV1 {
    CapabilityLeaseV1 {
        schema: CapabilityLeaseV1::SCHEMA.into(),
        lease_id: 900,
        job_id,
        node_id: 11,
        project_id: 1,
        adapter: "rampage.echo.v1".into(),
        operation: "echo".into(),
        input_digests: vec![],
        granted: vec![],
        network_allowlist: vec![],
        issued_at: NOW,
        expires_at: NOW + MINUTE,
        nonce: "nonce".into(),
        fencing_epoch: 0,
        signature: "signed".into(),
    }
}

fn submit(job: &JobSpecV1, kill: bool, keys: &Vec<(String, u128)>, assignments: &Vec<Assignment>, offers: &Vec<ResourceOfferV1>) -> JobSubmission {
    let governor = Governor::ephemeral(GovernorConfig::default());
    decide_job_submission(kill, job, keys, assignments, offers, &vec![], &no_reserve(), &vec![], &governor, 0, NOW, 77, "nonce".into())
}

#[test]
fn a_job_is_leased_on_its_best_offer() {
    let offers = vec![cpu_offer(11, 4), cpu_offer(12, 12)];
    match submit(&job(10, 2, "k"), false, &vec![], &vec![], &offers) {
        JobSubmission::Leased(index, score, lease) => {
            assert_eq!(index, 1);
            assert_eq!(score.node_id, 12);
            assert_eq!((lease.lease_id, lease.job_id, lease.node_id), (77, 10, 12));
        },
        other => panic!("unexpected {other:?}"),
    }
}

#[test]
fn job_submissions_are_refused_with_their_status() {
    let offers = vec![cpu_offer(11, 4)];
    assert!(matches!(submit(&job(10, 2, "k"), true, &vec![], &vec![], &offers),
        JobSubmission::Refused(423, m) if m == "owner kill latch is active"));
    let mut invalid = job(10, 2, "k");
    invalid.idempotency_key = String::new();
    assert!(matches!(submit(&invalid, false, &vec![], &vec![], &offers), JobSubmission::Refused(400, m) if m == "idempotency key is empty"));
    assert!(matches!(submit(&job(10, 8, "k"), false, &vec![], &vec![], &offers),
        JobSubmission::Refused(409, m) if m == "no admissible offer"));
    let mut foreign = job(10, 2, "k");
    foreign.adapter = "unknown.adapter".into();
    let mut offer = cpu_offer(11, 4);
    offer.adapters = vec!["unknown.adapter".into()];
    assert!(matches!(submit(&foreign, false, &vec![], &vec![], &vec![offer]), JobSubmission::Refused(403, _)));
}

#[test]
fn idempotent_resubmission_replays_and_other_data_conflicts() {
    let offers = vec![cpu_offer(11, 4)];
    let existing = job(10, 2, "k");
    let assignments = vec![Assignment { job: existing.clone(), lease: lease_for(10), claimed: false }];
    let keys = vec![("k".to_string(), 10)];
    assert!(matches!(submit(&existing, false, &keys, &assignments, &offers), JobSubmission::Replayed(0)));
    let mut changed = existing.clone();
    changed.arguments = vec![("mode".into(), "slow".into())];
    assert!(!jobs_equal(&changed, &existing));
    assert!(matches!(submit(&changed, false, &keys, &assignments, &offers),
        JobSubmission::Refused(409, m) if m == "job idempotency key is already bound to other data"));
    assert!(matches!(submit(&changed, false, &keys, &vec![], &offers), JobSubmission::Leased(0, _, _)));
}

fn shard_set(key: &str) -> ShardSetV1 {
    ShardSetV1 {
        schema: ShardSetV1::SCHEMA.into(),
        set_id: 40,
        project_id: 1,
        submitted_by: 2,
        shards: vec![job(41, 1, "s1"), job(42, 1, "s2")],
        minimum_successes: 1,
        deadline: NOW + 5 * MINUTE,
        idempotency_key: key.into(),
    }
}

#[test]
fn shard_sets_replay_by_idempotency_key() {
    let set = shard_set("set");
    let other = shard_set("other");
    let mut changed = shard_set("set");
    changed.minimum_successes = 2;
    assert!(shard_sets_equal(&set, &shard_set("set")));
    let admitted = vec![(other.clone(), vec![]), (set.clone(), vec![lease_for(41)])];
    assert!(matches!(replay_shard_set(&set, &admitted), ShardSetReplay::Replay(1)));
    assert!(matches!(replay_shard_set(&changed, &admitted), ShardSetReplay::Conflict));
    assert!(matches!(replay_shard_set(&set, &vec![(other, vec![])]), ShardSetReplay::Fresh));
    assert!(shard_keys_conflict(&set, &vec![("s2".to_string(), 99)]));
    assert!(!shard_keys_conflict(&set, &vec![("s2".to_string(), 42), ("x".to_string(), 7)]));
}

#[test]
fn planned_shards_are_authorized_then_leased_in_order() {
    let governor = Governor::ephemeral(GovernorConfig::default());
    let set = shard_set("set");
    let offers = vec![cpu_offer(51, 4)];
    let placements = plan_shard_set(&set, &offers, &vec![], &no_reserve(), NOW, &vec![]).unwrap();
    assert_eq!(check_shard_authority(&governor, &set, &placements, &offers, NOW), Ok(()));
    assert_eq!(check_shard_authority(&governor, &set, &placements, &vec![cpu_offer(52, 4)], NOW), Err((41, None)));
    let leases = issue_shard_leases(&governor, &set, &placements, &offers, 3, NOW, &vec![61, 62], &vec!["a".into(), "b".into()])
        .unwrap();
    assert_eq!(leases.len(), 2);
    assert_eq!((leases[0].lease_id, leases[0].job_id, leases[0].nonce.as_str()), (61, 41, "a"));
    assert_eq!((leases[1].lease_id, leases[1].fencing_epoch), (62, 3));
    let mut stopped = GovernorConfig::default();
    stopped.killed = true;
    let halted = Governor::ephemeral(stopped);
    assert_eq!(check_shard_authority(&halted, &set, &placements, &offers, NOW), Err((41, Some(Denial::KillLatch))));
    assert_eq!(
        staging_refusal_message(&Denial::KillLatch),
        "authority changed during staging: owner kill latch is active"
    );
}
