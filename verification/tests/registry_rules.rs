use rampage::controller::ResourceReservation;
use rampage::policy::{sign_enrollment, Governor, GovernorConfig};
use rampage::protocol::{
    CapabilityLeaseV1, DeviceKind, EnrollmentRequestV1, JobSpecV1, NodeIdentityV1, PromotionCandidateV1,
    PromotionEvidenceGateV1, PromotionRiskV1, ResourceClass, ResourceRequestV1, WorkloadTrust,
};
use rampage::registry::{
    admit_enrollment, authorize_mesh_control, book_job_reservations, claim_next_assignment, decide_promotion_canary,
    hash_secret, issue_invite, release_job_reservations, replay_promotion_canary, require_mesh_node,
    reservations_of_assignments, retain_live_reservations, CanaryReplay, InviteRecord, MeshBody, PriorPromotionEvent,
    INVITE_TTL_NANOS,
};
use rampage::service::Assignment;

const NOW: i128 = 1_700_000_000_000_000_000;
const MINUTE: i128 = 60_000_000_000;
const PEER: &str = "peer-transport-key";
const NODE: u128 = 0x67e5_5044_10b1_426f_9247_bb68_0e5f_e0c8;

fn registry() -> Vec<(u128, String)> {
    vec![(NODE, PEER.to_string()), (9, "other-key".to_string())]
}

#[test]
fn mesh_health_is_open_and_unknown_routes_are_closed() {
    let nodes = registry();
    assert_eq!(authorize_mesh_control("GET", "/health", &MeshBody::Missing, PEER, &nodes), Ok(()));
    assert_eq!(
        authorize_mesh_control("POST", "/v1/jobs", &MeshBody::Missing, PEER, &nodes),
        Err("route is not exposed to remote workers".to_string())
    );
    assert_eq!(
        authorize_mesh_control("POST", "/health", &MeshBody::Missing, PEER, &nodes),
        Err("route is not exposed to remote workers".to_string())
    );
}

#[test]
fn mesh_paths_must_be_canonical() {
    let nodes = registry();
    for path in ["/v1/../health", "/health%20", "/health#x"] {
        assert_eq!(
            authorize_mesh_control("GET", path, &MeshBody::Missing, PEER, &nodes),
            Err("mesh path is not canonical".to_string())
        );
    }
}

#[test]
fn mesh_enrollment_must_enroll_the_transport_identity() {
    let nodes = registry();
    let own = MeshBody::Enrollment { public_key: PEER.to_string() };
    let other = MeshBody::Enrollment { public_key: "someone-else".to_string() };
    assert_eq!(authorize_mesh_control("POST", "/v1/nodes/enroll", &own, PEER, &nodes), Ok(()));
    assert_eq!(
        authorize_mesh_control("POST", "/v1/nodes/enroll", &other, PEER, &nodes),
        Err("transport identity and enrollment identity differ".to_string())
    );
    assert_eq!(
        authorize_mesh_control("POST", "/v1/nodes/enroll", &MeshBody::Missing, PEER, &nodes),
        Err("enrollment body is missing".to_string())
    );
    assert_eq!(
        authorize_mesh_control("POST", "/v1/nodes/enroll", &MeshBody::Invalid, PEER, &nodes),
        Err("enrollment body is invalid".to_string())
    );
}

#[test]
fn mesh_offers_receipts_and_probes_require_the_enrolled_node() {
    let nodes = registry();
    let offer = MeshBody::Offer { node_id: NODE, has_mesh_endpoint: true };
    assert_eq!(authorize_mesh_control("POST", "/v1/offers", &offer, PEER, &nodes), Ok(()));
    let unsigned = MeshBody::Offer { node_id: NODE, has_mesh_endpoint: false };
    assert_eq!(
        authorize_mesh_control("POST", "/v1/offers", &unsigned, PEER, &nodes),
        Err("remote worker offer requires a signed mesh endpoint".to_string())
    );
    let foreign = MeshBody::Offer { node_id: 9, has_mesh_endpoint: true };
    assert_eq!(
        authorize_mesh_control("POST", "/v1/offers", &foreign, PEER, &nodes),
        Err("remote worker is not enrolled for this node id".to_string())
    );
    assert_eq!(
        authorize_mesh_control("POST", "/v1/receipts", &MeshBody::Receipt { node_id: NODE }, PEER, &nodes),
        Ok(())
    );
    assert_eq!(
        authorize_mesh_control("POST", "/v1/receipts", &MeshBody::Missing, PEER, &nodes),
        Err("receipt body is missing".to_string())
    );
    assert_eq!(
        authorize_mesh_control("POST", "/v1/benchmarks/link", &MeshBody::LinkProbe { node_id: 42 }, PEER, &nodes),
        Err("remote worker is not enrolled for this node id".to_string())
    );
    assert_eq!(
        authorize_mesh_control("POST", "/v1/benchmarks/link", &offer, PEER, &nodes),
        Err("link probe body is invalid".to_string())
    );
}

#[test]
fn mesh_claims_parse_the_node_id_from_the_query() {
    let nodes = registry();
    let path = format!("/v1/work/claim?node_id={}", uuid::Uuid::from_u128(NODE));
    assert_eq!(authorize_mesh_control("GET", &path, &MeshBody::Missing, PEER, &nodes), Ok(()));
    assert_eq!(
        authorize_mesh_control("GET", "/v1/work/claim?node_id=not-a-uuid", &MeshBody::Missing, PEER, &nodes),
        Err("claim node id is invalid".to_string())
    );
    assert_eq!(require_mesh_node(&nodes, "other-key", NODE), Err("remote worker is not enrolled for this node id".to_string()));
}

fn enrollment_request(signing_key: &[u8; 32], invite_id: u128, secret: &str) -> EnrollmentRequestV1 {
    let public_key = hex::encode(ed25519_dalek::SigningKey::from_bytes(signing_key).verifying_key().to_bytes());
    let mut request = EnrollmentRequestV1 {
        schema: "rampage.enrollment-request.v1".into(),
        invite_id,
        enrollment_code: secret.into(),
        identity: NodeIdentityV1 {
            schema: NodeIdentityV1::SCHEMA.into(),
            node_id: NODE,
            owner_id: 3,
            display_name: "phone".into(),
            device_kind: DeviceKind::Phone,
            platform: "android".into(),
            public_key,
            enrolled_at: NOW,
            fencing_epoch: 0,
        },
        signature: String::new(),
    };
    sign_enrollment(signing_key, &mut request, b"enrollment-request");
    request
}

#[test]
fn issued_invite_carries_its_code_and_only_the_secret_hash() {
    let secret = "0123456789abcdef0123456789abcdef";
    let (record, code) = issue_invite(NODE, secret, NOW);
    assert_eq!(code, format!("{}.{}", uuid::Uuid::from_u128(NODE), secret));
    assert_eq!(record.expires_at, NOW + INVITE_TTL_NANOS);
    assert_eq!(record.secret_hash, hash_secret(secret));
    assert_eq!(hash_secret("abc"), "ba7816bf8f01cfea414140de5dae2223b00361a396177a9cb410ff61f20015ad");
}

#[test]
fn an_invite_admits_one_enrollment() {
    let key = [5u8; 32];
    let secret = "0123456789abcdef0123456789abcdef";
    let (record, _) = issue_invite(77, secret, NOW);
    let mut invites = vec![(76, InviteRecord { secret_hash: "x".into(), expires_at: NOW + MINUTE }), (77, record)];
    let request = enrollment_request(&key, 77, secret);
    assert_eq!(admit_enrollment(&request, b"enrollment-request", &mut invites, NOW + MINUTE), Ok(()));
    assert_eq!(invites.len(), 1);
    assert_eq!(invites[0].0, 76);
    assert_eq!(
        admit_enrollment(&request, b"enrollment-request", &mut invites, NOW + MINUTE),
        Err((401, "unknown or already consumed invite".to_string()))
    );
}

#[test]
fn enrollment_refusals_have_their_status_and_reason() {
    let key = [5u8; 32];
    let secret = "0123456789abcdef0123456789abcdef";
    let (record, _) = issue_invite(77, secret, NOW);
    let mut invites = vec![(77, record.clone())];
    let mut request = enrollment_request(&key, 77, secret);
    request.schema = "rampage.enrollment-request.v0".into();
    assert_eq!(
        admit_enrollment(&request, b"enrollment-request", &mut invites, NOW),
        Err((400, "unsupported enrollment schema".to_string()))
    );
    let request = enrollment_request(&key, 77, secret);
    assert_eq!(
        admit_enrollment(&request, b"tampered", &mut invites, NOW),
        Err((401, "lease signature is invalid".to_string()))
    );
    assert_eq!(invites.len(), 1);
    let wrong = enrollment_request(&key, 77, "ffffffffffffffffffffffffffffffff");
    assert_eq!(
        admit_enrollment(&wrong, b"enrollment-request", &mut invites, NOW),
        Err((401, "expired or invalid enrollment code".to_string()))
    );
    assert!(invites.is_empty());
    let mut invites = vec![(77, record)];
    assert_eq!(
        admit_enrollment(&request, b"enrollment-request", &mut invites, NOW + INVITE_TTL_NANOS),
        Err((401, "expired or invalid enrollment code".to_string()))
    );
    assert!(invites.is_empty());
}

fn job(job_id: u128, minimums: &[u64]) -> JobSpecV1 {
    JobSpecV1 {
        schema: JobSpecV1::SCHEMA.into(),
        job_id,
        project_id: 1,
        submitted_by: 2,
        adapter: "rampage.echo.v1".into(),
        operation: "echo".into(),
        arguments: vec![],
        inputs: vec![],
        requests: minimums
            .iter()
            .map(|minimum| ResourceRequestV1 {
                class: ResourceClass::CpuCompute,
                minimum: *minimum,
                preferred: *minimum,
                unit: "logical_core".into(),
                required_labels: vec![],
            })
            .collect(),
        trust: WorkloadTrust::NativeTrusted,
        restart_tolerant: true,
        network_allowlist: vec![],
        deadline: NOW + 5 * MINUTE,
        idempotency_key: format!("key-{job_id}"),
    }
}

fn lease(job_id: u128, node_id: u128, issued_at: i128) -> CapabilityLeaseV1 {
    CapabilityLeaseV1 {
        schema: CapabilityLeaseV1::SCHEMA.into(),
        lease_id: job_id + 1000,
        job_id,
        node_id,
        project_id: 1,
        adapter: "rampage.echo.v1".into(),
        operation: "echo".into(),
        input_digests: vec![],
        granted: vec![],
        network_allowlist: vec![],
        issued_at,
        expires_at: NOW + MINUTE,
        nonce: "nonce".into(),
        fencing_epoch: 0,
        signature: "signed".into(),
    }
}

fn assignment(job_id: u128, node_id: u128, issued_at: i128, claimed: bool) -> Assignment {
    Assignment { job: job(job_id, &[1]), lease: lease(job_id, node_id, issued_at), claimed }
}

#[test]
fn the_earliest_open_assignment_of_the_node_is_claimed_once() {
    let mut assignments = vec![
        assignment(1, 7, NOW - 3, false),
        assignment(2, 8, NOW - 9, false),
        assignment(3, 7, NOW - 5, false),
        assignment(4, 7, NOW - 7, true),
    ];
    assert_eq!(claim_next_assignment(&mut assignments, 7, NOW, 0), Some(2));
    assert!(assignments[2].claimed);
    assert_eq!(claim_next_assignment(&mut assignments, 7, NOW, 0), Some(0));
    assert_eq!(claim_next_assignment(&mut assignments, 7, NOW, 0), None);
    assert_eq!(claim_next_assignment(&mut assignments, 8, NOW, 1), None);
    assert_eq!(claim_next_assignment(&mut assignments, 8, NOW + MINUTE, 0), None);
    assert_eq!(claim_next_assignment(&mut assignments, 8, NOW, 0), Some(1));
}

#[test]
fn reservations_are_booked_for_each_request_and_released_with_their_job() {
    let stale = ResourceReservation { job_id: 50, node_id: 7, class: ResourceClass::CpuCompute, amount: 2, expires_at: NOW };
    let live = ResourceReservation { job_id: 51, node_id: 7, class: ResourceClass::CpuCompute, amount: 3, expires_at: NOW + 1 };
    let mut book = vec![stale, live];
    book_job_reservations(&mut book, &job(52, &[4, 6]), 8, NOW + MINUTE, NOW);
    assert_eq!(book.len(), 3);
    assert_eq!(book[0], live);
    assert_eq!(book[1], ResourceReservation { job_id: 52, node_id: 8, class: ResourceClass::CpuCompute, amount: 4, expires_at: NOW + MINUTE });
    assert_eq!(book[2].amount, 6);
    release_job_reservations(&mut book, 52);
    assert_eq!(book, vec![live]);
    retain_live_reservations(&mut book, NOW + 1);
    assert!(book.is_empty());
}

#[test]
fn reservations_are_rebuilt_from_outstanding_assignments() {
    let assignments = vec![assignment(1, 7, NOW, false), Assignment { job: job(2, &[2, 3]), lease: lease(2, 8, NOW), claimed: true }];
    let book = reservations_of_assignments(&assignments);
    assert_eq!(book.len(), 3);
    assert_eq!(book[0].job_id, 1);
    assert_eq!(book[1], ResourceReservation { job_id: 2, node_id: 8, class: ResourceClass::CpuCompute, amount: 2, expires_at: NOW + MINUTE });
    assert_eq!(book[2].amount, 3);
}

const GATES: [&str; 8] = [
    "g0_schema_policy_static",
    "g1_deterministic_replay",
    "g2_quality_reliability_cost",
    "g3_sealed_holdout",
    "g4_adversarial_security",
    "g5_independent_replication",
    "g6_shadow",
    "g7_canary_rollback",
];

fn candidate() -> PromotionCandidateV1 {
    PromotionCandidateV1 {
        schema: PromotionCandidateV1::SCHEMA.into(),
        proposal_id: 21,
        project_id: 22,
        base_revision: "abc123".into(),
        candidate_digest: format!("sha256:{}", "b".repeat(64)),
        changed_paths: vec!["routing/placement.toml".into()],
        risk: PromotionRiskV1::R0Configuration,
        gates: GATES
            .iter()
            .enumerate()
            .map(|(index, name)| PromotionEvidenceGateV1 {
                name: (*name).into(),
                passed: true,
                evidence_digest: format!("sha256:{:064x}", index + 1),
                independent: *name == "g5_independent_replication",
            })
            .collect(),
        requested_at: NOW,
        expires_at: NOW + 10 * MINUTE,
    }
}

#[test]
fn canary_requests_are_answered_from_the_proposal_history() {
    let governor = Governor::ephemeral(GovernorConfig::default());
    let candidate = candidate();
    let fresh = decide_promotion_canary(false, vec![], &governor, &candidate, 3, NOW, 31, "n".into()).unwrap();
    assert_eq!(fresh.0, 201);
    assert_eq!(fresh.1.canary_id, 31);
    assert_eq!(fresh.1.fencing_epoch, 3);
    let mut issued = fresh.1.clone();
    issued.signature = "signed".into();
    let history = vec![PriorPromotionEvent::Proposed(candidate.clone()), PriorPromotionEvent::CanaryIssued(issued)];
    let replayed = decide_promotion_canary(false, history, &governor, &candidate, 3, NOW + 1, 32, "m".into()).unwrap();
    assert_eq!(replayed.0, 200);
    assert_eq!(replayed.1.canary_id, 31);
    assert!(matches!(decide_promotion_canary(true, vec![], &governor, &candidate, 3, NOW, 33, "k".into()),
        Err((423, message)) if message == "owner kill latch is active"));
}

#[test]
fn canary_history_conflicts_are_refused() {
    let governor = Governor::ephemeral(GovernorConfig::default());
    let candidate = candidate();
    let mut other = candidate.clone();
    other.changed_paths = vec!["routing/other.toml".into()];
    match replay_promotion_canary(vec![PriorPromotionEvent::Proposed(other)], &candidate, NOW, 0) {
        CanaryReplay::Conflict(message) => assert_eq!(message, "proposal id is already bound to another candidate"),
        outcome => panic!("unexpected {outcome:?}"),
    }
    let mut lease = decide_promotion_canary(false, vec![], &governor, &candidate, 0, NOW, 31, "n".into()).unwrap().1;
    lease.project_id = 99;
    let refused = decide_promotion_canary(false, vec![PriorPromotionEvent::CanaryIssued(lease)], &governor, &candidate, 0, NOW, 32, "m".into());
    assert!(matches!(refused, Err((409, message)) if message == "proposal id is already bound to another canary"));
    let mut lapsed = decide_promotion_canary(false, vec![], &governor, &candidate, 0, NOW, 31, "n".into()).unwrap().1;
    lapsed.signature = "signed".into();
    assert!(matches!(replay_promotion_canary(vec![PriorPromotionEvent::CanaryIssued(lapsed), PriorPromotionEvent::Other], &candidate, NOW, 1), CanaryReplay::Fresh));
    let mut understated = candidate.clone();
    understated.changed_paths = vec!["crates/rampage-policy/src/lib.rs".into()];
    assert!(matches!(decide_promotion_canary(false, vec![], &governor, &understated, 0, NOW, 34, "p".into()), Err((400, _))));
}
