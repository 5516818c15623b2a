//! Admitting a submitted job: refusal while the owner STOP holds or for an invalid contract, an
//! idempotent replay of the same job, a conflict for other data under a used key, and otherwise the
//! best admissible placement under a Governor lease.

use crate::controller::{
    best_offer_with_topology, inputs_total, is_choice, locals_of, topology_score_spec, AdmissionPolicy, PlacementScore,
    ResourceReservation,
};
use crate::policy::{denial_text, Governor};
use crate::controller::ShardPlacement;
use crate::policy::Denial;
use crate::protocol::{ArtifactRefV1, CapabilityLeaseV1, JobSpecV1, ResourceOfferV1, ResourceRequestV1, ShardSetV1};
use crate::service::Assignment;
use crate::text::{text_eq, texts_equal, texts_view};
use vstd::prelude::*;

verus! {

/// Two lists of text pairs hold the same pairs in the same order.
pub open spec fn same_pairs(a: Seq<(String, String)>, b: Seq<(String, String)>) -> bool {
    a.len() == b.len() && forall|i: int| 0 <= i < a.len() ==> (#[trigger] a[i]).0@ == b[i].0@ && a[i].1@ == b[i].1@
}

/// Two artifact references carry the same contract.
pub open spec fn same_artifact(a: ArtifactRefV1, b: ArtifactRefV1) -> bool {
    &&& a.schema@ == b.schema@
    &&& a.digest@ == b.digest@
    &&& a.size_bytes == b.size_bytes
    &&& a.media_type@ == b.media_type@
    &&& a.storage_class == b.storage_class
    &&& a.encrypted == b.encrypted
}

/// Two resource requests ask for the same thing.
pub open spec fn same_request(a: ResourceRequestV1, b: ResourceRequestV1) -> bool {
    &&& a.class == b.class
    &&& a.minimum == b.minimum
    &&& a.preferred == b.preferred
    &&& a.unit@ == b.unit@
    &&& same_pairs(a.required_labels@, b.required_labels@)
}

/// Two jobs are the same data: every field, and every element of every list in order, agrees.
pub open spec fn same_job(a: JobSpecV1, b: JobSpecV1) -> bool {
    &&& a.schema@ == b.schema@
    &&& a.job_id == b.job_id
    &&& a.project_id == b.project_id
    &&& a.submitted_by == b.submitted_by
    &&& a.adapter@ == b.adapter@
    &&& a.operation@ == b.operation@
    &&& same_pairs(a.arguments@, b.arguments@)
    &&& a.inputs@.len() == b.inputs@.len()
    &&& (forall|i: int| 0 <= i < a.inputs@.len() ==> same_artifact(#[trigger] a.inputs@[i], b.inputs@[i]))
    &&& a.requests@.len() == b.requests@.len()
    &&& (forall|i: int| 0 <= i < a.requests@.len() ==> same_request(#[trigger] a.requests@[i], b.requests@[i]))
    &&& a.trust == b.trust
    &&& a.restart_tolerant == b.restart_tolerant
    &&& texts_view(a.network_allowlist@) == texts_view(b.network_allowlist@)
    &&& a.deadline == b.deadline
    &&& a.idempotency_key@ == b.idempotency_key@
}

fn pairs_equal(a: &Vec<(String, String)>, b: &Vec<(String, String)>) -> (r: bool)
    ensures
        r == same_pairs(a@, b@),
{
    if a.len() != b.len() {
        return false;
    }
    let mut i: usize = 0;
    while i < a.len()
        invariant
            a@.len() == b@.len(),
            i <= a@.len(),
            forall|j: int| 0 <= j < i ==> (#[trigger] a@[j]).0@ == b@[j].0@ && a@[j].1@ == b@[j].1@,
        decreases a@.len() - i,
    {
        if !text_eq(a[i].0.as_str(), b[i].0.as_str()) || !text_eq(a[i].1.as_str(), b[i].1.as_str()) {
            return false;
        }
        i = i + 1;
    }
    true
}

fn artifacts_equal(a: &Vec<ArtifactRefV1>, b: &Vec<ArtifactRefV1>) -> (r: bool)
    ensures
        r == (a@.len() == b@.len() && forall|i: int| 0 <= i < a@.len() ==> same_artifact(#[trigger] a@[i], b@[i])),
{
    if a.len() != b.len() {
        return false;
    }
    let mut i: usize = 0;
    while i < a.len()
        invariant
            a@.len() == b@.len(),
            i <= a@.len(),
            forall|j: int| 0 <= j < i ==> same_artifact(#[trigger] a@[j], b@[j]),
        decreases a@.len() - i,
    {
        let x = &a[i];
        let y = &b[i];
        if !(text_eq(x.schema.as_str(), y.schema.as_str()) && text_eq(x.digest.as_str(), y.digest.as_str()) && x.size_bytes
            == y.size_bytes && text_eq(x.media_type.as_str(), y.media_type.as_str()) && x.storage_class == y.storage_class
            && x.encrypted == y.encrypted) {
            assert(!same_artifact(a@[i as int], b@[i as int]));
            return false;
        }
        i = i + 1;
    }
    true
}

fn requests_equal(a: &Vec<ResourceRequestV1>, b: &Vec<ResourceRequestV1>) -> (r: bool)
    ensures
        r == (a@.len() == b@.len() && forall|i: int| 0 <= i < a@.len() ==> same_request(#[trigger] a@[i], b@[i])),
{
    if a.len() != b.len() {
        return false;
    }
    let mut i: usize = 0;
    while i < a.len()
        invariant
            a@.len() == b@.len(),
            i <= a@.len(),
            forall|j: int| 0 <= j < i ==> same_request(#[trigger] a@[j], b@[j]),
        decreases a@.len() - i,
    {
        let x = &a[i];
        let y = &b[i];
        if !(x.class == y.class && x.minimum == y.minimum && x.preferred == y.preferred && text_eq(x.unit.as_str(), y.unit.as_str())
            && pairs_equal(&x.required_labels, &y.required_labels)) {
            assert(!same_request(a@[i as int], b@[i as int]));
            return false;
        }
        i = i + 1;
    }
    true
}

/// Whether two jobs are the same data.
pub fn jobs_equal(a: &JobSpecV1, b: &JobSpecV1) -> (r: bool)
    ensures
        r == same_job(*a, *b),
{
    text_eq(a.schema.as_str(), b.schema.as_str()) && a.job_id == b.job_id && a.project_id == b.project_id && a.submitted_by
        == b.submitted_by && text_eq(a.adapter.as_str(), b.adapter.as_str()) && text_eq(a.operation.as_str(), b.operation.as_str())
        && pairs_equal(&a.arguments, &b.arguments) && artifacts_equal(&a.inputs, &b.inputs) && requests_equal(
        &a.requests,
        &b.requests,
    ) && a.trust == b.trust && a.restart_tolerant == b.restart_tolerant && texts_equal(
        &a.network_allowlist,
        &b.network_allowlist,
    ) && a.deadline == b.deadline && text_eq(a.idempotency_key.as_str(), b.idempotency_key.as_str())
}

/// The job id an idempotency key was first bound to.
pub open spec fn bound_job(keys: Seq<(String, u128)>, key: Seq<char>) -> Option<u128>
    decreases keys.len(),
{
    if keys.len() == 0 {
        None
    } else if keys[0].0@ == key {
        Some(keys[0].1)
    } else {
        bound_job(keys.skip(1), key)
    }
}

/// The position of the first outstanding assignment of a job.
pub open spec fn assignment_index(assignments: Seq<Assignment>, job_id: u128) -> Option<int>
    decreases assignments.len(),
{
    if assignments.len() == 0 {
        None
    } else if assignments[0].job.job_id == job_id {
        Some(0)
    } else {
        match assignment_index(assignments.skip(1), job_id) {
            Some(k) => Some(k + 1),
            None => None,
        }
    }
}

/// The outstanding assignment an idempotency key names, if any.
pub open spec fn replay_of(keys: Seq<(String, u128)>, assignments: Seq<Assignment>, key: Seq<char>) -> Option<int> {
    match bound_job(keys, key) {
        Some(job_id) => assignment_index(assignments, job_id),
        None => None,
    }
}

fn find_bound_job(keys: &Vec<(String, u128)>, key: &str) -> (r: Option<u128>)
    ensures
        r == bound_job(keys@, key@),
{
    let mut i: usize = 0;
    assert(keys@.skip(0) =~= keys@);
    while i < keys.len()
        invariant
            i <= keys@.len(),
            bound_job(keys@, key@) == bound_job(keys@.skip(i as int), key@),
        decreases keys@.len() - i,
    {
        assert(keys@.skip(i as int)[0] == keys@[i as int]);
        assert(keys@.skip(i as int).skip(1) =~= keys@.skip(i + 1));
        if text_eq(keys[i].0.as_str(), key) {
            return Some(keys[i].1);
        }
        i = i + 1;
    }
    None
}

proof fn lemma_assignment_index(assignments: Seq<Assignment>, job_id: u128, i: int)
    requires
        0 <= i <= assignments.len(),
        forall|j: int| 0 <= j < i ==> assignments[j].job.job_id != job_id,
    ensures
        assignment_index(assignments, job_id) == match assignment_index(assignments.skip(i), job_id) {
            Some(k) => Some(k + i),
            None => None::<int>,
        },
    decreases i,
{
    if i > 0 {
        assert(assignments.skip(1).skip(i - 1) =~= assignments.skip(i));
        lemma_assignment_index(assignments.skip(1), job_id, i - 1);
    } else {
        assert(assignments.skip(0) =~= assignments);
    }
}

fn find_assignment_index(assignments: &Vec<Assignment>, job_id: u128) -> (r: Option<usize>)
    ensures
        match r {
            Some(k) => k < assignments@.len() && assignment_index(assignments@, job_id) == Some(k as int),
            None => assignment_index(assignments@, job_id) is None,
        },
{
    let mut i: usize = 0;
    while i < assignments.len()
        invariant
            i <= assignments@.len(),
            forall|j: int| 0 <= j < i ==> assignments@[j].job.job_id != job_id,
        decreases assignments@.len() - i,
    {
        if assignments[i].job.job_id == job_id {
            proof {
                lemma_assignment_index(assignments@, job_id, i as int);
                assert(assignments@.skip(i as int)[0] == assignments@[i as int]);
            }
            return Some(i);
        }
        i = i + 1;
    }
    proof {
        lemma_assignment_index(assignments@, job_id, i as int);
        assert(assignments@.skip(i as int) =~= Seq::<Assignment>::empty());
    }
    None
}

/// How a job submission is answered.
#[derive(Debug)]
pub enum JobSubmission {
    /// The job was already admitted under its idempotency key; the assignment at this position
    /// answers again.
    Replayed(usize),
    /// The job is placed on the offer at this position, with its score and the Governor's lease.
    Leased(usize, PlacementScore, CapabilityLeaseV1),
    /// The submission is refused with this status and message.
    Refused(u16, String),
}

/// Decide a job submission at `now`: 423 while the owner kill latch holds; 400 for a job that
/// does not validate; the existing assignment again when the idempotency key already names this
/// very job, 409 when it names other data; 409 when no offer admits the job; 403 when the Governor
/// refuses the placement; otherwise the chosen offer and its lease. `idempotency` maps keys to job
/// ids; `lease_id` and `nonce` are drawn fresh by the caller.
pub fn decide_job_submission(
    kill_latch: bool,
    job: &JobSpecV1,
    idempotency: &Vec<(String, u128)>,
    assignments: &Vec<Assignment>,
    offers: &Vec<ResourceOfferV1>,
    reservations: &Vec<ResourceReservation>,
    policy: &AdmissionPolicy,
    local_inputs_by_node: &Vec<(u128, Vec<String>)>,
    governor: &Governor,
    epoch: u64,
    now: i128,
    lease_id: u128,
    nonce: String,
) -> (r: JobSubmission)
    requires
        inputs_total(job.inputs@) <= u64::MAX,
    ensures
        kill_latch ==> (r matches JobSubmission::Refused(status, m) && status == 423 && m@ == "owner kill latch is active"@),
        !kill_latch && job.validate_spec(now) is Err ==> (r matches JobSubmission::Refused(status, m) && status == 400
            && m@ == job.validate_spec(now)->Err_0.message_spec()),
        !kill_latch && job.validate_spec(now) is Ok && replay_of(idempotency@, assignments@, job.idempotency_key@) is Some ==> {
            let k = replay_of(idempotency@, assignments@, job.idempotency_key@)->0;
            if same_job(assignments@[k].job, *job) {
                r matches JobSubmission::Replayed(p) && p == k
            } else {
                r matches JobSubmission::Refused(status, m) && status == 409 && m@ == "job idempotency key is already bound to other data"@
            }
        },
        !kill_latch && job.validate_spec(now) is Ok && replay_of(idempotency@, assignments@, job.idempotency_key@) is None ==> {
            let scored = |t: PlacementScore, o: ResourceOfferV1| topology_score_spec(t, *job, o, reservations@, *policy, now, locals_of(local_inputs_by_node@, o.node_id));
            match r {
                JobSubmission::Leased(i, score, lease) => {
                    &&& i < offers@.len()
                    &&& is_choice(offers@, scored, Some((&offers@[i as int], score)))
                    &&& governor.job_verdict(*job, offers@[i as int], offers@[i as int].node_id, now, Ok(()))
                    &&& governor.job_lease_spec(*job, offers@[i as int], offers@[i as int].node_id, epoch, now, lease_id, nonce@, lease)
                },
                JobSubmission::Refused(status, m) => (status == 409 && m@ == "no admissible offer"@ && is_choice(offers@, scored, None))
                    || (status == 403 && exists|i: int, score: PlacementScore, d: crate::policy::Denial|
                        #![trigger is_choice(offers@, scored, Some((&offers@[i], score))), governor.job_verdict(*job, offers@[i], offers@[i].node_id, now, Err(d))]
                        0 <= i < offers@.len() && is_choice(offers@, scored, Some((&offers@[i], score))) && governor.job_verdict(
                        *job,
                        offers@[i],
                        offers@[i].node_id,
                        now,
                        Err(d),
                    ) && m@ == denial_text(d)),
                JobSubmission::Replayed(_) => false,
            }
        },
{
    if kill_latch {
        return JobSubmission::Refused(423, "owner kill latch is active".to_string());
    }
    match job.validate_at(now) {
        Err(e) => {
            return JobSubmission::Refused(400, e.message());
        },
        Ok(_) => {},
    }
    match find_bound_job(idempotency, job.idempotency_key.as_str()) {
        Some(existing) => match find_assignment_index(assignments, existing) {
            Some(k) => {
                if jobs_equal(&assignments[k].job, job) {
                    return JobSubmission::Replayed(k);
                }
                return JobSubmission::Refused(409, "job idempotency key is already bound to other data".to_string());
            },
            None => {},
        },
        None => {},
    }
    match best_offer_with_topology(job, offers.as_slice(), reservations, policy, now, local_inputs_by_node) {
        None => JobSubmission::Refused(409, "no admissible offer".to_string()),
        Some((i, score)) => {
            let offer = &offers[i];
            let ghost scored = |t: PlacementScore, o: ResourceOfferV1| topology_score_spec(t, *job, o, reservations@, *policy, now, locals_of(local_inputs_by_node@, o.node_id));
            assert(is_choice(offers@, scored, Some((&offers@[i as int], score)))) by {
                assert(offers@[i as int] == offers@[i as int]);
            }
            match governor.authorize_job_at_epoch(job, offer, offer.node_id, epoch, now, lease_id, nonce) {
                Ok(lease) => JobSubmission::Leased(i, score, lease),
                Err(d) => {
                    assert(governor.job_verdict(*job, offers@[i as int], offers@[i as int].node_id, now, Err(d)));
                    JobSubmission::Refused(403, d.message())
                },
            }
        },
    }
}

/// Two shard sets are the same data.
pub open spec fn same_shard_set(a: ShardSetV1, b: ShardSetV1) -> bool {
    &&& a.schema@ == b.schema@
    &&& a.set_id == b.set_id
    &&& a.project_id == b.project_id
    &&& a.submitted_by == b.submitted_by
    &&& a.shards@.len() == b.shards@.len()
    &&& (forall|i: int| 0 <= i < a.shards@.len() ==> same_job(#[trigger] a.shards@[i], b.shards@[i]))
    &&& a.minimum_successes == b.minimum_successes
    &&& a.deadline == b.deadline
    &&& a.idempotency_key@ == b.idempotency_key@
}

/// Whether two shard sets are the same data.
pub fn shard_sets_equal(a: &ShardSetV1, b: &ShardSetV1) -> (r: bool)
    ensures
        r == same_shard_set(*a, *b),
{
    if !(text_eq(a.schema.as_str(), b.schema.as_str()) && a.set_id == b.set_id && a.project_id == b.project_id
        && a.submitted_by == b.submitted_by && a.shards.len() == b.shards.len() && a.minimum_successes == b.minimum_successes
        && a.deadline == b.deadline && text_eq(a.idempotency_key.as_str(), b.idempotency_key.as_str())) {
        return false;
    }
    let mut i: usize = 0;
    while i < a.shards.len()
        invariant
            a.shards@.len() == b.shards@.len(),
            i <= a.shards@.len(),
            forall|j: int| 0 <= j < i ==> same_job(#[trigger] a.shards@[j], b.shards@[j]),
        decreases a.shards@.len() - i,
    {
        if !jobs_equal(&a.shards[i], &b.shards[i]) {
            return false;
        }
        i = i + 1;
    }
    true
}

/// What the admitted shard sets say of a new one: the first recorded set under the same
/// idempotency key answers it.
#[derive(Debug)]
pub enum ShardSetReplay {
    /// No admitted set uses the key.
    Fresh,
    /// The admitted set at this position is this very set; it is answered again.
    Replay(usize),
    /// The key is bound to other data.
    Conflict,
}

/// The first admitted set under an idempotency key.
pub open spec fn set_under_key(sets: Seq<(ShardSetV1, Vec<CapabilityLeaseV1>)>, key: Seq<char>) -> Option<int> {
    if exists|k: int| 0 <= k < sets.len() && sets[k].0.idempotency_key@ == key {
        Some(choose|k: int| 0 <= k < sets.len() && sets[k].0.idempotency_key@ == key && forall|j: int| 0 <= j < k ==> sets[j].0.idempotency_key@ != key)
    } else {
        None
    }
}

/// Compare a submitted set with the admitted ones (each with its leases), by idempotency key.
pub fn replay_shard_set(set: &ShardSetV1, sets: &Vec<(ShardSetV1, Vec<CapabilityLeaseV1>)>) -> (r: ShardSetReplay)
    ensures
        match r {
            ShardSetReplay::Fresh => set_under_key(sets@, set.idempotency_key@) is None,
            ShardSetReplay::Replay(k) => set_under_key(sets@, set.idempotency_key@) == Some(k as int) && same_shard_set(
                sets@[k as int].0,
                *set,
            ),
            ShardSetReplay::Conflict => set_under_key(sets@, set.idempotency_key@) matches Some(k) && !same_shard_set(sets@[k].0, *set),
        },
{
    let mut k: usize = 0;
    while k < sets.len()
        invariant
            k <= sets@.len(),
            forall|j: int| 0 <= j < k ==> sets@[j].0.idempotency_key@ != set.idempotency_key@,
        decreases sets@.len() - k,
    {
        if text_eq(sets[k].0.idempotency_key.as_str(), set.idempotency_key.as_str()) {
            proof {
                let c = choose|c: int| 0 <= c < sets@.len() && sets@[c].0.idempotency_key@ == set.idempotency_key@ && forall|j: int|
                    0 <= j < c ==> sets@[j].0.idempotency_key@ != set.idempotency_key@;
                assert(0 <= k < sets@.len() && sets@[k as int].0.idempotency_key@ == set.idempotency_key@);
                if c < k {
                } else if c > k {
                    assert(sets@[k as int].0.idempotency_key@ != set.idempotency_key@);
                }
            }
            if shard_sets_equal(&sets[k].0, set) {
                return ShardSetReplay::Replay(k);
            }
            return ShardSetReplay::Conflict;
        }
        k = k + 1;
    }
    ShardSetReplay::Fresh
}

/// Whether some shard's idempotency key is already bound to a different job.
pub open spec fn shard_key_conflict(set: ShardSetV1, idempotency: Seq<(String, u128)>) -> bool {
    exists|i: int| 0 <= i < set.shards@.len() && (bound_job(idempotency, (#[trigger] set.shards@[i]).idempotency_key@) matches Some(
        j,
    ) && j != set.shards@[i].job_id)
}

/// Whether some shard's idempotency key is already bound to a different job.
pub fn shard_keys_conflict(set: &ShardSetV1, idempotency: &Vec<(String, u128)>) -> (r: bool)
    ensures
        r == shard_key_conflict(*set, idempotency@),
{
    let mut i: usize = 0;
    while i < set.shards.len()
        invariant
            i <= set.shards@.len(),
            forall|j: int| 0 <= j < i ==> !(bound_job(idempotency@, (#[trigger] set.shards@[j]).idempotency_key@) matches Some(
                b,
            ) && b != set.shards@[j].job_id),
        decreases set.shards@.len() - i,
    {
        let job = &set.shards[i];
        match find_bound_job(idempotency, job.idempotency_key.as_str()) {
            Some(existing) => {
                if existing != job.job_id {
                    return true;
                }
            },
            None => {},
        }
        i = i + 1;
    }
    false
}

/// The first offer of a node, by position.
pub open spec fn offer_of_node(offers: Seq<ResourceOfferV1>, node_id: u128) -> Option<int> {
    if exists|k: int| 0 <= k < offers.len() && offers[k].node_id == node_id {
        Some(choose|k: int| 0 <= k < offers.len() && offers[k].node_id == node_id && forall|j: int| 0 <= j < k ==> offers[j].node_id != node_id)
    } else {
        None
    }
}

fn find_offer_of_node(offers: &Vec<ResourceOfferV1>, node_id: u128) -> (r: Option<usize>)
    ensures
        match r {
            Some(k) => k < offers@.len() && offer_of_node(offers@, node_id) == Some(k as int),
            None => offer_of_node(offers@, node_id) is None,
        },
{
    let mut k: usize = 0;
    while k < offers.len()
        invariant
            k <= offers@.len(),
            forall|j: int| 0 <= j < k ==> offers@[j].node_id != node_id,
        decreases offers@.len() - k,
    {
        if offers[k].node_id == node_id {
            proof {
                let c = choose|c: int| 0 <= c < offers@.len() && offers@[c].node_id == node_id && forall|j: int| 0 <= j < c ==> offers@[j].node_id != node_id;
                assert(0 <= k < offers@.len() && offers@[k as int].node_id == node_id);
                if c > k {
                    assert(offers@[k as int].node_id != node_id);
                }
            }
            return Some(k);
        }
        k = k + 1;
    }
    None
}

/// The Governor admits a shard's job on an offer for its planned node at `now`.
#[verifier::opaque]
pub open spec fn admits_shard(governor: Governor, job: JobSpecV1, offer: ResourceOfferV1, node: u128, now: i128) -> bool {
    governor.job_verdict(job, offer, node, now, Ok(()))
}

/// The verdict on the first `n` placements of a planned set: each placement's offer must still be
/// present (else the shard's job is refused with `true`) and the Governor must admit the shard's
/// job on it (else it is refused with `false`).
pub open spec fn shard_authority_verdict(
    governor: Governor,
    set: ShardSetV1,
    placements: Seq<ShardPlacement>,
    offers: Seq<ResourceOfferV1>,
    now: i128,
    n: int,
) -> Result<(), (u128, bool)>
    decreases n,
{
    if n <= 0 {
        Ok(())
    } else {
        match shard_authority_verdict(governor, set, placements, offers, now, n - 1) {
            Err(e) => Err(e),
            Ok(_) => {
                let job = set.shards@[n - 1];
                let node = placements[n - 1].node_id;
                match offer_of_node(offers, node) {
                    None => Err((job.job_id, true)),
                    Some(k) => if admits_shard(governor, job, offers[k], node, now) {
                        Ok(())
                    } else {
                        Err((job.job_id, false))
                    },
                }
            },
        }
    }
}

proof fn lemma_denied_not_admitted(governor: Governor, job: JobSpecV1, offer: ResourceOfferV1, node: u128, now: i128, d: Denial)
    requires
        governor.job_verdict(job, offer, node, now, Err(d)),
    ensures
        !governor.job_verdict(job, offer, node, now, Ok(())),
{
}

proof fn lemma_verdict_sticks(
    governor: Governor,
    set: ShardSetV1,
    placements: Seq<ShardPlacement>,
    offers: Seq<ResourceOfferV1>,
    now: i128,
    m: int,
    n: int,
)
    requires
        0 <= m <= n,
        shard_authority_verdict(governor, set, placements, offers, now, m) is Err,
    ensures
        shard_authority_verdict(governor, set, placements, offers, now, n) == shard_authority_verdict(governor, set, placements, offers, now, m),
    decreases n - m,
{
    if n > m {
        lemma_verdict_sticks(governor, set, placements, offers, now, m, n - 1);
    }
}

/// Check, before any input is staged, that every planned shard is still authorized on its
/// planned offer. The first refusal names its shard's job, and the Governor's denial where the
/// offer is present.
pub fn check_shard_authority(
    governor: &Governor,
    set: &ShardSetV1,
    placements: &Vec<ShardPlacement>,
    offers: &Vec<ResourceOfferV1>,
    now: i128,
) -> (r: Result<(), (u128, Option<Denial>)>)
    requires
        placements@.len() == set.shards@.len(),
    ensures
        match r {
            Ok(_) => shard_authority_verdict(*governor, *set, placements@, offers@, now, placements@.len() as int) is Ok,
            Err((job_id, None)) => shard_authority_verdict(*governor, *set, placements@, offers@, now, placements@.len() as int)
                == Err::<(), (u128, bool)>((job_id, true)),
            Err((job_id, Some(d))) => {
                &&& shard_authority_verdict(*governor, *set, placements@, offers@, now, placements@.len() as int) == Err::<
                    (),
                    (u128, bool),
                >((job_id, false))
                &&& exists|k: int| #![trigger set.shards@[k]] 0 <= k < set.shards@.len() && set.shards@[k].job_id == job_id
                    && offer_of_node(offers@, placements@[k].node_id) is Some && governor.job_verdict(
                    set.shards@[k],
                    offers@[offer_of_node(offers@, placements@[k].node_id)->0],
                    placements@[k].node_id,
                    now,
                    Err(d),
                )
            },
        },
{
    let mut i: usize = 0;
    while i < placements.len()
        invariant
            placements@.len() == set.shards@.len(),
            i <= placements@.len(),
            shard_authority_verdict(*governor, *set, placements@, offers@, now, i as int) is Ok,
        decreases placements@.len() - i,
    {
        let node = placements[i].node_id;
        let job = &set.shards[i];
        match find_offer_of_node(offers, node) {
            None => {
                proof {
                    lemma_verdict_sticks(*governor, *set, placements@, offers@, now, i + 1, placements@.len() as int);
                }
                return Err((job.job_id, None));
            },
            Some(k) => {
                match governor.check_job(job, &offers[k], node, now) {
                    Err(d) => {
                        proof {
                            assert(!admits_shard(*governor, *job, offers@[k as int], node, now)) by {
                                reveal(admits_shard);
                                lemma_denied_not_admitted(*governor, *job, offers@[k as int], node, now, d);
                            }
                            lemma_verdict_sticks(*governor, *set, placements@, offers@, now, i + 1, placements@.len() as int);
                            assert(set.shards@[i as int] == *job);
                        }
                        return Err((job.job_id, Some(d)));
                    },
                    Ok(_) => {
                        proof {
                            reveal(admits_shard);
                        }
                    },
                }
            },
        }
        i = i + 1;
    }
    Ok(())
}

/// The Governor admitted a shard's job on an offer for its node and this lease is the one it
/// issues for it at `now` under `epoch`, with the given lease id and nonce.
#[verifier::opaque]
pub open spec fn shard_lease_issued(
    governor: Governor,
    job: JobSpecV1,
    offer: ResourceOfferV1,
    node: u128,
    epoch: u64,
    now: i128,
    lease_id: u128,
    nonce: Seq<char>,
    lease: CapabilityLeaseV1,
) -> bool {
    governor.job_verdict(job, offer, node, now, Ok(())) && governor.job_lease_spec(job, offer, node, epoch, now, lease_id, nonce, lease)
}

/// The Governor denied a shard's job on an offer for its node at `now`.
#[verifier::opaque]
pub open spec fn shard_denied(governor: Governor, job: JobSpecV1, offer: ResourceOfferV1, node: u128, now: i128, d: Denial) -> bool {
    governor.job_verdict(job, offer, node, now, Err(d))
}

/// Issue the leases of a planned set once its inputs are staged, one per shard in order, with
/// the caller's fresh lease ids and nonces. A refusal now means the Governor's authority changed
/// during staging; it names the shard's job and the denial.
pub fn issue_shard_leases(
    governor: &Governor,
    set: &ShardSetV1,
    placements: &Vec<ShardPlacement>,
    offers: &Vec<ResourceOfferV1>,
    epoch: u64,
    now: i128,
    lease_ids: &Vec<u128>,
    nonces: &Vec<String>,
) -> (r: Result<Vec<CapabilityLeaseV1>, (u128, Denial)>)
    requires
        placements@.len() == set.shards@.len(),
        lease_ids@.len() == set.shards@.len(),
        nonces@.len() == set.shards@.len(),
        forall|k: int| 0 <= k < placements@.len() ==> offer_of_node(offers@, (#[trigger] placements@[k]).node_id) is Some,
    ensures
        match r {
            Ok(leases) => leases@.len() == set.shards@.len() && forall|k: int| 0 <= k < leases@.len() ==> shard_lease_issued(
                *governor,
                set.shards@[k],
                offers@[offer_of_node(offers@, placements@[k].node_id)->0],
                placements@[k].node_id,
                epoch,
                now,
                lease_ids@[k],
                nonces@[k]@,
                #[trigger] leases@[k],
            ),
            Err((job_id, d)) => exists|k: int| #![trigger set.shards@[k]] 0 <= k < set.shards@.len() && set.shards@[k].job_id == job_id
                && shard_denied(*governor, set.shards@[k], offers@[offer_of_node(offers@, placements@[k].node_id)->0], placements@[k].node_id, now, d),
        },
{
    let mut leases: Vec<CapabilityLeaseV1> = Vec::new();
    let mut i: usize = 0;
    while i < placements.len()
        invariant
            placements@.len() == set.shards@.len(),
            lease_ids@.len() == set.shards@.len(),
            nonces@.len() == set.shards@.len(),
            forall|k: int| 0 <= k < placements@.len() ==> offer_of_node(offers@, (#[trigger] placements@[k]).node_id) is Some,
            i <= placements@.len(),
            leases@.len() == i,
            forall|k: int| 0 <= k < i ==> shard_lease_issued(
                *governor,
                set.shards@[k],
                offers@[offer_of_node(offers@, placements@[k].node_id)->0],
                placements@[k].node_id,
                epoch,
                now,
                lease_ids@[k],
                nonces@[k]@,
                #[trigger] leases@[k],
            ),
        decreases placements@.len() - i,
    {
        let node = placements[i].node_id;
        let job = &set.shards[i];
        assert(offer_of_node(offers@, placements@[i as int].node_id) is Some);
        let k = match find_offer_of_node(offers, node) {
            Some(k) => k,
            None => {
                assert(false);
                return Ok(leases);
            },
        };
        let nonce = nonces[i].clone();
        match governor.authorize_job_at_epoch(job, &offers[k], node, epoch, now, lease_ids[i], nonce) {
            Ok(lease) => {
                proof {
                    reveal(shard_lease_issued);
                    assert(set.shards@[i as int] == *job);
                }
                let ghost before = leases@;
                leases.push(lease);
                assert(forall|k2: int| 0 <= k2 < i ==> leases@[k2] == before[k2]);
            },
            Err(d) => {
                proof {
                    reveal(shard_denied);
                    assert(set.shards@[i as int] == *job);
                }
                return Err((job.job_id, d));
            },
        }
        i = i + 1;
    }
    Ok(leases)
}

/// The message of a shard set whose authority changed while its inputs were staged.
pub fn staging_refusal_message(d: &Denial) -> (r: String)
    ensures
        r@ == "authority changed during staging: "@ + denial_text(*d),
{
    let mut m = "authority changed during staging: ".to_string();
    let text = d.message();
    m.append(text.as_str());
    m
}

} // verus!
