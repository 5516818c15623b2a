//! The progress of an admitted shard set: each member's standing from its latest receipt and its
//! assignment, the terminal counts, and whether the success threshold is met or still reachable.

use crate::protocol::{CapabilityLeaseV1, ExecutionReceiptV1, JobState, ShardSetV1};
use crate::service::Assignment;
use vstd::prelude::*;

verus! {

/// The standing of one member of a shard set.
#[derive(Debug)]
pub struct ShardMemberStatus {
    pub job_id: u128,
    /// The node its lease placed it on, if a lease names it.
    pub node_id: Option<u128>,
    pub status: &'static str,
    pub receipt_id: Option<u128>,
    pub result: Option<String>,
}

/// The progress of a shard set.
#[derive(Debug)]
pub struct ShardSetStatus {
    pub status: &'static str,
    pub total: u32,
    pub succeeded: u32,
    pub failed: u32,
    pub terminal: u32,
    pub minimum_successes: u32,
    pub threshold_met: bool,
    pub threshold_still_possible: bool,
    pub members: Vec<ShardMemberStatus>,
}

/// The position of the latest receipt for a job: later receipts replace earlier ones.
pub open spec fn latest_receipt(receipts: Seq<ExecutionReceiptV1>, job_id: u128) -> Option<int>
    decreases receipts.len(),
{
    if receipts.len() == 0 {
        None
    } else if receipts.last().job_id == job_id {
        Some(receipts.len() - 1)
    } else {
        latest_receipt(receipts.drop_last(), job_id)
    }
}

/// The node named for a job by the set's leases: the last lease for it wins.
pub open spec fn lease_node(leases: Seq<CapabilityLeaseV1>, job_id: u128) -> Option<u128>
    decreases leases.len(),
{
    if leases.len() == 0 {
        None
    } else if leases.last().job_id == job_id {
        Some(leases.last().node_id)
    } else {
        lease_node(leases.drop_last(), job_id)
    }
}

/// The first assignment of a job, if any.
pub open spec fn assignment_of(assignments: Seq<Assignment>, job_id: u128) -> Option<Assignment>
    decreases assignments.len(),
{
    if assignments.len() == 0 {
        None
    } else if assignments[0].job.job_id == job_id {
        Some(assignments[0])
    } else {
        assignment_of(assignments.skip(1), job_id)
    }
}

/// A member's standing: from its latest receipt if it has one (`succeeded`, `failed`, or
/// `ambiguous` for any other state); else `running` once its assignment is claimed, `admitted`
/// while it waits, and `ambiguous` with neither.
pub open spec fn member_status_spec(receipts: Seq<ExecutionReceiptV1>, assignments: Seq<Assignment>, job_id: u128) -> Seq<char> {
    match latest_receipt(receipts, job_id) {
        Some(k) => match receipts[k].state {
            JobState::Succeeded => "succeeded"@,
            JobState::Failed => "failed"@,
            _ => "ambiguous"@,
        },
        None => match assignment_of(assignments, job_id) {
            Some(a) => if a.claimed { "running"@ } else { "admitted"@ },
            None => "ambiguous"@,
        },
    }
}

/// Whether a job's latest receipt reports the given state.
pub open spec fn receipted_in(receipts: Seq<ExecutionReceiptV1>, job_id: u128, state: JobState) -> bool {
    latest_receipt(receipts, job_id) matches Some(k) && receipts[k].state == state
}

/// How many of the first `n` members' latest receipts report `state`.
pub open spec fn count_receipted(set: ShardSetV1, receipts: Seq<ExecutionReceiptV1>, state: JobState, n: int) -> nat
    decreases n,
{
    if n <= 0 {
        0
    } else {
        count_receipted(set, receipts, state, n - 1) + if receipted_in(receipts, set.shards@[n - 1].job_id, state) {
            1nat
        } else {
            0nat
        }
    }
}

/// The set's overall standing: `succeeded` once every member is terminal and the threshold is
/// met, `failed` once every member is terminal short of it, `running` before.
pub open spec fn set_status_spec(total: int, succeeded: int, failed: int, minimum: int) -> Seq<char> {
    if succeeded + failed == total && succeeded >= minimum {
        "succeeded"@
    } else if succeeded + failed == total {
        "failed"@
    } else {
        "running"@
    }
}

proof fn lemma_count_bounded(set: ShardSetV1, receipts: Seq<ExecutionReceiptV1>, n: int)
    requires
        0 <= n,
    ensures
        count_receipted(set, receipts, JobState::Succeeded, n) + count_receipted(set, receipts, JobState::Failed, n) <= n,
    decreases n,
{
    if n > 0 {
        lemma_count_bounded(set, receipts, n - 1);
    }
}

fn find_latest_receipt(receipts: &Vec<ExecutionReceiptV1>, job_id: u128) -> (r: Option<usize>)
    ensures
        match r {
            Some(k) => k < receipts@.len() && latest_receipt(receipts@, job_id) == Some(k as int),
            None => latest_receipt(receipts@, job_id) is None,
        },
{
    let mut i: usize = receipts.len();
    assert(receipts@.take(receipts@.len() as int) =~= receipts@);
    while i > 0
        invariant
            i <= receipts@.len(),
            latest_receipt(receipts@, job_id) == latest_receipt(receipts@.take(i as int), job_id),
        decreases i,
    {
        assert(receipts@.take(i as int).drop_last() =~= receipts@.take(i - 1));
        if receipts[i - 1].job_id == job_id {
            return Some(i - 1);
        }
        i = i - 1;
    }
    None
}

fn find_lease_node(leases: &Vec<CapabilityLeaseV1>, job_id: u128) -> (r: Option<u128>)
    ensures
        r == lease_node(leases@, job_id),
{
    let mut i: usize = leases.len();
    assert(leases@.take(leases@.len() as int) =~= leases@);
    while i > 0
        invariant
            i <= leases@.len(),
            lease_node(leases@, job_id) == lease_node(leases@.take(i as int), job_id),
        decreases i,
    {
        assert(leases@.take(i as int).drop_last() =~= leases@.take(i - 1));
        if leases[i - 1].job_id == job_id {
            return Some(leases[i - 1].node_id);
        }
        i = i - 1;
    }
    None
}

fn find_assignment(assignments: &Vec<Assignment>, job_id: u128) -> (r: Option<usize>)
    ensures
        match r {
            Some(k) => k < assignments@.len() && assignment_of(assignments@, job_id) == Some(assignments@[k as int]),
            None => assignment_of(assignments@, job_id) is None,
        },
{
    let mut i: usize = 0;
    assert(assignments@.skip(0) =~= assignments@);
    while i < assignments.len()
        invariant
            i <= assignments@.len(),
            assignment_of(assignments@, job_id) == assignment_of(assignments@.skip(i as int), job_id),
        decreases assignments@.len() - i,
    {
        assert(assignments@.skip(i as int)[0] == assignments@[i as int]);
        assert(assignments@.skip(i as int).skip(1) =~= assignments@.skip(i + 1));
        if assignments[i].job.job_id == job_id {
            return Some(i);
        }
        i = i + 1;
    }
    None
}

/// The progress of a shard set with its leases, given the receipts recorded for its jobs (in
/// ledger order) and the outstanding assignments.
pub fn shard_set_status(
    set: &ShardSetV1,
    leases: &Vec<CapabilityLeaseV1>,
    receipts: &Vec<ExecutionReceiptV1>,
    assignments: &Vec<Assignment>,
) -> (r: ShardSetStatus)
    requires
        set.shards@.len() <= u32::MAX,
    ensures
        r.total == set.shards@.len(),
        r.succeeded == count_receipted(*set, receipts@, JobState::Succeeded, set.shards@.len() as int),
        r.failed == count_receipted(*set, receipts@, JobState::Failed, set.shards@.len() as int),
        r.terminal == r.succeeded + r.failed,
        r.minimum_successes == set.minimum_successes,
        r.threshold_met == (r.succeeded >= set.minimum_successes),
        r.threshold_still_possible == (r.succeeded + (r.total - r.terminal) >= set.minimum_successes),
        r.status@ == set_status_spec(r.total as int, r.succeeded as int, r.failed as int, set.minimum_successes as int),
        r.members@.len() == set.shards@.len(),
        forall|i: int| 0 <= i < set.shards@.len() ==> {
            let m = #[trigger] r.members@[i];
            let job_id = set.shards@[i].job_id;
            &&& m.job_id == job_id
            &&& m.node_id == lease_node(leases@, job_id)
            &&& m.status@ == member_status_spec(receipts@, assignments@, job_id)
            &&& m.receipt_id == match latest_receipt(receipts@, job_id) {
                Some(k) => Some(receipts@[k].receipt_id),
                None => None,
            }
            &&& match latest_receipt(receipts@, job_id) {
                Some(k) => match (m.result, receipts@[k].result) {
                    (Some(a), Some(b)) => a@ == b@,
                    (None, None) => true,
                    _ => false,
                },
                None => m.result is None,
            }
        },
{
    let n = set.shards.len();
    let mut members: Vec<ShardMemberStatus> = Vec::new();
    let mut succeeded: u32 = 0;
    let mut failed: u32 = 0;
    let mut i: usize = 0;
    while i < n
        invariant
            n == set.shards@.len(),
            n <= u32::MAX,
            i <= n,
            succeeded == count_receipted(*set, receipts@, JobState::Succeeded, i as int),
            failed == count_receipted(*set, receipts@, JobState::Failed, i as int),
            members@.len() == i,
            forall|j: int| 0 <= j < i ==> {
                let m = #[trigger] members@[j];
                let job_id = set.shards@[j].job_id;
                &&& m.job_id == job_id
                &&& m.node_id == lease_node(leases@, job_id)
                &&& m.status@ == member_status_spec(receipts@, assignments@, job_id)
                &&& m.receipt_id == match latest_receipt(receipts@, job_id) {
                    Some(k) => Some(receipts@[k].receipt_id),
                    None => None,
                }
                &&& match latest_receipt(receipts@, job_id) {
                    Some(k) => match (m.result, receipts@[k].result) {
                        (Some(a), Some(b)) => a@ == b@,
                        (None, None) => true,
                        _ => false,
                    },
                    None => m.result is None,
                }
            },
        decreases n - i,
    {
        proof {
            lemma_count_bounded(*set, receipts@, i as int);
        }
        let job_id = set.shards[i].job_id;
        let node_id = find_lease_node(leases, job_id);
        let member = match find_latest_receipt(receipts, job_id) {
            Some(k) => {
                let receipt = &receipts[k];
                let status: &'static str = match receipt.state {
                    JobState::Succeeded => {
                        succeeded = succeeded + 1;
                        "succeeded"
                    },
                    JobState::Failed => {
                        failed = failed + 1;
                        "failed"
                    },
                    _ => "ambiguous",
                };
                let result = match &receipt.result {
                    Some(text) => Some(text.clone()),
                    None => None,
                };
                ShardMemberStatus { job_id, node_id, status, receipt_id: Some(receipt.receipt_id), result }
            },
            None => {
                let status: &'static str = match find_assignment(assignments, job_id) {
                    Some(a) => if assignments[a].claimed {
                        "running"
                    } else {
                        "admitted"
                    },
                    None => "ambiguous",
                };
                ShardMemberStatus { job_id, node_id, status, receipt_id: None, result: None }
            },
        };
        members.push(member);
        i = i + 1;
    }
    proof {
        lemma_count_bounded(*set, receipts@, n as int);
    }
    let total = n as u32;
    let terminal = succeeded + failed;
    let status: &'static str = if terminal == total && succeeded >= set.minimum_successes {
        "succeeded"
    } else if terminal == total {
        "failed"
    } else {
        "running"
    };
    ShardSetStatus {
        status,
        total,
        succeeded,
        failed,
        terminal,
        minimum_successes: set.minimum_successes,
        threshold_met: succeeded >= set.minimum_successes,
        threshold_still_possible: succeeded + (total - terminal) >= set.minimum_successes,
        members,
    }
}

/// A shard set is decided once every member is terminal: it has succeeded exactly when its
/// threshold is met, and while it runs success is still possible only if enough members remain
/// undecided to reach the threshold.
pub proof fn law_shard_set_decided(total: int, succeeded: int, failed: int, minimum: int)
    requires
        0 <= succeeded,
        0 <= failed,
        succeeded + failed <= total,
    ensures
        set_status_spec(total, succeeded, failed, minimum) == "succeeded"@ <==> (succeeded + failed == total && succeeded
            >= minimum),
        set_status_spec(total, succeeded, failed, minimum) == "running"@ <==> succeeded + failed < total,
        set_status_spec(total, succeeded, failed, minimum) == "failed"@ ==> succeeded + (total - (succeeded + failed))
            < minimum,
{
    reveal_strlit("succeeded");
    reveal_strlit("running");
    reveal_strlit("failed");
    assert("succeeded"@.len() == 9);
    assert("running"@.len() == 7);
    assert("failed"@.len() == 6);
}

} // verus!
