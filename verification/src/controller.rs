//! OnePool admission and deterministic scheduling.
//!
//! Offers are scored against a job's hard resource constraints after pending reservations, the
//! owner's protected reserve and a safety guardband; admissible offers are ranked by utility,
//! data locality, capacity fit, staging cost and headroom. Planning never issues authority.

use crate::policy::labels_meet;
use crate::policy::labels_satisfy;
use crate::protocol::{
    ArtifactRefV1, ComputeStrategy, JobSpecV1, LinkBenchmarkV1, ModelBackend, ModelMemoryKind,
    ModelParallelism, ModelRuntimeOfferV1, ModelRuntimeStatus, ModelSessionRequestV1, ResourceClass,
    ResourceOfferV1, ResourceQuantityV1, ResourceRequestV1, ShardSetV1, contains_parallelism,
};
use crate::text::{contains_text, decimal, decimal_text, text_eq, vec_contains_text};
use crate::protocol::ceil_div;
use vstd::prelude::*;

verus! {

broadcast use vstd::string::group_string_axioms;

/// How one offer scores for one job.
#[derive(Debug, Clone)]
pub struct PlacementScore {
    pub node_id: u128,
    pub satisfies: bool,
    pub data_local_inputs: u32,
    pub missing_input_bytes: u64,
    pub capacity_headroom: u64,
    pub capacity_fit_milli: u64,
    pub link_rtt_micros: u64,
    pub link_downlink_bps: u64,
    pub estimated_transfer_millis: u64,
    pub utility_milli: i64,
    pub topology_confidence: String,
    pub reason: String,
}

/// The owner's protected reserve per resource class (one amount per class) and the safety
/// guardband, in percent of capacity, that admission keeps free.
#[derive(Debug, Clone)]
pub struct AdmissionPolicy {
    pub protected_owner_reserve: Vec<(ResourceClass, u64)>,
    pub safety_guardband_percent: u8,
}

impl Default for AdmissionPolicy {
    fn default() -> (r: Self)
        ensures
            r.protected_owner_reserve@ == seq![(ResourceClass::CpuCompute, 1u64), (ResourceClass::RamWorkingSet, 536_870_912u64)],
            r.safety_guardband_percent == 10,
    {
        AdmissionPolicy {
            protected_owner_reserve: vec![(ResourceClass::CpuCompute, 1), (ResourceClass::RamWorkingSet, 512 * 1024 * 1024)],
            safety_guardband_percent: 10,
        }
    }
}

/// Capacity held for a job on a node until `expires_at`.
#[derive(Debug, Clone, Copy, PartialEq, Eq, Structural)]
pub struct ResourceReservation {
    pub job_id: u128,
    pub node_id: u128,
    pub class: ResourceClass,
    pub amount: u64,
    pub expires_at: i128,
}

#[derive(Debug, Clone)]
pub struct ShardPlacement {
    pub job_id: u128,
    pub node_id: u128,
    pub score: PlacementScore,
}

#[derive(Debug, Clone)]
pub struct ShardPlanningFailure {
    pub blocked_job_id: u128,
    pub planned_shards: usize,
    pub reason: String,
}

/// The name a resource class is shown under in admission reasons.
pub open spec fn resource_class_debug_spec(class: ResourceClass) -> Seq<char> {
    match class {
        ResourceClass::CpuCompute => "CpuCompute"@,
        ResourceClass::GpuCompute => "GpuCompute"@,
        ResourceClass::NpuCompute => "NpuCompute"@,
        ResourceClass::GpuMemory => "GpuMemory"@,
        ResourceClass::RamWorkingSet => "RamWorkingSet"@,
        ResourceClass::RamCache => "RamCache"@,
        ResourceClass::StorageCache => "StorageCache"@,
        ResourceClass::StorageScratch => "StorageScratch"@,
        ResourceClass::ProtectedStore => "ProtectedStore"@,
        ResourceClass::NetworkFetch => "NetworkFetch"@,
        ResourceClass::NetworkRelay => "NetworkRelay"@,
        ResourceClass::Toolchain => "Toolchain"@,
        ResourceClass::Runtime => "Runtime"@,
        ResourceClass::Codec => "Codec"@,
        ResourceClass::LicensedService => "LicensedService"@,
    }
}

pub fn resource_class_debug(class: ResourceClass) -> (r: &'static str)
    ensures
        r@ == resource_class_debug_spec(class),
{
    match class {
        ResourceClass::CpuCompute => "CpuCompute",
        ResourceClass::GpuCompute => "GpuCompute",
        ResourceClass::NpuCompute => "NpuCompute",
        ResourceClass::GpuMemory => "GpuMemory",
        ResourceClass::RamWorkingSet => "RamWorkingSet",
        ResourceClass::RamCache => "RamCache",
        ResourceClass::StorageCache => "StorageCache",
        ResourceClass::StorageScratch => "StorageScratch",
        ResourceClass::ProtectedStore => "ProtectedStore",
        ResourceClass::NetworkFetch => "NetworkFetch",
        ResourceClass::NetworkRelay => "NetworkRelay",
        ResourceClass::Toolchain => "Toolchain",
        ResourceClass::Runtime => "Runtime",
        ResourceClass::Codec => "Codec",
        ResourceClass::LicensedService => "LicensedService",
    }
}

/// The snake-case name of a resource class.
pub open spec fn resource_class_name_spec(class: ResourceClass) -> Seq<char> {
    match class {
        ResourceClass::CpuCompute => "cpu_compute"@,
        ResourceClass::GpuCompute => "gpu_compute"@,
        ResourceClass::NpuCompute => "npu_compute"@,
        ResourceClass::GpuMemory => "gpu_memory"@,
        ResourceClass::RamWorkingSet => "ram_working_set"@,
        ResourceClass::RamCache => "ram_cache"@,
        ResourceClass::StorageCache => "storage_cache"@,
        ResourceClass::StorageScratch => "storage_scratch"@,
        ResourceClass::ProtectedStore => "protected_store"@,
        ResourceClass::NetworkFetch => "network_fetch"@,
        ResourceClass::NetworkRelay => "network_relay"@,
        ResourceClass::Toolchain => "toolchain"@,
        ResourceClass::Runtime => "runtime"@,
        ResourceClass::Codec => "codec"@,
        ResourceClass::LicensedService => "licensed_service"@,
    }
}

pub fn resource_class_name(class: ResourceClass) -> (r: &'static str)
    ensures
        r@ == resource_class_name_spec(class),
{
    match class {
        ResourceClass::CpuCompute => "cpu_compute",
        ResourceClass::GpuCompute => "gpu_compute",
        ResourceClass::NpuCompute => "npu_compute",
        ResourceClass::GpuMemory => "gpu_memory",
        ResourceClass::RamWorkingSet => "ram_working_set",
        ResourceClass::RamCache => "ram_cache",
        ResourceClass::StorageCache => "storage_cache",
        ResourceClass::StorageScratch => "storage_scratch",
        ResourceClass::ProtectedStore => "protected_store",
        ResourceClass::NetworkFetch => "network_fetch",
        ResourceClass::NetworkRelay => "network_relay",
        ResourceClass::Toolchain => "toolchain",
        ResourceClass::Runtime => "runtime",
        ResourceClass::Codec => "codec",
        ResourceClass::LicensedService => "licensed_service",
    }
}

/// The position of the last resource of a class in an offer: a later resource of the same class
/// replaces an earlier one.
pub open spec fn last_of_class(resources: Seq<ResourceQuantityV1>, class: ResourceClass) -> Option<int>
    decreases resources.len(),
{
    if resources.len() == 0 {
        None
    } else if resources.last().class == class {
        Some(resources.len() - 1)
    } else {
        last_of_class(resources.drop_last(), class)
    }
}

proof fn lemma_last_of_class_bounds(resources: Seq<ResourceQuantityV1>, class: ResourceClass)
    ensures
        last_of_class(resources, class) matches Some(i) ==> 0 <= i < resources.len() && resources[i].class == class,
    decreases resources.len(),
{
    if resources.len() > 0 && resources.last().class != class {
        lemma_last_of_class_bounds(resources.drop_last(), class);
    }
}

fn find_last_of_class(resources: &Vec<ResourceQuantityV1>, class: ResourceClass) -> (r: Option<usize>)
    ensures
        match r {
            Some(i) => last_of_class(resources@, class) == Some(i as int),
            None => last_of_class(resources@, class) is None,
        },
        r matches Some(i) ==> i < resources@.len(),
{
    let mut i: usize = resources.len();
    assert(resources@.take(resources@.len() as int) =~= resources@);
    while i > 0
        invariant
            i <= resources@.len(),
            last_of_class(resources@, class) == last_of_class(resources@.take(i as int), class),
        decreases i,
    {
        proof {
            assert(resources@.take(i as int).drop_last() =~= resources@.take(i - 1));
        }
        if resources[i - 1].class == class {
            return Some(i - 1);
        }
        i = i - 1;
    }
    proof {
        assert(resources@.take(0) =~= Seq::<ResourceQuantityV1>::empty());
    }
    None
}

/// The total amount of live reservations on a node for a class at `now`.
pub open spec fn pending_total(reservations: Seq<ResourceReservation>, node_id: u128, class: ResourceClass, now: i128) -> int
    decreases reservations.len(),
{
    if reservations.len() == 0 {
        0
    } else {
        let r = reservations.last();
        pending_total(reservations.drop_last(), node_id, class, now) + (if r.node_id == node_id && r.class == class
            && r.expires_at > now { r.amount as int } else { 0 })
    }
}

/// `v` clamped at `u64::MAX`.
pub open spec fn clamp_u64(v: int) -> int {
    if v > u64::MAX { u64::MAX as int } else { v }
}

/// `a - b`, clamped at zero.
pub open spec fn floor_sub(a: int, b: int) -> int {
    if a > b { a - b } else { 0 }
}


/// `a * b`, clamped at `u64::MAX`.
pub fn mul_clamped(a: u64, b: u64) -> (r: u64)
    ensures
        r == clamp_u64(a * b),
{
    match a.checked_mul(b) {
        Some(v) => v,
        None => u64::MAX,
    }
}

fn pending_amount(reservations: &Vec<ResourceReservation>, node_id: u128, class: ResourceClass, now: i128) -> (r: u64)
    ensures
        r == clamp_u64(pending_total(reservations@, node_id, class, now)),
{
    let mut total: u64 = 0;
    let mut i: usize = 0;
    while i < reservations.len()
        invariant
            i <= reservations@.len(),
            total == clamp_u64(pending_total(reservations@.take(i as int), node_id, class, now)),
            pending_total(reservations@.take(i as int), node_id, class, now) >= 0,
        decreases reservations@.len() - i,
    {
        proof {
            assert(reservations@.take(i + 1).drop_last() =~= reservations@.take(i as int));
        }
        let r = reservations[i];
        if r.node_id == node_id && r.class == class && r.expires_at > now {
            total = total.saturating_add(r.amount);
        }
        i = i + 1;
    }
    proof {
        assert(reservations@.take(reservations@.len() as int) =~= reservations@);
    }
    total
}

/// The owner's protected reserve for a class, zero where none is declared.
pub open spec fn reserve_of(reserve: Seq<(ResourceClass, u64)>, class: ResourceClass) -> u64
    decreases reserve.len(),
{
    if reserve.len() == 0 {
        0
    } else if reserve[0].0 == class {
        reserve[0].1
    } else {
        reserve_of(reserve.skip(1), class)
    }
}

fn owner_reserve(reserve: &Vec<(ResourceClass, u64)>, class: ResourceClass) -> (r: u64)
    ensures
        r == reserve_of(reserve@, class),
{
    let mut i: usize = 0;
    assert(reserve@.skip(0) =~= reserve@);
    while i < reserve.len()
        invariant
            i <= reserve@.len(),
            reserve_of(reserve@, class) == reserve_of(reserve@.skip(i as int), class),
        decreases reserve@.len() - i,
    {
        proof {
            assert(reserve@.skip(i as int).skip(1) =~= reserve@.skip(i + 1));
        }
        if reserve[i].0 == class {
            return reserve[i].1;
        }
        i = i + 1;
    }
    0
}

/// What a resource can give a request after live reservations on its node, the owner's reserve
/// for its class, and the guardband (a percentage of its capacity, at most all of it).
pub open spec fn admissible_spec(
    resource: ResourceQuantityV1,
    node_id: u128,
    class: ResourceClass,
    reservations: Seq<ResourceReservation>,
    policy: AdmissionPolicy,
    now: i128,
) -> int {
    let pct = if policy.safety_guardband_percent < 100 { policy.safety_guardband_percent as int } else { 100 };
    let guardband = clamp_u64(resource.capacity * pct) / 100;
    floor_sub(
        floor_sub(
            floor_sub(resource.available as int, clamp_u64(pending_total(reservations, node_id, class, now))),
            reserve_of(policy.protected_owner_reserve@, class) as int,
        ),
        guardband,
    )
}

/// The capacity fit of one request, in thousandths of its preferred amount (at least its minimum
/// and at least one), capped at four times.
pub open spec fn request_fit(admissible: int, request: ResourceRequestV1) -> int {
    let preferred = if request.preferred > request.minimum { request.preferred as int } else { request.minimum as int };
    let preferred = if preferred > 1 { preferred } else { 1 };
    let fit = clamp_u64(admissible * 1000) / preferred;
    if fit < 4000 { fit } else { 4000 }
}

/// The admission of an offer to the first `n` requests of a job: the reason of the first
/// refused request, else the summed headroom (clamped) and the least capacity fit (`None` before
/// any request).
pub open spec fn requests_verdict(
    job: JobSpecV1,
    offer: ResourceOfferV1,
    reservations: Seq<ResourceReservation>,
    policy: AdmissionPolicy,
    now: i128,
    n: int,
) -> Result<(int, Option<int>), Seq<char>>
    decreases n,
{
    if n <= 0 {
        Ok((0, None))
    } else {
        match requests_verdict(job, offer, reservations, policy, now, n - 1) {
            Err(m) => Err(m),
            Ok((headroom, fit)) => {
                let request = job.requests@[n - 1];
                match last_of_class(offer.resources@, request.class) {
                    None => Err("missing resource "@ + resource_class_debug_spec(request.class)),
                    Some(i) => {
                        let resource = offer.resources@[i];
                        let admissible = admissible_spec(resource, offer.node_id, request.class, reservations, policy, now);
                        if !labels_satisfy(resource, request) || admissible < request.minimum || resource.unit@ != request.unit@ {
                            Err("insufficient or incompatible "@ + resource_class_debug_spec(request.class))
                        } else {
                            let f = request_fit(admissible, request);
                            Ok((
                                clamp_u64(headroom + admissible - request.minimum),
                                Some(match fit { None => f, Some(g) => if g < f { g } else { f } }),
                            ))
                        }
                    },
                }
            },
        }
    }
}

/// The plain total size of a job's inputs.
pub open spec fn inputs_total(inputs: Seq<ArtifactRefV1>) -> int
    decreases inputs.len(),
{
    if inputs.len() == 0 { 0 } else { inputs_total(inputs.drop_last()) + inputs.last().size_bytes }
}

/// The score of an offer that is refused for `reason`.
pub open spec fn denied_spec(score: PlacementScore, node_id: u128, reason: Seq<char>) -> bool {
    &&& score.node_id == node_id
    &&& !score.satisfies
    &&& score.data_local_inputs == 0
    &&& score.missing_input_bytes == 0
    &&& score.capacity_headroom == 0
    &&& score.capacity_fit_milli == 0
    &&& score.link_rtt_micros == 0
    &&& score.link_downlink_bps == 0
    &&& score.estimated_transfer_millis == 0
    &&& score.utility_milli == i64::MIN
    &&& score.topology_confidence@ == "inadmissible"@
    &&& score.reason@ == reason
}

/// The score of an offer for a job under admission: refused without the job's adapter or on the
/// first refused request; otherwise admitted with the summed headroom and the least capacity fit
/// (a thousand where the job requests nothing), every input counted as missing, and no link
/// measured yet.
pub open spec fn admission_score_spec(
    score: PlacementScore,
    job: JobSpecV1,
    offer: ResourceOfferV1,
    reservations: Seq<ResourceReservation>,
    policy: AdmissionPolicy,
    now: i128,
) -> bool {
    if !contains_text(offer.adapters@, job.adapter@) {
        denied_spec(score, offer.node_id, "required adapter is unavailable"@)
    } else {
        match requests_verdict(job, offer, reservations, policy, now, job.requests@.len() as int) {
            Err(m) => denied_spec(score, offer.node_id, m),
            Ok((headroom, fit)) => {
                let fit = match fit { None => 1000, Some(f) => f };
                &&& score.node_id == offer.node_id
                &&& score.satisfies
                &&& score.data_local_inputs == 0
                &&& score.missing_input_bytes == inputs_total(job.inputs@)
                &&& score.capacity_headroom == headroom
                &&& score.capacity_fit_milli == fit
                &&& score.link_rtt_micros == 0
                &&& score.link_downlink_bps == 0
                &&& score.estimated_transfer_millis == 0
                &&& score.utility_milli == fit
                &&& score.topology_confidence@ == "unmeasured"@
                &&& score.reason@ == "whole-workload placement satisfies hard constraints"@
            },
        }
    }
}

fn denied_score(node_id: u128, reason: String) -> (r: PlacementScore)
    ensures
        denied_spec(r, node_id, reason@),
{
    PlacementScore {
        node_id,
        satisfies: false,
        data_local_inputs: 0,
        missing_input_bytes: 0,
        capacity_headroom: 0,
        capacity_fit_milli: 0,
        link_rtt_micros: 0,
        link_downlink_bps: 0,
        estimated_transfer_millis: 0,
        utility_milli: i64::MIN,
        topology_confidence: "inadmissible".to_string(),
        reason,
    }
}

fn reason_with_class(prefix: &str, class: ResourceClass) -> (r: String)
    ensures
        r@ == prefix@ + resource_class_debug_spec(class),
{
    let mut s = prefix.to_string();
    s.append(resource_class_debug(class));
    s
}

proof fn lemma_requests_verdict_bounds(
    job: JobSpecV1,
    offer: ResourceOfferV1,
    reservations: Seq<ResourceReservation>,
    policy: AdmissionPolicy,
    now: i128,
    n: int,
)
    ensures
        requests_verdict(job, offer, reservations, policy, now, n) matches Ok((h, f)) ==> 0 <= h <= u64::MAX
            && (f matches Some(g) ==> 0 <= g <= 4000),
    decreases n,
{
    if n > 0 {
        lemma_requests_verdict_bounds(job, offer, reservations, policy, now, n - 1);
        lemma_last_of_class_bounds(offer.resources@, job.requests@[n - 1].class);
    }
}

proof fn lemma_label_of_present(labels: Seq<(String, String)>, key: Seq<char>, value: Seq<char>)
    requires
        crate::text::label_of(labels, key) == Some(value),
    ensures
        exists|j: int| 0 <= j < labels.len() && (#[trigger] labels[j]).0@ == key && labels[j].1@ == value,
    decreases labels.len(),
{
    if labels[0].0@ != key {
        lemma_label_of_present(labels.skip(1), key, value);
        let j = choose|j: int| 0 <= j < labels.skip(1).len() && (#[trigger] labels.skip(1)[j]).0@ == key && labels.skip(1)[j].1@ == value;
        assert(labels[j + 1] == labels.skip(1)[j]);
    }
}

/// Whether a resource is of a request's class and unit, has at least its minimum available, and
/// carries each of its required labels with the required value.
pub open spec fn carries_request(resource: ResourceQuantityV1, request: ResourceRequestV1) -> bool {
    &&& resource.class == request.class
    &&& resource.unit@ == request.unit@
    &&& resource.available >= request.minimum
    &&& forall|k: int| #![trigger request.required_labels@[k]] 0 <= k < request.required_labels@.len() ==> exists|j: int|
        0 <= j < resource.labels@.len() && (#[trigger] resource.labels@[j]).0@ == request.required_labels@[k].0@
        && resource.labels@[j].1@ == request.required_labels@[k].1@
}

proof fn lemma_pending_total_nonneg(reservations: Seq<ResourceReservation>, node_id: u128, class: ResourceClass, now: i128)
    ensures
        pending_total(reservations, node_id, class, now) >= 0,
    decreases reservations.len(),
{
    if reservations.len() > 0 {
        lemma_pending_total_nonneg(reservations.drop_last(), node_id, class, now);
    }
}

proof fn lemma_admitted_requests_are_met(
    job: JobSpecV1,
    offer: ResourceOfferV1,
    reservations: Seq<ResourceReservation>,
    policy: AdmissionPolicy,
    now: i128,
    n: int,
)
    requires
        0 <= n <= job.requests@.len(),
        requests_verdict(job, offer, reservations, policy, now, n) is Ok,
    ensures
        forall|r: int| 0 <= r < n ==> exists|i: int| 0 <= i < offer.resources@.len()
            && carries_request(offer.resources@[i], #[trigger] job.requests@[r]),
    decreases n,
{
    if n > 0 {
        lemma_admitted_requests_are_met(job, offer, reservations, policy, now, n - 1);
        let request = job.requests@[n - 1];
        lemma_last_of_class_bounds(offer.resources@, request.class);
        let i = last_of_class(offer.resources@, request.class)->0;
        let resource = offer.resources@[i];
        lemma_pending_total_nonneg(reservations, offer.node_id, request.class, now);
        assert(labels_satisfy(resource, request));
        assert forall|k: int| #![trigger request.required_labels@[k]] 0 <= k < request.required_labels@.len() implies exists|j: int|
            0 <= j < resource.labels@.len()
            && (#[trigger] resource.labels@[j]).0@ == request.required_labels@[k].0@
            && resource.labels@[j].1@ == request.required_labels@[k].1@ by {
            lemma_label_of_present(resource.labels@, request.required_labels@[k].0@, request.required_labels@[k].1@);
        }
        assert(carries_request(resource, request));
        assert forall|r: int| 0 <= r < n implies exists|i: int| 0 <= i < offer.resources@.len()
            && carries_request(offer.resources@[i], #[trigger] job.requests@[r]) by {
            if r == n - 1 {
                assert(0 <= i < offer.resources@.len() && carries_request(offer.resources@[i], job.requests@[r]));
            }
        }
    }
}

/// An offer is admitted for a job only where it carries the job's adapter and, for every
/// request, a resource of the requested class and unit, with at least the requested minimum
/// available, that carries every required label with the requested value.
pub proof fn law_admitted_offer_meets_every_request(
    score: PlacementScore,
    job: JobSpecV1,
    offer: ResourceOfferV1,
    reservations: Seq<ResourceReservation>,
    policy: AdmissionPolicy,
    now: i128,
)
    requires
        admission_score_spec(score, job, offer, reservations, policy, now),
        score.satisfies,
    ensures
        exists|a: int| 0 <= a < offer.adapters@.len() && (#[trigger] offer.adapters@[a])@ == job.adapter@,
        forall|r: int| 0 <= r < job.requests@.len() ==> exists|i: int| 0 <= i < offer.resources@.len()
            && carries_request(offer.resources@[i], #[trigger] job.requests@[r]),
{
    lemma_admitted_requests_are_met(job, offer, reservations, policy, now, job.requests@.len() as int);
}

/// Score one offer for a job under admission at `now`.
#[verifier::loop_isolation(false)]
pub fn score_offer_with_admission(
    job: &JobSpecV1,
    offer: &ResourceOfferV1,
    reservations: &Vec<ResourceReservation>,
    policy: &AdmissionPolicy,
    now: i128,
) -> (r: PlacementScore)
    requires
        inputs_total(job.inputs@) <= u64::MAX,
    ensures
        admission_score_spec(r, *job, *offer, reservations@, *policy, now),
        r.satisfies ==> forall|q: int| 0 <= q < job.requests@.len() ==> exists|i: int| 0 <= i < offer.resources@.len()
            && carries_request(offer.resources@[i], #[trigger] job.requests@[q]),
{
    if !vec_contains_text(&offer.adapters, job.adapter.as_str()) {
        return denied_score(offer.node_id, "required adapter is unavailable".to_string());
    }
    let mut headroom: u64 = 0;
    let mut fit: Option<u64> = None;
    let mut k: usize = 0;
    while k < job.requests.len()
        invariant
            k <= job.requests@.len(),
            requests_verdict(*job, *offer, reservations@, *policy, now, k as int) == Ok::<(int, Option<int>), Seq<char>>((
                headroom as int,
                match fit { None => None, Some(f) => Some(f as int) },
            )),
        decreases job.requests@.len() - k,
    {
        let request = &job.requests[k];
        proof {
            lemma_requests_verdict_bounds(*job, *offer, reservations@, *policy, now, k + 1);
        }
        let index = match find_last_of_class(&offer.resources, request.class) {
            None => {
                proof {
                    lemma_verdict_error_sticks(*job, *offer, reservations@, *policy, now, k as int + 1, job.requests@.len() as int);
                }
                return denied_score(offer.node_id, reason_with_class("missing resource ", request.class));
            },
            Some(i) => i,
        };
        let resource = &offer.resources[index];
        let pending = pending_amount(reservations, offer.node_id, request.class, now);
        let reserve = owner_reserve(&policy.protected_owner_reserve, request.class);
        let pct: u64 = if policy.safety_guardband_percent < 100 { policy.safety_guardband_percent as u64 } else { 100 };
        let guardband = mul_clamped(resource.capacity, pct) / 100;
        let admissible = resource.available.saturating_sub(pending).saturating_sub(reserve).saturating_sub(guardband);
        if !labels_meet(resource, request) || admissible < request.minimum || !text_eq(resource.unit.as_str(), request.unit.as_str()) {
            proof {
                lemma_verdict_error_sticks(*job, *offer, reservations@, *policy, now, k as int + 1, job.requests@.len() as int);
            }
            return denied_score(offer.node_id, reason_with_class("insufficient or incompatible ", request.class));
        }
        headroom = headroom.saturating_add(admissible - request.minimum);
        let preferred0 = if request.preferred > request.minimum { request.preferred } else { request.minimum };
        let preferred = if preferred0 > 1 { preferred0 } else { 1 };
        let raw = mul_clamped(admissible, 1000) / preferred;
        let f = if raw < 4000 { raw } else { 4000 };
        fit = Some(match fit {
            None => f,
            Some(g) => if g < f { g } else { f },
        });
        k = k + 1;
    }
    let total_inputs = inputs_size(&job.inputs);
    let fit_milli: u64 = match fit {
        None => 1000,
        Some(f) => f,
    };
    let score = PlacementScore {
        node_id: offer.node_id,
        satisfies: true,
        data_local_inputs: 0,
        missing_input_bytes: total_inputs,
        capacity_headroom: headroom,
        capacity_fit_milli: fit_milli,
        link_rtt_micros: 0,
        link_downlink_bps: 0,
        estimated_transfer_millis: 0,
        utility_milli: fit_milli as i64,
        topology_confidence: "unmeasured".to_string(),
        reason: "whole-workload placement satisfies hard constraints".to_string(),
    };
    proof {
        if score.satisfies {
            law_admitted_offer_meets_every_request(score, *job, *offer, reservations@, *policy, now);
        }
    }
    score
}

proof fn lemma_verdict_error_sticks(
    job: JobSpecV1,
    offer: ResourceOfferV1,
    reservations: Seq<ResourceReservation>,
    policy: AdmissionPolicy,
    now: i128,
    k: int,
    n: int,
)
    requires
        0 < k <= n,
        requests_verdict(job, offer, reservations, policy, now, k) is Err,
    ensures
        requests_verdict(job, offer, reservations, policy, now, n) == requests_verdict(job, offer, reservations, policy, now, k),
    decreases n - k,
{
    if k < n {
        lemma_verdict_error_sticks(job, offer, reservations, policy, now, k, n - 1);
    }
}

fn inputs_size(inputs: &Vec<ArtifactRefV1>) -> (r: u64)
    requires
        inputs_total(inputs@) <= u64::MAX,
    ensures
        r == inputs_total(inputs@),
{
    let mut total: u64 = 0;
    let mut i: usize = 0;
    while i < inputs.len()
        invariant
            i <= inputs@.len(),
            inputs_total(inputs@) <= u64::MAX,
            total == inputs_total(inputs@.take(i as int)),
        decreases inputs@.len() - i,
    {
        proof {
            assert(inputs@.take(i + 1).drop_last() =~= inputs@.take(i as int));
            lemma_inputs_total_prefix(inputs@, i + 1);
        }
        total = total + inputs[i].size_bytes;
        i = i + 1;
    }
    proof {
        assert(inputs@.take(inputs@.len() as int) =~= inputs@);
    }
    total
}

proof fn lemma_inputs_total_prefix(inputs: Seq<ArtifactRefV1>, i: int)
    requires
        0 <= i <= inputs.len(),
    ensures
        inputs_total(inputs.take(i)) <= inputs_total(inputs),
        inputs_total(inputs.take(i)) >= 0,
    decreases inputs.len() - i,
{
    if i == inputs.len() {
        assert(inputs.take(i) =~= inputs);
        lemma_inputs_total_nonneg(inputs);
    } else {
        lemma_inputs_total_prefix(inputs, i + 1);
        assert(inputs.take(i + 1).drop_last() =~= inputs.take(i));
        lemma_inputs_total_nonneg(inputs.take(i));
    }
}

proof fn lemma_inputs_total_nonneg(inputs: Seq<ArtifactRefV1>)
    ensures
        inputs_total(inputs) >= 0,
    decreases inputs.len(),
{
    if inputs.len() > 0 {
        lemma_inputs_total_nonneg(inputs.drop_last());
    }
}

/// Whether an input's content address is among a node's local digests.
pub open spec fn is_local(input: ArtifactRefV1, local: Seq<String>) -> bool {
    contains_text(local, input.digest@)
}

/// How many inputs are local to a node.
pub open spec fn local_count(inputs: Seq<ArtifactRefV1>, local: Seq<String>) -> int
    decreases inputs.len(),
{
    if inputs.len() == 0 {
        0
    } else {
        local_count(inputs.drop_last(), local) + (if is_local(inputs.last(), local) { 1int } else { 0int })
    }
}

/// The plain total size of the inputs not local to a node.
pub open spec fn missing_total(inputs: Seq<ArtifactRefV1>, local: Seq<String>) -> int
    decreases inputs.len(),
{
    if inputs.len() == 0 {
        0
    } else {
        missing_total(inputs.drop_last(), local) + (if is_local(inputs.last(), local) { 0int } else { inputs.last().size_bytes as int })
    }
}

proof fn lemma_counts_bounded(inputs: Seq<ArtifactRefV1>, local: Seq<String>)
    ensures
        0 <= local_count(inputs, local) <= inputs.len(),
        missing_total(inputs, local) >= 0,
    decreases inputs.len(),
{
    if inputs.len() > 0 {
        lemma_counts_bounded(inputs.drop_last(), local);
    }
}

/// The link evidence a score uses: none needed for the controller's own node, a fresh measured
/// benchmark with a positive downlink, or a deliberately conservative fallback of 50 ms and
/// 20 Mbit/s. Missing measurements never become optimistic evidence.
pub open spec fn link_evidence(offer: ResourceOfferV1, now: i128) -> (u64, u64, Seq<char>) {
    if offer.mesh_endpoint is None {
        (0, u64::MAX, "controller_local"@)
    } else if offer.link_benchmark matches Some(link) && link.schema@ == LinkBenchmarkV1::SCHEMA@ && link.expires_at > now
        && link.downlink_bps > 0 {
        (offer.link_benchmark->0.rtt_micros_p50, offer.link_benchmark->0.downlink_bps, "measured"@)
    } else {
        (50_000, 20_000_000, "conservative_fallback"@)
    }
}

/// The staging estimate, in milliseconds, of moving `missing` bytes over a link: the transfer
/// time rounded up plus the round trip rounded up to whole milliseconds, each step clamped.
pub open spec fn transfer_estimate(missing: int, rtt_micros: int, downlink_bps: int) -> int {
    if missing == 0 {
        0
    } else {
        let bits_millis = clamp_u64(clamp_u64(missing * 8) * 1000);
        let down = if downlink_bps > 1 { downlink_bps } else { 1 };
        clamp_u64(ceil_div(bits_millis, down) + ceil_div(rtt_micros, 1000))
    }
}

/// The utility penalty of a staging estimate: a tenth of it, rounded up, capped at ten thousand.
pub open spec fn transfer_penalty(estimate: int) -> int {
    let p = ceil_div(estimate, 10);
    if p < 10_000 { p } else { 10_000 }
}

/// The score of an offer for a job with data locality and link evidence: the admission score,
/// and, where admitted, local inputs counted, non-local input bytes summed (clamped), the link
/// evidence applied, the staging estimate charged against utility, and the reason spelled out.
pub open spec fn topology_score_spec(
    score: PlacementScore,
    job: JobSpecV1,
    offer: ResourceOfferV1,
    reservations: Seq<ResourceReservation>,
    policy: AdmissionPolicy,
    now: i128,
    local: Seq<String>,
) -> bool {
    exists|base: PlacementScore| #[trigger] admission_score_spec(base, job, offer, reservations, policy, now) && if !base.satisfies {
        denied_spec(score, offer.node_id, base.reason@)
    } else {
        let (rtt, down, confidence) = link_evidence(offer, now);
        let missing = clamp_u64(missing_total(job.inputs@, local));
        let estimate = transfer_estimate(missing, rtt as int, down as int);
        &&& score.node_id == offer.node_id
        &&& score.satisfies
        &&& score.data_local_inputs == local_count(job.inputs@, local) as u32
        &&& score.missing_input_bytes == missing
        &&& score.capacity_headroom == base.capacity_headroom
        &&& score.capacity_fit_milli == base.capacity_fit_milli
        &&& score.link_rtt_micros == rtt
        &&& score.link_downlink_bps == down
        &&& score.estimated_transfer_millis == estimate
        &&& score.utility_milli == base.capacity_fit_milli - transfer_penalty(estimate)
        &&& score.topology_confidence@ == confidence
        &&& score.reason@ == "admissible; "@ + decimal(score.data_local_inputs as nat) + " of "@ + decimal(job.inputs@.len() as nat)
            + " inputs local; estimated staging "@ + decimal(estimate as nat) + " ms; topology "@ + confidence
    }
}

fn ceil_div_u64(a: u64, b: u64) -> (r: u64)
    requires
        b > 0,
    ensures
        r == ceil_div(a as int, b as int),
{
    let q = a / b;
    let rem = a % b;
    proof {
        vstd::arithmetic::div_mod::lemma_fundamental_div_mod(a as int, b as int);
        assert(a as int == q as int * b as int + rem as int) by (nonlinear_arith)
            requires a as int == b as int * (a as int / b as int) + a as int % b as int, q as int == a as int / b as int, rem as int == a as int % b as int;
        if rem > 0 {
            assert(a as int + b as int - 1 == (q as int + 1) * b as int + (rem as int - 1)) by (nonlinear_arith)
                requires a as int == q as int * b as int + rem as int;
            vstd::arithmetic::div_mod::lemma_fundamental_div_mod_converse(a as int + b as int - 1, b as int, q as int + 1, rem as int - 1);
            assert(q < u64::MAX) by (nonlinear_arith)
                requires a as int == q as int * b as int + rem as int, 0 < rem < b, a <= u64::MAX;
        } else {
            vstd::arithmetic::div_mod::lemma_fundamental_div_mod_converse(a as int + b as int - 1, b as int, q as int, b as int - 1);
        }
    }
    if rem > 0 { q + 1 } else { q }
}

fn is_local_input(input: &ArtifactRefV1, local: &Vec<String>) -> (r: bool)
    ensures
        r == is_local(*input, local@),
{
    vec_contains_text(local, input.digest.as_str())
}

/// Score one offer for a job with data locality (the digests held on the offer's node) and link
/// evidence at `now`.
#[verifier::loop_isolation(false)]
pub fn score_offer_with_topology(
    job: &JobSpecV1,
    offer: &ResourceOfferV1,
    reservations: &Vec<ResourceReservation>,
    policy: &AdmissionPolicy,
    now: i128,
    local_input_digests: &Vec<String>,
) -> (r: PlacementScore)
    requires
        inputs_total(job.inputs@) <= u64::MAX,
    ensures
        topology_score_spec(r, *job, *offer, reservations@, *policy, now, local_input_digests@),
{
    let base = score_offer_with_admission(job, offer, reservations, policy, now);
    if !base.satisfies {
        return denied_score(offer.node_id, base.reason);
    }
    let mut local: u64 = 0;
    let mut missing: u64 = 0;
    let mut i: usize = 0;
    while i < job.inputs.len()
        invariant
            i <= job.inputs@.len(),
            local == local_count(job.inputs@.take(i as int), local_input_digests@),
            missing == clamp_u64(missing_total(job.inputs@.take(i as int), local_input_digests@)),
        decreases job.inputs@.len() - i,
    {
        proof {
            assert(job.inputs@.take(i + 1).drop_last() =~= job.inputs@.take(i as int));
            lemma_counts_bounded(job.inputs@.take(i as int), local_input_digests@);
        }
        if is_local_input(&job.inputs[i], local_input_digests) {
            local = local + 1;
        } else {
            missing = missing.saturating_add(job.inputs[i].size_bytes);
        }
        i = i + 1;
    }
    proof {
        assert(job.inputs@.take(job.inputs@.len() as int) =~= job.inputs@);
        lemma_counts_bounded(job.inputs@, local_input_digests@);
    }
    let data_local = local as u32;
    let is_measured = match &offer.link_benchmark {
        Some(link) => text_eq(link.schema.as_str(), LinkBenchmarkV1::SCHEMA) && link.expires_at > now && link.downlink_bps > 0,
        None => false,
    };
    let (rtt, down, confidence): (u64, u64, &str) = if offer.mesh_endpoint.is_none() {
        (0, u64::MAX, "controller_local")
    } else if is_measured {
        match &offer.link_benchmark {
            Some(link) => (link.rtt_micros_p50, link.downlink_bps, "measured"),
            None => (50_000, 20_000_000, "conservative_fallback"),
        }
    } else {
        (50_000, 20_000_000, "conservative_fallback")
    };
    let estimate: u64 = if missing == 0 {
        0
    } else {
        let bits_millis = mul_clamped(mul_clamped(missing, 8), 1000);
        let d = if down > 1 { down } else { 1 };
        ceil_div_u64(bits_millis, d).saturating_add(ceil_div_u64(rtt, 1000))
    };
    let p = ceil_div_u64(estimate, 10);
    let penalty: u64 = if p < 10_000 { p } else { 10_000 };
    let utility = base.capacity_fit_milli as i64 - penalty as i64;
    let mut reason = "admissible; ".to_string();
    reason.append(decimal_text(data_local as u64).as_str());
    reason.append(" of ");
    reason.append(decimal_text(job.inputs.len() as u64).as_str());
    reason.append(" inputs local; estimated staging ");
    reason.append(decimal_text(estimate).as_str());
    reason.append(" ms; topology ");
    reason.append(confidence);
    let r = PlacementScore {
        node_id: offer.node_id,
        satisfies: true,
        data_local_inputs: data_local,
        missing_input_bytes: missing,
        capacity_headroom: base.capacity_headroom,
        capacity_fit_milli: base.capacity_fit_milli,
        link_rtt_micros: rtt,
        link_downlink_bps: down,
        estimated_transfer_millis: estimate,
        utility_milli: utility,
        topology_confidence: confidence.to_string(),
        reason,
    };
    assert(admission_score_spec(base, *job, *offer, reservations@, *policy, now));
    r
}

/// Whether score `a` ranks strictly below score `b`: by utility, then local inputs, then
/// capacity fit, then a longer staging estimate, then headroom.
pub open spec fn rank_lt(a: PlacementScore, b: PlacementScore) -> bool {
    a.utility_milli < b.utility_milli || (a.utility_milli == b.utility_milli && (a.data_local_inputs < b.data_local_inputs
        || (a.data_local_inputs == b.data_local_inputs && (a.capacity_fit_milli < b.capacity_fit_milli || (a.capacity_fit_milli
        == b.capacity_fit_milli && (a.estimated_transfer_millis > b.estimated_transfer_millis || (a.estimated_transfer_millis
        == b.estimated_transfer_millis && a.capacity_headroom < b.capacity_headroom)))))))
}

fn ranks_below(a: &PlacementScore, b: &PlacementScore) -> (r: bool)
    ensures
        r == rank_lt(*a, *b),
{
    a.utility_milli < b.utility_milli || (a.utility_milli == b.utility_milli && (a.data_local_inputs < b.data_local_inputs
        || (a.data_local_inputs == b.data_local_inputs && (a.capacity_fit_milli < b.capacity_fit_milli || (a.capacity_fit_milli
        == b.capacity_fit_milli && (a.estimated_transfer_millis > b.estimated_transfer_millis || (a.estimated_transfer_millis
        == b.estimated_transfer_millis && a.capacity_headroom < b.capacity_headroom)))))))
}

/// Whether `chosen` is the offer choice among `offers` under scores that `scored` relates to
/// each offer: nothing where no offer is admitted, else the last admitted offer whose score no
/// other admitted score outranks.
pub open spec fn is_choice<'a>(
    offers: Seq<ResourceOfferV1>,
    scored: spec_fn(PlacementScore, ResourceOfferV1) -> bool,
    chosen: Option<(&'a ResourceOfferV1, PlacementScore)>,
) -> bool {
    match chosen {
        None => forall|j: int, t: PlacementScore| 0 <= j < offers.len() && #[trigger] scored(t, offers[j]) ==> !t.satisfies,
        Some((o, s)) => exists|i: int| #![trigger offers[i]] 0 <= i < offers.len() && *o == offers[i] && scored(s, offers[i]) && s.satisfies
            && forall|j: int, t: PlacementScore| 0 <= j < offers.len() && #[trigger] scored(t, offers[j]) && t.satisfies ==> !rank_lt(s, t)
            && (j > i ==> rank_lt(t, s)),
    }
}

/// Admission scores of the same offer agree on admission and on every ranked figure.
pub open spec fn scores_agree(a: PlacementScore, b: PlacementScore) -> bool {
    &&& a.satisfies == b.satisfies
    &&& a.utility_milli == b.utility_milli
    &&& a.data_local_inputs == b.data_local_inputs
    &&& a.capacity_fit_milli == b.capacity_fit_milli
    &&& a.estimated_transfer_millis == b.estimated_transfer_millis
    &&& a.capacity_headroom == b.capacity_headroom
}

/// Choose the best admissible offer for a job under admission at `now`.
#[verifier::loop_isolation(false)]
pub fn choose_offer_with_admission<'a>(
    job: &JobSpecV1,
    offers: &'a [ResourceOfferV1],
    reservations: &Vec<ResourceReservation>,
    policy: &AdmissionPolicy,
    now: i128,
) -> (r: Option<(&'a ResourceOfferV1, PlacementScore)>)
    requires
        inputs_total(job.inputs@) <= u64::MAX,
    ensures
        is_choice(offers@, |t: PlacementScore, o: ResourceOfferV1| admission_score_spec(t, *job, o, reservations@, *policy, now), r),
{
    let ghost scored = |t: PlacementScore, o: ResourceOfferV1| admission_score_spec(t, *job, o, reservations@, *policy, now);
    let mut best: Option<(usize, PlacementScore)> = None;
    let mut i: usize = 0;
    while i < offers.len()
        invariant
            i <= offers@.len(),
            match best {
                None => forall|j: int, t: PlacementScore| 0 <= j < i && #[trigger] scored(t, offers@[j]) ==> !t.satisfies,
                Some((bi, bs)) => bi < i && scored(bs, offers@[bi as int]) && bs.satisfies && forall|j: int, t: PlacementScore|
                    0 <= j < i && #[trigger] scored(t, offers@[j]) && t.satisfies ==> !rank_lt(bs, t) && (j > bi ==> rank_lt(t, bs)),
            },
        decreases offers@.len() - i,
    {
        let s = score_offer_with_admission(job, &offers[i], reservations, policy, now);
        proof {
            assert forall|t: PlacementScore| #[trigger] scored(t, offers@[i as int]) implies scores_agree(t, s) by {}
        }
        if s.satisfies {
            let replace = match &best {
                None => true,
                Some((_, bs)) => !ranks_below(&s, bs),
            };
            if replace {
                best = Some((i, s));
            }
        }
        i = i + 1;
    }
    match best {
        None => None,
        Some((bi, bs)) => Some((&offers[bi], bs)),
    }
}

/// The digests held on a node: the first entry for the node, none where there is no entry.
pub open spec fn locals_of(by_node: Seq<(u128, Vec<String>)>, node_id: u128) -> Seq<String>
    decreases by_node.len(),
{
    if by_node.len() == 0 {
        Seq::empty()
    } else if by_node[0].0 == node_id {
        by_node[0].1@
    } else {
        locals_of(by_node.skip(1), node_id)
    }
}

fn find_locals(by_node: &Vec<(u128, Vec<String>)>, node_id: u128) -> (r: Vec<String>)
    ensures
        r@ == locals_of(by_node@, node_id),
{
    let mut i: usize = 0;
    assert(by_node@.skip(0) =~= by_node@);
    while i < by_node.len()
        invariant
            i <= by_node@.len(),
            locals_of(by_node@, node_id) == locals_of(by_node@.skip(i as int), node_id),
        decreases by_node@.len() - i,
    {
        proof {
            assert(by_node@.skip(i as int).skip(1) =~= by_node@.skip(i + 1));
        }
        if by_node[i].0 == node_id {
            return by_node[i].1.clone();
        }
        i = i + 1;
    }
    Vec::new()
}

/// The position and score of the offer `choose_offer_with_topology` picks: the best-ranked
/// satisfying offer, the earliest among equals.
#[verifier::loop_isolation(false)]
pub fn best_offer_with_topology(
    job: &JobSpecV1,
    offers: &[ResourceOfferV1],
    reservations: &Vec<ResourceReservation>,
    policy: &AdmissionPolicy,
    now: i128,
    local_inputs_by_node: &Vec<(u128, Vec<String>)>,
) -> (r: Option<(usize, PlacementScore)>)
    requires
        inputs_total(job.inputs@) <= u64::MAX,
    ensures
        ({
            let scored = |t: PlacementScore, o: ResourceOfferV1| topology_score_spec(t, *job, o, reservations@, *policy, now, locals_of(local_inputs_by_node@, o.node_id));
            match r {
                None => forall|j: int, t: PlacementScore| 0 <= j < offers@.len() && #[trigger] scored(t, offers@[j]) ==> !t.satisfies,
                Some((bi, bs)) => bi < offers@.len() && scored(bs, offers@[bi as int]) && bs.satisfies && forall|j: int, t: PlacementScore|
                    0 <= j < offers@.len() && #[trigger] scored(t, offers@[j]) && t.satisfies ==> !rank_lt(bs, t) && (j > bi ==> rank_lt(t, bs)),
            }
        }),
{
    let ghost scored = |t: PlacementScore, o: ResourceOfferV1| topology_score_spec(t, *job, o, reservations@, *policy, now, locals_of(local_inputs_by_node@, o.node_id));
    let mut best: Option<(usize, PlacementScore)> = None;
    let mut i: usize = 0;
    while i < offers.len()
        invariant
            i <= offers@.len(),
            match best {
                None => forall|j: int, t: PlacementScore| 0 <= j < i && #[trigger] scored(t, offers@[j]) ==> !t.satisfies,
                Some((bi, bs)) => bi < i && scored(bs, offers@[bi as int]) && bs.satisfies && forall|j: int, t: PlacementScore|
                    0 <= j < i && #[trigger] scored(t, offers@[j]) && t.satisfies ==> !rank_lt(bs, t) && (j > bi ==> rank_lt(t, bs)),
            },
        decreases offers@.len() - i,
    {
        let local = find_locals(local_inputs_by_node, offers[i].node_id);
        let s = score_offer_with_topology(job, &offers[i], reservations, policy, now, &local);
        proof {
            assert forall|t: PlacementScore| #[trigger] scored(t, offers@[i as int]) implies scores_agree(t, s) by {
                let b1 = choose|b: PlacementScore| #[trigger] admission_score_spec(b, *job, offers@[i as int], reservations@, *policy, now) && true;
            }
        }
        if s.satisfies {
            let replace = match &best {
                None => true,
                Some((_, bs)) => !ranks_below(&s, bs),
            };
            if replace {
                best = Some((i, s));
            }
        }
        i = i + 1;
    }
    best
}

/// Choose the best admissible offer for a job with data locality (the digests held on each
/// node) and link evidence at `now`.
pub fn choose_offer_with_topology<'a>(
    job: &JobSpecV1,
    offers: &'a [ResourceOfferV1],
    reservations: &Vec<ResourceReservation>,
    policy: &AdmissionPolicy,
    now: i128,
    local_inputs_by_node: &Vec<(u128, Vec<String>)>,
) -> (r: Option<(&'a ResourceOfferV1, PlacementScore)>)
    requires
        inputs_total(job.inputs@) <= u64::MAX,
    ensures
        is_choice(
            offers@,
            |t: PlacementScore, o: ResourceOfferV1| topology_score_spec(t, *job, o, reservations@, *policy, now, locals_of(local_inputs_by_node@, o.node_id)),
            r,
        ),
{
    match best_offer_with_topology(job, offers, reservations, policy, now, local_inputs_by_node) {
        None => None,
        Some((bi, bs)) => Some((&offers[bi], bs)),
    }
}

/// A score with no reservations, owner reserve or guardband.
pub open spec fn bare_score_spec(score: PlacementScore, job: JobSpecV1, offer: ResourceOfferV1, now: i128) -> bool {
    exists|p: AdmissionPolicy| p.protected_owner_reserve@ == Seq::<(ResourceClass, u64)>::empty() && p.safety_guardband_percent == 0
        && #[trigger] admission_score_spec(score, job, offer, Seq::empty(), p, now)
}

/// Score one offer for a job at `now` with no reservations, owner reserve or guardband.
pub fn score_offer(job: &JobSpecV1, offer: &ResourceOfferV1, now: i128) -> (r: PlacementScore)
    requires
        inputs_total(job.inputs@) <= u64::MAX,
    ensures
        bare_score_spec(r, *job, *offer, now),
{
    let policy = AdmissionPolicy { protected_owner_reserve: Vec::new(), safety_guardband_percent: 0 };
    let reservations: Vec<ResourceReservation> = Vec::new();
    let r = score_offer_with_admission(job, offer, &reservations, &policy, now);
    assert(reservations@ =~= Seq::<ResourceReservation>::empty());
    r
}

/// Choose the best admissible offer for a job at `now` with no reservations, owner reserve or
/// guardband.
#[verifier::loop_isolation(false)]
pub fn choose_offer<'a>(job: &JobSpecV1, offers: &'a [ResourceOfferV1], now: i128) -> (r: Option<(&'a ResourceOfferV1, PlacementScore)>)
    requires
        inputs_total(job.inputs@) <= u64::MAX,
    ensures
        is_choice(offers@, |t: PlacementScore, o: ResourceOfferV1| bare_score_spec(t, *job, o, now), r),
{
    let ghost scored = |t: PlacementScore, o: ResourceOfferV1| bare_score_spec(t, *job, o, now);
    let mut best: Option<(usize, PlacementScore)> = None;
    let mut i: usize = 0;
    while i < offers.len()
        invariant
            i <= offers@.len(),
            match best {
                None => forall|j: int, t: PlacementScore| 0 <= j < i && #[trigger] scored(t, offers@[j]) ==> !t.satisfies,
                Some((bi, bs)) => bi < i && scored(bs, offers@[bi as int]) && bs.satisfies && forall|j: int, t: PlacementScore|
                    0 <= j < i && #[trigger] scored(t, offers@[j]) && t.satisfies ==> !rank_lt(bs, t) && (j > bi ==> rank_lt(t, bs)),
            },
        decreases offers@.len() - i,
    {
        let s = score_offer(job, &offers[i], now);
        proof {
            assert forall|t: PlacementScore| #[trigger] scored(t, offers@[i as int]) implies scores_agree(t, s) by {
                let p = choose|p: AdmissionPolicy| p.protected_owner_reserve@ == Seq::<(ResourceClass, u64)>::empty() && p.safety_guardband_percent == 0
                    && #[trigger] admission_score_spec(t, *job, offers@[i as int], Seq::empty(), p, now);
                let q = choose|p: AdmissionPolicy| p.protected_owner_reserve@ == Seq::<(ResourceClass, u64)>::empty() && p.safety_guardband_percent == 0
                    && #[trigger] admission_score_spec(s, *job, offers@[i as int], Seq::empty(), p, now);
                lemma_admission_policy_view(t, s, *job, offers@[i as int], Seq::empty(), p, q, now);
            }
        }
        if s.satisfies {
            let replace = match &best {
                None => true,
                Some((_, bs)) => !ranks_below(&s, bs),
            };
            if replace {
                best = Some((i, s));
            }
        }
        i = i + 1;
    }
    match best {
        None => None,
        Some((bi, bs)) => Some((&offers[bi], bs)),
    }
}

proof fn lemma_requests_verdict_policy_view(
    job: JobSpecV1,
    offer: ResourceOfferV1,
    reservations: Seq<ResourceReservation>,
    p: AdmissionPolicy,
    q: AdmissionPolicy,
    now: i128,
    n: int,
)
    requires
        p.protected_owner_reserve@ == q.protected_owner_reserve@,
        p.safety_guardband_percent == q.safety_guardband_percent,
    ensures
        requests_verdict(job, offer, reservations, p, now, n) == requests_verdict(job, offer, reservations, q, now, n),
    decreases n,
{
    if n > 0 {
        lemma_requests_verdict_policy_view(job, offer, reservations, p, q, now, n - 1);
    }
}

proof fn lemma_admission_policy_view(
    t: PlacementScore,
    s: PlacementScore,
    job: JobSpecV1,
    offer: ResourceOfferV1,
    reservations: Seq<ResourceReservation>,
    p: AdmissionPolicy,
    q: AdmissionPolicy,
    now: i128,
)
    requires
        p.protected_owner_reserve@ == q.protected_owner_reserve@,
        p.safety_guardband_percent == q.safety_guardband_percent,
        admission_score_spec(t, job, offer, reservations, p, now),
        admission_score_spec(s, job, offer, reservations, q, now),
    ensures
        scores_agree(t, s),
{
    lemma_requests_verdict_policy_view(job, offer, reservations, p, q, now, job.requests@.len() as int);
}
/// The reservations a placement of `job` on `node_id` holds: each request's minimum, until the
/// earlier of the set's and the job's deadlines.
pub open spec fn shard_reservations(job: JobSpecV1, node_id: u128, set_deadline: i128) -> Seq<ResourceReservation> {
    Seq::new(job.requests@.len(), |k: int| ResourceReservation {
        job_id: job.job_id,
        node_id,
        class: job.requests@[k].class,
        amount: job.requests@[k].minimum,
        expires_at: if set_deadline < job.deadline { set_deadline } else { job.deadline },
    })
}

/// The live reservations at `now`, in order.
pub open spec fn live_reservations(reservations: Seq<ResourceReservation>, now: i128) -> Seq<ResourceReservation>
    decreases reservations.len(),
{
    if reservations.len() == 0 {
        Seq::empty()
    } else {
        let rest = live_reservations(reservations.drop_last(), now);
        if reservations.last().expires_at > now { rest.push(reservations.last()) } else { rest }
    }
}

/// The provisional reservation book after the first `k` shards are placed on `nodes`: the live
/// reservations, then each placed shard's reservations in order.
pub open spec fn shard_book(set: ShardSetV1, nodes: Seq<u128>, base: Seq<ResourceReservation>, k: int) -> Seq<ResourceReservation>
    decreases k,
{
    if k <= 0 {
        base
    } else {
        shard_book(set, nodes, base, k - 1) + shard_reservations(set.shards@[k - 1], nodes[k - 1], set.deadline)
    }
}

/// The digests of a job's inputs held on a node: the first entry for the pair, none otherwise.
pub open spec fn locals_of_pair(by_pair: Seq<((u128, u128), Vec<String>)>, job_id: u128, node_id: u128) -> Seq<String>
    decreases by_pair.len(),
{
    if by_pair.len() == 0 {
        Seq::empty()
    } else if by_pair[0].0 == (job_id, node_id) {
        by_pair[0].1@
    } else {
        locals_of_pair(by_pair.skip(1), job_id, node_id)
    }
}

/// The topology score of shard `k` against the provisional book.
pub open spec fn shard_scored(
    set: ShardSetV1,
    policy: AdmissionPolicy,
    now: i128,
    by_pair: Seq<((u128, u128), Vec<String>)>,
    book: Seq<ResourceReservation>,
    k: int,
) -> spec_fn(PlacementScore, ResourceOfferV1) -> bool {
    |t: PlacementScore, o: ResourceOfferV1| topology_score_spec(t, set.shards@[k], o, book, policy, now, locals_of_pair(by_pair, set.shards@[k].job_id, o.node_id))
}

/// Shard `k` placed as `placement`: on the offer that is the choice for it against the book of
/// the shards placed before it.
pub open spec fn shard_placed(
    set: ShardSetV1,
    offers: Seq<ResourceOfferV1>,
    policy: AdmissionPolicy,
    now: i128,
    by_pair: Seq<((u128, u128), Vec<String>)>,
    book: Seq<ResourceReservation>,
    k: int,
    placement: ShardPlacement,
) -> bool {
    let scored = shard_scored(set, policy, now, by_pair, book, k);
    &&& placement.job_id == set.shards@[k].job_id
    &&& exists|i: int| #![trigger offers[i]] 0 <= i < offers.len() && offers[i].node_id == placement.node_id
        && scored(placement.score, offers[i]) && placement.score.satisfies
        && forall|j: int, t: PlacementScore| 0 <= j < offers.len() && #[trigger] scored(t, offers[j]) && t.satisfies
            ==> !rank_lt(placement.score, t) && (j > i ==> rank_lt(t, placement.score))
}

fn find_locals_for(by_pair: &Vec<((u128, u128), Vec<String>)>, job_id: u128, node_id: u128) -> (r: Vec<(u128, Vec<String>)>)
    ensures
        r@.len() == 1,
        r@[0].0 == node_id,
        r@[0].1@ == locals_of_pair(by_pair@, job_id, node_id),
{
    let mut i: usize = 0;
    assert(by_pair@.skip(0) =~= by_pair@);
    while i < by_pair.len()
        invariant
            i <= by_pair@.len(),
            locals_of_pair(by_pair@, job_id, node_id) == locals_of_pair(by_pair@.skip(i as int), job_id, node_id),
        decreases by_pair@.len() - i,
    {
        proof {
            assert(by_pair@.skip(i as int).skip(1) =~= by_pair@.skip(i + 1));
        }
        if by_pair[i].0.0 == job_id && by_pair[i].0.1 == node_id {
            return vec![(node_id, by_pair[i].1.clone())];
        }
        i = i + 1;
    }
    vec![(node_id, Vec::new())]
}

/// The locality table of one shard: each offer's node with the shard's digests held there.
fn shard_locality(offers: &[ResourceOfferV1], by_pair: &Vec<((u128, u128), Vec<String>)>, job_id: u128) -> (r: Vec<(u128, Vec<String>)>)
    ensures
        forall|j: int| 0 <= j < offers@.len() ==> locals_of(r@, (#[trigger] offers@[j]).node_id) == locals_of_pair(by_pair@, job_id, offers@[j].node_id),
{
    let mut table: Vec<(u128, Vec<String>)> = Vec::new();
    let mut i: usize = 0;
    while i < offers.len()
        invariant
            i <= offers@.len(),
            table@.len() == i,
            forall|j: int| 0 <= j < i ==> (#[trigger] table@[j]).0 == offers@[j].node_id,
            forall|t: int| 0 <= t < table@.len() ==> (#[trigger] table@[t]).1@ == locals_of_pair(by_pair@, job_id, table@[t].0),
        decreases offers@.len() - i,
    {
        let mut entry = find_locals_for(by_pair, job_id, offers[i].node_id);
        let ghost before = table@;
        table.append(&mut entry);
        proof {
            assert forall|t: int| 0 <= t < table@.len() implies (#[trigger] table@[t]).1@ == locals_of_pair(by_pair@, job_id, table@[t].0) by {
                if t < before.len() {
                    assert(table@[t] == before[t]);
                }
            }
            assert forall|j: int| 0 <= j < i + 1 implies (#[trigger] table@[j]).0 == offers@[j].node_id by {
                if j < before.len() {
                    assert(table@[j] == before[j]);
                }
            }
        }
        i = i + 1;
    }
    proof {
        assert forall|j: int| 0 <= j < offers@.len() implies locals_of(table@, (#[trigger] offers@[j]).node_id) == locals_of_pair(by_pair@, job_id, offers@[j].node_id) by {
            assert(table@[j].0 == offers@[j].node_id);
            lemma_locals_all_match(table@, by_pair@, job_id, offers@[j].node_id);
        }
    }
    table
}

/// Every entry of a table holds the digests of its own node, so a lookup of a node with an
/// entry gives them.
proof fn lemma_locals_all_match(table: Seq<(u128, Vec<String>)>, by_pair: Seq<((u128, u128), Vec<String>)>, job_id: u128, n: u128)
    requires
        forall|t: int| 0 <= t < table.len() ==> (#[trigger] table[t]).1@ == locals_of_pair(by_pair, job_id, table[t].0),
    ensures
        (exists|t: int| 0 <= t < table.len() && table[t].0 == n) ==> locals_of(table, n) == locals_of_pair(by_pair, job_id, n),
    decreases table.len(),
{
    if table.len() > 0 {
        if table[0].0 != n {
            assert forall|t: int| 0 <= t < table.skip(1).len() implies (#[trigger] table.skip(1)[t]).1@ == locals_of_pair(by_pair, job_id, table.skip(1)[t].0) by {
                assert(table.skip(1)[t] == table[t + 1]);
            }
            lemma_locals_all_match(table.skip(1), by_pair, job_id, n);
            if exists|t: int| 0 <= t < table.len() && table[t].0 == n {
                let t = choose|t: int| 0 <= t < table.len() && table[t].0 == n;
                assert(t > 0);
                assert(table.skip(1)[t - 1].0 == n);
            }
        } else {
            assert(table[0].1@ == locals_of_pair(by_pair, job_id, table[0].0));
        }
    }
}


/// The nodes of a run of placements.
pub open spec fn placement_nodes(placements: Seq<ShardPlacement>) -> Seq<u128> {
    Seq::new(placements.len(), |k: int| placements[k].node_id)
}

/// Every shard of a set has inputs whose total size a `u64` holds.
pub open spec fn shard_inputs_bounded(set: ShardSetV1) -> bool {
    forall|k: int| 0 <= k < set.shards@.len() ==> inputs_total((#[trigger] set.shards@[k]).inputs@) <= u64::MAX
}

/// Plan every shard of a set at `now` against one evolving reservation book: live reservations
/// first, then each placed shard's minimum requests on its node until the earlier of the set's
/// and the shard's deadlines. Each shard goes to its best offer under the book so far; a shard
/// with no admissible offer fails the whole plan, and no partial plan is returned.
#[verifier::loop_isolation(false)]
pub fn plan_shard_set(
    set: &ShardSetV1,
    offers: &[ResourceOfferV1],
    reservations: &Vec<ResourceReservation>,
    policy: &AdmissionPolicy,
    now: i128,
    local_inputs_by_job_and_node: &Vec<((u128, u128), Vec<String>)>,
) -> (r: Result<Vec<ShardPlacement>, ShardPlanningFailure>)
    requires
        shard_inputs_bounded(*set),
    ensures
        ({
            let base = live_reservations(reservations@, now);
            let by_pair = local_inputs_by_job_and_node@;
            match r {
                Ok(ps) => ps@.len() == set.shards@.len() && forall|k: int| 0 <= k < ps@.len() ==> #[trigger] shard_placed(
                    *set, offers@, *policy, now, by_pair, shard_book(*set, placement_nodes(ps@), base, k), k, ps@[k]),
                Err(f) => f.planned_shards < set.shards@.len()
                    && f.blocked_job_id == set.shards@[f.planned_shards as int].job_id
                    && f.reason@ == "no admissible offer after provisional shard reservations"@
                    && exists|ps: Seq<ShardPlacement>| ps.len() == f.planned_shards
                        && (forall|k: int| 0 <= k < ps.len() ==> #[trigger] shard_placed(*set, offers@, *policy, now, by_pair,
                            shard_book(*set, placement_nodes(ps), base, k), k, ps[k]))
                        && (forall|j: int, t: PlacementScore| 0 <= j < offers@.len() && #[trigger] shard_scored(*set, *policy, now, by_pair,
                            shard_book(*set, placement_nodes(ps), base, f.planned_shards as int), f.planned_shards as int)(t, offers@[j]) ==> !t.satisfies),
            }
        }),
{
    let ghost base = live_reservations(reservations@, now);
    let ghost by_pair = local_inputs_by_job_and_node@;
    let mut provisional: Vec<ResourceReservation> = Vec::new();
    let mut i: usize = 0;
    while i < reservations.len()
        invariant
            i <= reservations@.len(),
            provisional@ == live_reservations(reservations@.take(i as int), now),
        decreases reservations@.len() - i,
    {
        proof {
            assert(reservations@.take(i + 1).drop_last() =~= reservations@.take(i as int));
        }
        if reservations[i].expires_at > now {
            provisional.push(reservations[i]);
        }
        i = i + 1;
    }
    proof {
        assert(reservations@.take(reservations@.len() as int) =~= reservations@);
    }
    let mut placements: Vec<ShardPlacement> = Vec::new();
    let mut k: usize = 0;
    while k < set.shards.len()
        invariant
            k <= set.shards@.len(),
            placements@.len() == k,
            provisional@ == shard_book(*set, placement_nodes(placements@), base, k as int),
            forall|m: int| 0 <= m < k ==> #[trigger] shard_placed(*set, offers@, *policy, now, by_pair,
                shard_book(*set, placement_nodes(placements@), base, m), m, placements@[m]),
        decreases set.shards@.len() - k,
    {
        let job = &set.shards[k];
        let locality = shard_locality(offers, local_inputs_by_job_and_node, job.job_id);
        let ghost book = provisional@;
        let ghost scored = shard_scored(*set, *policy, now, by_pair, book, k as int);
        proof {
            assert(inputs_total(job.inputs@) <= u64::MAX);
        }
        let chosen = choose_offer_with_topology(job, offers, &provisional, policy, now, &locality);
        let ghost topo = |t: PlacementScore, o: ResourceOfferV1| topology_score_spec(t, *job, o, book, *policy, now, locals_of(locality@, o.node_id));
        assert(is_choice(offers@, topo, chosen));
        proof {
            assert forall|j: int, t: PlacementScore| 0 <= j < offers@.len() implies
                (topology_score_spec(t, *job, offers@[j], book, *policy, now, locals_of(locality@, offers@[j].node_id)) == #[trigger] scored(t, offers@[j])) by {
                assert(locals_of(locality@, offers@[j].node_id) == locals_of_pair(by_pair, job.job_id, offers@[j].node_id));
            }
        }
        match chosen {
            None => {
                proof {
                    let ps = placements@;
                    assert forall|j: int, t: PlacementScore| 0 <= j < offers@.len() && #[trigger] shard_scored(*set, *policy, now, by_pair,
                        shard_book(*set, placement_nodes(ps), base, k as int), k as int)(t, offers@[j]) implies !t.satisfies by {
                        assert(topo(t, offers@[j]));
                    }
                }
                return Err(ShardPlanningFailure {
                    blocked_job_id: job.job_id,
                    planned_shards: placements.len(),
                    reason: "no admissible offer after provisional shard reservations".to_string(),
                });
            },
            Some((offer, score)) => {
                let node_id = offer.node_id;
                let expires_at = if set.deadline < job.deadline { set.deadline } else { job.deadline };
                let ghost before = provisional@;
                let mut q: usize = 0;
                while q < job.requests.len()
                    invariant
                        q <= job.requests@.len(),
                        provisional@ == before + shard_reservations(*job, node_id, set.deadline).take(q as int),
                    decreases job.requests@.len() - q,
                {
                    provisional.push(ResourceReservation {
                        job_id: job.job_id,
                        node_id,
                        class: job.requests[q].class,
                        amount: job.requests[q].minimum,
                        expires_at,
                    });
                    proof {
                        assert(shard_reservations(*job, node_id, set.deadline).take(q + 1) =~= shard_reservations(*job, node_id, set.deadline).take(q as int).push(
                            shard_reservations(*job, node_id, set.deadline)[q as int]));
                    }
                    q = q + 1;
                }
                proof {
                    assert(shard_reservations(*job, node_id, set.deadline).take(job.requests@.len() as int) =~= shard_reservations(*job, node_id, set.deadline));
                }
                let placement = ShardPlacement { job_id: job.job_id, node_id, score };
                let ghost old_placements = placements@;
                placements.push(placement);
                proof {
                    assert forall|m: int| 0 <= m <= k implies shard_book(*set, placement_nodes(placements@), base, m) == shard_book(*set, placement_nodes(old_placements), base, m) by {
                        lemma_shard_book_prefix(*set, placement_nodes(placements@), placement_nodes(old_placements), base, m);
                    }
                    let i = choose|i: int| #![trigger offers@[i]] 0 <= i < offers@.len() && *offer == offers@[i] && topo(score, offers@[i]) && score.satisfies
                        && forall|j: int, t: PlacementScore| 0 <= j < offers@.len() && #[trigger] topo(t, offers@[j]) && t.satisfies ==> !rank_lt(score, t)
                        && (j > i ==> rank_lt(t, score));
                    assert(scored(placement.score, offers@[i]));
                    assert forall|j: int, t: PlacementScore| 0 <= j < offers@.len() && #[trigger] scored(t, offers@[j]) && t.satisfies implies
                        !rank_lt(placement.score, t) && (j > i ==> rank_lt(t, placement.score)) by {
                        assert(topo(t, offers@[j]));
                    }
                    assert(shard_placed(*set, offers@, *policy, now, by_pair, book, k as int, placement));
                    assert(shard_book(*set, placement_nodes(placements@), base, k + 1) == book + shard_reservations(*job, node_id, set.deadline));
                    assert forall|m: int| 0 <= m < k + 1 implies #[trigger] shard_placed(*set, offers@, *policy, now, by_pair,
                        shard_book(*set, placement_nodes(placements@), base, m), m, placements@[m]) by {
                        if m < k {
                            assert(placements@[m] == old_placements[m]);
                            assert(shard_placed(*set, offers@, *policy, now, by_pair,
                                shard_book(*set, placement_nodes(old_placements), base, m), m, old_placements[m]));
                        } else {
                            assert(placements@[m] == placement);
                        }
                    }
                }
            },
        }
        k = k + 1;
    }
    Ok(placements)
}

proof fn lemma_shard_book_prefix(set: ShardSetV1, a: Seq<u128>, b: Seq<u128>, base: Seq<ResourceReservation>, m: int)
    requires
        m <= b.len(),
        b.len() <= a.len(),
        forall|t: int| 0 <= t < b.len() ==> a[t] == b[t],
    ensures
        shard_book(set, a, base, m) == shard_book(set, b, base, m),
    decreases m,
{
    if m > 0 {
        lemma_shard_book_prefix(set, a, b, base, m - 1);
    }
}

/// The available amount of the first byte-denominated resource of a class, zero if none.
pub open spec fn resource_available_spec(resources: Seq<ResourceQuantityV1>, class: ResourceClass) -> u64
    decreases resources.len(),
{
    if resources.len() == 0 {
        0
    } else if resources[0].class == class && resources[0].unit@ == "byte"@ {
        resources[0].available
    } else {
        resource_available_spec(resources.skip(1), class)
    }
}

pub fn resource_available(offer: &ResourceOfferV1, class: ResourceClass) -> (r: u64)
    ensures
        r == resource_available_spec(offer.resources@, class),
{
    let mut i: usize = 0;
    assert(offer.resources@.skip(0) =~= offer.resources@);
    while i < offer.resources.len()
        invariant
            i <= offer.resources@.len(),
            resource_available_spec(offer.resources@, class) == resource_available_spec(offer.resources@.skip(i as int), class),
        decreases offer.resources@.len() - i,
    {
        proof {
            assert(offer.resources@.skip(i as int).skip(1) =~= offer.resources@.skip(i + 1));
            reveal_strlit("byte");
        }
        if offer.resources[i].class == class && text_eq(offer.resources[i].unit.as_str(), "byte") {
            return offer.resources[i].available;
        }
        i = i + 1;
    }
    0
}

/// The model memory an offer shows: the larger of its GPU memory and its working-set RAM.
pub open spec fn observed_model_memory_spec(offer: ResourceOfferV1) -> u64 {
    let gpu = resource_available_spec(offer.resources@, ResourceClass::GpuMemory);
    let ram = resource_available_spec(offer.resources@, ResourceClass::RamWorkingSet);
    if gpu > ram { gpu } else { ram }
}

pub fn observed_model_memory(offer: &ResourceOfferV1) -> (r: u64)
    ensures
        r == observed_model_memory_spec(*offer),
{
    let gpu = resource_available(offer, ResourceClass::GpuMemory);
    let ram = resource_available(offer, ResourceClass::RamWorkingSet);
    if gpu > ram { gpu } else { ram }
}

/// The model bytes a runtime can use on its offer: what it advertises, capped by the memory of
/// its kind that the offer shows (GPU memory, RAM, or both on one machine, clamped).
pub open spec fn runtime_capacity_spec(offer: ResourceOfferV1, runtime: ModelRuntimeOfferV1) -> u64 {
    let gpu = resource_available_spec(offer.resources@, ResourceClass::GpuMemory);
    let ram = resource_available_spec(offer.resources@, ResourceClass::RamWorkingSet);
    let observed: int = match runtime.memory_kind {
        ModelMemoryKind::DedicatedGpu => gpu as int,
        ModelMemoryKind::Unified | ModelMemoryKind::Host => ram as int,
        ModelMemoryKind::Hybrid => clamp_u64(gpu + ram),
    };
    if runtime.available_model_bytes < observed { runtime.available_model_bytes } else { observed as u64 }
}

pub fn runtime_capacity(offer: &ResourceOfferV1, runtime: &ModelRuntimeOfferV1) -> (r: u64)
    ensures
        r == runtime_capacity_spec(*offer, *runtime),
{
    let observed = match runtime.memory_kind {
        ModelMemoryKind::DedicatedGpu => resource_available(offer, ResourceClass::GpuMemory),
        ModelMemoryKind::Unified | ModelMemoryKind::Host => resource_available(offer, ResourceClass::RamWorkingSet),
        ModelMemoryKind::Hybrid => resource_available(offer, ResourceClass::GpuMemory).saturating_add(
            resource_available(offer, ResourceClass::RamWorkingSet),
        ),
    };
    if runtime.available_model_bytes < observed { runtime.available_model_bytes } else { observed }
}

/// How much is known of an offer's link to the controller.
pub open spec fn topology_confidence_spec(offer: ResourceOfferV1) -> Seq<char> {
    if offer.mesh_endpoint is None {
        "controller_local"@
    } else if offer.link_benchmark is Some {
        "measured"@
    } else {
        "unmeasured"@
    }
}

pub fn topology_confidence(offer: &ResourceOfferV1) -> (r: &'static str)
    ensures
        r@ == topology_confidence_spec(*offer),
{
    if offer.mesh_endpoint.is_none() {
        "controller_local"
    } else if offer.link_benchmark.is_some() {
        "measured"
    } else {
        "unmeasured"
    }
}

/// A link good enough for distributed launch: the controller's own node, or at most 25 ms and
/// at least 250 Mbit/s each way.
pub open spec fn topology_ready_spec(offer: ResourceOfferV1) -> bool {
    offer.mesh_endpoint is None || (offer.link_benchmark matches Some(link) && link.rtt_micros_p50 <= 25_000
        && link.uplink_bps >= 250_000_000 && link.downlink_bps >= 250_000_000)
}

pub fn topology_ready(offer: &ResourceOfferV1) -> (r: bool)
    ensures
        r == topology_ready_spec(*offer),
{
    offer.mesh_endpoint.is_none() || match &offer.link_benchmark {
        Some(link) => link.rtt_micros_p50 <= 25_000 && link.uplink_bps >= 250_000_000 && link.downlink_bps >= 250_000_000,
        None => false,
    }
}

/// A link good enough for a tensor-parallel speedup: the controller's own node, or at most 5 ms
/// and at least 1 Gbit/s each way.
pub open spec fn speed_topology_ready_spec(offer: ResourceOfferV1) -> bool {
    offer.mesh_endpoint is None || (offer.link_benchmark matches Some(link) && link.rtt_micros_p50 <= 5_000
        && link.uplink_bps >= 1_000_000_000 && link.downlink_bps >= 1_000_000_000)
}

pub fn speed_topology_ready(offer: &ResourceOfferV1) -> (r: bool)
    ensures
        r == speed_topology_ready_spec(*offer),
{
    offer.mesh_endpoint.is_none() || match &offer.link_benchmark {
        Some(link) => link.rtt_micros_p50 <= 5_000 && link.uplink_bps >= 1_000_000_000 && link.downlink_bps >= 1_000_000_000,
        None => false,
    }
}

/// The worst round trip among the measured links of a group of offers (zero if none).
pub open spec fn worst_rtt(offers: Seq<ResourceOfferV1>) -> u64
    decreases offers.len(),
{
    if offers.len() == 0 {
        0
    } else {
        let rest = worst_rtt(offers.drop_last());
        match offers.last().link_benchmark {
            Some(link) => if link.rtt_micros_p50 > rest { link.rtt_micros_p50 } else { rest },
            None => rest,
        }
    }
}

/// The slowest direction among the measured links of a group of offers (`u64::MAX` if none).
pub open spec fn slowest_link(offers: Seq<ResourceOfferV1>) -> u64
    decreases offers.len(),
{
    if offers.len() == 0 {
        u64::MAX
    } else {
        let rest = slowest_link(offers.drop_last());
        match offers.last().link_benchmark {
            Some(link) => {
                let l = if link.uplink_bps < link.downlink_bps { link.uplink_bps } else { link.downlink_bps };
                if l < rest { l } else { rest }
            },
            None => rest,
        }
    }
}

/// The conservative tensor-parallel speedup, in thousandths, of a group of nodes: none (one
/// thousand) for fewer than two nodes or any node off a fast link; otherwise the node count times
/// an efficiency of 0.85 (1 ms, 10 Gbit/s), 0.65 (2.5 ms, 2.5 Gbit/s) or 0.40, at least one
/// thousand.
pub open spec fn tensor_speedup_spec(offers: Seq<ResourceOfferV1>) -> u64 {
    if offers.len() < 2 || !(forall|i: int| 0 <= i < offers.len() ==> speed_topology_ready_spec(#[trigger] offers[i])) {
        1_000
    } else {
        let rtt = worst_rtt(offers);
        let slow = slowest_link(offers);
        let efficiency: int = if rtt <= 1_000 && slow >= 10_000_000_000 {
            850
        } else if rtt <= 2_500 && slow >= 2_500_000_000 {
            650
        } else {
            400
        };
        let s = clamp_u64(offers.len() * efficiency);
        (if s > 1_000 { s } else { 1_000 }) as u64
    }
}

pub fn predicted_tensor_speedup_milli(offers: &Vec<&ResourceOfferV1>) -> (r: u64)
    ensures
        r == tensor_speedup_spec(offers@.map_values(|o: &ResourceOfferV1| *o)),
{
    let ghost view = offers@.map_values(|o: &ResourceOfferV1| *o);
    if offers.len() < 2 {
        return 1_000;
    }
    let mut rtt: u64 = 0;
    let mut slow: u64 = u64::MAX;
    let mut i: usize = 0;
    while i < offers.len()
        invariant
            i <= offers@.len(),
            view == offers@.map_values(|o: &ResourceOfferV1| *o),
            rtt == worst_rtt(view.take(i as int)),
            slow == slowest_link(view.take(i as int)),
            forall|j: int| 0 <= j < i ==> speed_topology_ready_spec(#[trigger] view[j]),
        decreases offers@.len() - i,
    {
        proof {
            assert(view.take(i + 1).drop_last() =~= view.take(i as int));
            assert(view[i as int] == *offers@[i as int]);
        }
        if !speed_topology_ready(offers[i]) {
            return 1_000;
        }
        match &offers[i].link_benchmark {
            Some(link) => {
                if link.rtt_micros_p50 > rtt {
                    rtt = link.rtt_micros_p50;
                }
                let l = if link.uplink_bps < link.downlink_bps { link.uplink_bps } else { link.downlink_bps };
                if l < slow {
                    slow = l;
                }
            },
            None => {},
        }
        i = i + 1;
    }
    proof {
        assert(view.take(offers@.len() as int) =~= view);
    }
    let efficiency: u64 = if rtt <= 1_000 && slow >= 10_000_000_000 {
        850
    } else if rtt <= 2_500 && slow >= 2_500_000_000 {
        650
    } else {
        400
    };
    let s = mul_clamped(offers.len() as u64, efficiency);
    if s > 1_000 { s } else { 1_000 }
}

#[derive(Debug, Clone, Copy, PartialEq, Eq, Structural)]
pub enum ModelPlanState {
    Ready,
    QualificationRequired,
    CapacityBlocked,
}

/// One node's share of a model session plan.
#[derive(Debug, Clone)]
pub struct ModelNodePlacement {
    pub node_id: u128,
    pub rank: u16,
    pub assigned_bytes: u64,
    pub available_model_bytes: u64,
    pub role: String,
    pub topology_confidence: String,
}

/// A read-only preview of where a model session would run; it carries no authority.
#[derive(Debug, Clone)]
pub struct ModelSessionPlan {
    pub schema: String,
    pub session_id: u128,
    pub strategy: ComputeStrategy,
    pub state: ModelPlanState,
    pub backend: Option<ModelBackend>,
    pub parallelism: Option<ModelParallelism>,
    pub distributed: bool,
    pub required_bytes: u64,
    pub observed_fabric_bytes: u64,
    pub maximum_supported_bytes: u64,
    pub predicted_speedup_milli: u64,
    pub placements: Vec<ModelNodePlacement>,
    pub blockers: Vec<String>,
    pub warnings: Vec<String>,
    pub proposed_local_endpoint: Option<String>,
    pub execution_authority: String,
    pub reason: String,
}

impl ModelSessionPlan {
    pub const SCHEMA: &'static str = "rampage.model-session-plan.v1";
}

/// A model runtime on an offer, by position, with the bytes it can use there.
#[derive(Debug, Clone, Copy, PartialEq, Eq, Structural)]
pub struct RuntimeCandidate {
    pub offer: usize,
    pub runtime: usize,
    pub available_bytes: u64,
}

/// Runtimes that can share one model: one backend and one compatibility key.
#[derive(Debug)]
pub struct RuntimeGroup {
    pub backend: ModelBackend,
    pub key: String,
    pub candidates: Vec<RuntimeCandidate>,
}

/// An offer that may take model work at `now`: unexpired, foreground donation allowed, at least
/// 15% thermal headroom, and on external power or at least half its battery (unknown counts as
/// full).
pub open spec fn model_offer_live(offer: ResourceOfferV1, now: i128) -> bool {
    &&& offer.expires_at > now
    &&& offer.availability.foreground_allowed
    &&& offer.availability.thermal_headroom_percent >= 15
    &&& (offer.availability.on_ac_power || match offer.availability.battery_percent {
        Some(b) => b >= 50,
        None => true,
    })
}

/// A runtime an offer can lend to model placement: the current runtime schema, advertised bytes,
/// an adapter the offer carries, and usable bytes on the offer.
pub open spec fn runtime_eligible(offer: ResourceOfferV1, runtime: ModelRuntimeOfferV1) -> bool {
    &&& runtime.schema@ == ModelRuntimeOfferV1::SCHEMA@
    &&& runtime.available_model_bytes != 0
    &&& contains_text(offer.adapters@, runtime.adapter@)
    &&& runtime_capacity_spec(offer, runtime) != 0
}

/// A candidate that names a live offer's eligible runtime of `backend` with its usable bytes.
pub open spec fn candidate_ok(offers: Seq<ResourceOfferV1>, now: i128, c: RuntimeCandidate, backend: ModelBackend) -> bool {
    &&& c.offer < offers.len()
    &&& model_offer_live(offers[c.offer as int], now)
    &&& c.runtime < offers[c.offer as int].model_runtimes@.len()
    &&& runtime_eligible(offers[c.offer as int], offers[c.offer as int].model_runtimes@[c.runtime as int])
    &&& offers[c.offer as int].model_runtimes@[c.runtime as int].backend == backend
    &&& c.available_bytes == runtime_capacity_spec(offers[c.offer as int], offers[c.offer as int].model_runtimes@[c.runtime as int])
}

/// The runtime a candidate names.
pub open spec fn candidate_runtime(offers: Seq<ResourceOfferV1>, c: RuntimeCandidate) -> ModelRuntimeOfferV1 {
    offers[c.offer as int].model_runtimes@[c.runtime as int]
}

pub open spec fn group_ok(offers: Seq<ResourceOfferV1>, now: i128, g: RuntimeGroup) -> bool {
    &&& g.candidates@.len() > 0
    &&& forall|k: int| 0 <= k < g.candidates@.len() ==> candidate_ok(offers, now, #[trigger] g.candidates@[k], g.backend)
    &&& forall|k: int| 0 <= k < g.candidates@.len() ==> (#[trigger] candidate_runtime(offers, g.candidates@[k])).compatibility_key@ == g.key@
}

/// Whether any live offer lends an eligible runtime.
pub open spec fn any_candidate(offers: Seq<ResourceOfferV1>, now: i128) -> bool {
    exists|i: int, j: int| 0 <= i < offers.len() && 0 <= j < offers[i].model_runtimes@.len() && model_offer_live(offers[i], now)
        && #[trigger] runtime_eligible(offers[i], offers[i].model_runtimes@[j])
}

/// The model memory of the live offers among the first `n`.
pub open spec fn observed_total(offers: Seq<ResourceOfferV1>, now: i128) -> int
    decreases offers.len(),
{
    if offers.len() == 0 {
        0
    } else {
        observed_total(offers.drop_last(), now) + (if model_offer_live(offers.last(), now) {
            observed_model_memory_spec(offers.last()) as int
        } else {
            0int
        })
    }
}

fn model_offer_is_live(offer: &ResourceOfferV1, now: i128) -> (r: bool)
    ensures
        r == model_offer_live(*offer, now),
{
    offer.expires_at > now && offer.availability.foreground_allowed && offer.availability.thermal_headroom_percent >= 15
        && (offer.availability.on_ac_power || match offer.availability.battery_percent {
        Some(b) => b >= 50,
        None => true,
    })
}

/// The byte order of two texts, as `str`'s `Ord` compares them.
pub open spec fn text_lt(a: Seq<u8>, b: Seq<u8>) -> bool
    decreases a.len(),
{
    if a.len() == 0 {
        b.len() > 0
    } else if b.len() == 0 {
        false
    } else if a[0] != b[0] {
        a[0] < b[0]
    } else {
        text_lt(a.skip(1), b.skip(1))
    }
}

pub open spec fn backend_index(b: ModelBackend) -> int {
    match b {
        ModelBackend::LocalOllama => 0,
        ModelBackend::ExoMlx => 1,
        ModelBackend::VllmRay => 2,
    }
}

fn backend_rank(b: ModelBackend) -> (r: u8)
    ensures
        r == backend_index(b),
{
    match b {
        ModelBackend::LocalOllama => 0,
        ModelBackend::ExoMlx => 1,
        ModelBackend::VllmRay => 2,
    }
}

pub(crate) fn bytes_lt(a: &[u8], b: &[u8]) -> (r: bool)
    ensures
        r == text_lt(a@, b@),
{
    let mut i: usize = 0;
    assert(a@.skip(0) =~= a@);
    assert(b@.skip(0) =~= b@);
    while i < a.len() && i < b.len()
        invariant
            i <= a@.len(),
            i <= b@.len(),
            text_lt(a@, b@) == text_lt(a@.skip(i as int), b@.skip(i as int)),
        decreases a@.len() - i,
    {
        if a[i] != b[i] {
            return a[i] < b[i];
        }
        proof {
            assert(a@.skip(i as int).skip(1) =~= a@.skip(i + 1));
            assert(b@.skip(i as int).skip(1) =~= b@.skip(i + 1));
        }
        i = i + 1;
    }
    i == a.len() && i < b.len()
}

pub(crate) proof fn lemma_text_lt_irreflexive(a: Seq<u8>)
    ensures
        !text_lt(a, a),
    decreases a.len(),
{
    if a.len() > 0 {
        lemma_text_lt_irreflexive(a.skip(1));
    }
}

pub(crate) proof fn lemma_text_lt_transitive(a: Seq<u8>, b: Seq<u8>, c: Seq<u8>)
    requires
        text_lt(a, b),
        text_lt(b, c),
    ensures
        text_lt(a, c),
    decreases a.len(),
{
    if a.len() > 0 && b.len() > 0 && c.len() > 0 && a[0] == b[0] && b[0] == c[0] {
        lemma_text_lt_transitive(a.skip(1), b.skip(1), c.skip(1));
    }
}

pub(crate) proof fn lemma_text_lt_total(a: Seq<u8>, b: Seq<u8>)
    requires
        a != b,
    ensures
        text_lt(a, b) || text_lt(b, a),
    decreases a.len(),
{
    if a.len() > 0 && b.len() > 0 && a[0] == b[0] {
        if a.skip(1) == b.skip(1) {
            assert(a =~= seq![a[0]] + a.skip(1));
            assert(b =~= seq![b[0]] + b.skip(1));
        }
        lemma_text_lt_total(a.skip(1), b.skip(1));
    } else if a.len() == 0 && b.len() == 0 {
        assert(a =~= b);
    }
}

proof fn lemma_group_key_lt_irreflexive(b: ModelBackend, k: Seq<char>)
    ensures
        !group_key_lt(b, k, b, k),
{
    lemma_text_lt_irreflexive(crate::text::utf8(k));
}

proof fn lemma_group_key_lt_transitive(b1: ModelBackend, k1: Seq<char>, b2: ModelBackend, k2: Seq<char>, b3: ModelBackend, k3: Seq<char>)
    requires
        group_key_lt(b1, k1, b2, k2),
        group_key_lt(b2, k2, b3, k3),
    ensures
        group_key_lt(b1, k1, b3, k3),
{
    if b1 == b2 && b2 == b3 {
        lemma_text_lt_transitive(crate::text::utf8(k1), crate::text::utf8(k2), crate::text::utf8(k3));
    }
}

proof fn lemma_group_key_lt_total(b1: ModelBackend, k1: Seq<char>, b2: ModelBackend, k2: Seq<char>)
    requires
        !(b1 == b2 && k1 == k2),
    ensures
        group_key_lt(b1, k1, b2, k2) || group_key_lt(b2, k2, b1, k1),
{
    if b1 == b2 {
        if b1 is LocalOllama {} else if b1 is ExoMlx {} else {}
        vstd::utf8::encode_utf8_decode_utf8(k1);
        vstd::utf8::encode_utf8_decode_utf8(k2);
        lemma_text_lt_total(crate::text::utf8(k1), crate::text::utf8(k2));
    } else {
        match b1 {
            ModelBackend::LocalOllama => {},
            ModelBackend::ExoMlx => {},
            ModelBackend::VllmRay => {},
        }
    }
}

/// Whether groups come in key order: by backend, then by key text.
pub open spec fn keys_in_order(groups: Seq<RuntimeGroup>) -> bool {
    forall|t: int, u: int| 0 <= t < u < groups.len() ==> group_key_lt((#[trigger] groups[t]).backend, groups[t].key@,
        (#[trigger] groups[u]).backend, groups[u].key@)
}

/// Whether group key `(b1, k1)` orders before `(b2, k2)`: by backend, then by key text.
pub open spec fn group_key_lt(b1: ModelBackend, k1: Seq<char>, b2: ModelBackend, k2: Seq<char>) -> bool {
    backend_index(b1) < backend_index(b2) || (b1 == b2 && text_lt(crate::text::utf8(k1), crate::text::utf8(k2)))
}

/// Whether candidate `c` names a live offer's eligible runtime of `backend` under compatibility
/// key `key`.
pub open spec fn lends_as(offers: Seq<ResourceOfferV1>, now: i128, c: RuntimeCandidate, backend: ModelBackend, key: Seq<char>) -> bool {
    &&& candidate_ok(offers, now, c, backend)
    &&& candidate_runtime(offers, c).compatibility_key@ == key
}

/// Whether `a` comes before `b` in offer order, then runtime order.
pub open spec fn arrives_before(a: RuntimeCandidate, b: RuntimeCandidate) -> bool {
    a.offer < b.offer || (a.offer == b.offer && a.runtime < b.runtime)
}

/// Whether candidates come in strict arrival order.
pub open spec fn in_arrival_order(cs: Seq<RuntimeCandidate>) -> bool {
    forall|a: int, b: int| 0 <= a < b < cs.len() ==> arrives_before(#[trigger] cs[a], #[trigger] cs[b])
}

/// Whether candidates of equal usable bytes keep arrival order (so none occurs twice).
pub open spec fn ties_in_arrival(cs: Seq<RuntimeCandidate>) -> bool {
    forall|a: int, b: int| 0 <= a < b < cs.len() && cs[a].available_bytes == cs[b].available_bytes
        ==> arrives_before(#[trigger] cs[a], #[trigger] cs[b])
}

/// Whether some group of backend `b` and key `key` holds candidate `c`.
pub open spec fn held_in(groups: Seq<RuntimeGroup>, b: ModelBackend, key: Seq<char>, c: RuntimeCandidate) -> bool {
    exists|t: int| 0 <= t < groups.len() && groups[t].backend == b && groups[t].key@ == key && (#[trigger] groups[t]).candidates@.contains(c)
}

/// Whether no two groups share backend and key.
pub open spec fn keys_distinct(groups: Seq<RuntimeGroup>) -> bool {
    forall|t: int, u: int| 0 <= t < u < groups.len() ==> !((#[trigger] groups[t]).backend == (#[trigger] groups[u]).backend
        && groups[t].key@ == groups[u].key@)
}

/// The runtime groups of the live offers at `now`: one group per backend and compatibility key,
/// in key order (backend, then key text), each holding the runtimes lent under it by usable bytes, largest first (ties in arrival
/// order), cut to `max_nodes`; a runtime missing from its group was cut, behind `max_nodes`
/// members with at least its bytes.
pub open spec fn collected_groups(offers: Seq<ResourceOfferV1>, now: i128, max_nodes: u16, groups: Seq<RuntimeGroup>) -> bool {
    &&& forall|t: int| 0 <= t < groups.len() ==> group_sound(offers, now, #[trigger] groups[t], max_nodes)
        && sorted_desc(groups[t].candidates@) && ties_in_arrival(groups[t].candidates@)
    &&& keys_distinct(groups)
    &&& keys_in_order(groups)
    &&& forall|c: RuntimeCandidate, b: ModelBackend, key: Seq<char>| #[trigger] lends_as(offers, now, c, b, key) ==> exists|t: int|
        0 <= t < groups.len() && groups[t].backend == b && groups[t].key@ == key && ((#[trigger] groups[t]).candidates@.contains(c)
        || (groups[t].candidates@.len() == max_nodes && forall|k: int| 0 <= k < groups[t].candidates@.len()
            ==> #[trigger] groups[t].candidates@[k].available_bytes >= c.available_bytes))
}

/// Insert a candidate into its group, keeping groups in key order and candidates in arrival
/// order.
#[verifier::loop_isolation(false)]
#[verifier::rlimit(80)]
fn add_candidate(groups: &mut Vec<RuntimeGroup>, backend: ModelBackend, key: &str, c: RuntimeCandidate, Ghost(offers): Ghost<Seq<ResourceOfferV1>>, Ghost(now): Ghost<i128>)
    requires
        forall|t: int| 0 <= t < old(groups)@.len() ==> group_ok(offers, now, #[trigger] old(groups)@[t]),
        candidate_ok(offers, now, c, backend),
        candidate_runtime(offers, c).compatibility_key@ == key@,
        keys_distinct(old(groups)@),
        keys_in_order(old(groups)@),
        forall|t: int| 0 <= t < old(groups)@.len() ==> in_arrival_order((#[trigger] old(groups)@[t]).candidates@),
        forall|t: int, k: int| 0 <= t < old(groups)@.len() && 0 <= k < old(groups)@[t].candidates@.len()
            ==> arrives_before(#[trigger] old(groups)@[t].candidates@[k], c),
    ensures
        forall|t: int| 0 <= t < final(groups)@.len() ==> group_ok(offers, now, #[trigger] final(groups)@[t]),
        final(groups)@.len() > 0,
        keys_distinct(final(groups)@),
        keys_in_order(final(groups)@),
        forall|t: int| 0 <= t < final(groups)@.len() ==> in_arrival_order((#[trigger] final(groups)@[t]).candidates@),
        forall|b: ModelBackend, k: Seq<char>, x: RuntimeCandidate| #[trigger] held_in(final(groups)@, b, k, x)
            <==> held_in(old(groups)@, b, k, x) || (b == backend && k == key@ && x == c),
{
    let ghost start = groups@;
    let mut i: usize = 0;
    while i < groups.len()
        invariant
            i <= groups@.len(),
            groups@ == start,
            forall|t: int| 0 <= t < i ==> !((#[trigger] groups@[t]).backend == backend && groups@[t].key@ == key@),
        decreases groups@.len() - i,
    {
        if groups[i].backend == backend && text_eq(groups[i].key.as_str(), key) {
            let mut g = groups.remove(i);
            let ghost before = g.candidates@;
            proof {
                assert(g == start[i as int]);
                assert(group_ok(offers, now, start[i as int]));
                assert(in_arrival_order(before));
            }
            g.candidates.push(c);
            proof {
                assert forall|k: int| 0 <= k < g.candidates@.len() implies candidate_ok(offers, now, #[trigger] g.candidates@[k], g.backend) by {
                    if k < before.len() {
                        assert(g.candidates@[k] == before[k]);
                    }
                }
                assert forall|k: int| 0 <= k < g.candidates@.len() implies (#[trigger] candidate_runtime(offers, g.candidates@[k])).compatibility_key@ == g.key@ by {
                    if k < before.len() {
                        assert(g.candidates@[k] == before[k]);
                    }
                }
                assert forall|a: int, b: int| 0 <= a < b < g.candidates@.len() implies arrives_before(#[trigger] g.candidates@[a], #[trigger] g.candidates@[b]) by {
                    assert(g.candidates@[a] == before[a]);
                    if b < before.len() {
                        assert(g.candidates@[b] == before[b]);
                    } else {
                        assert(arrives_before(start[i as int].candidates@[a], c));
                    }
                }
            }
            let ghost mid = groups@;
            groups.insert(i, g);
            proof {
                assert forall|t: int| 0 <= t < groups@.len() && t != i implies #[trigger] groups@[t] == start[t] by {
                    if t < i {
                        assert(groups@[t] == mid[t]);
                    } else {
                        assert(groups@[t] == mid[t - 1]);
                    }
                }
                lemma_held_update(start, groups@, i as int, backend, key@, c);
                assert forall|t: int| 0 <= t < groups@.len() implies group_ok(offers, now, #[trigger] groups@[t]) by {
                    if t != i {
                        assert(groups@[t] == start[t]);
                    }
                }
                assert forall|t: int| 0 <= t < groups@.len() implies in_arrival_order((#[trigger] groups@[t]).candidates@) by {
                    if t != i {
                        assert(groups@[t] == start[t]);
                    }
                }
                assert forall|t: int, u: int| 0 <= t < u < groups@.len() implies !((#[trigger] groups@[t]).backend == (#[trigger] groups@[u]).backend
                    && groups@[t].key@ == groups@[u].key@) by {
                    assert(groups@[t].backend == start[t].backend && groups@[t].key@ == start[t].key@);
                    assert(groups@[u].backend == start[u].backend && groups@[u].key@ == start[u].key@);
                }
                assert forall|t: int, u: int| 0 <= t < u < groups@.len() implies group_key_lt((#[trigger] groups@[t]).backend, groups@[t].key@,
                    (#[trigger] groups@[u]).backend, groups@[u].key@) by {
                    assert(groups@[t].backend == start[t].backend && groups@[t].key@ == start[t].key@);
                    assert(groups@[u].backend == start[u].backend && groups@[u].key@ == start[u].key@);
                }
            }
            return;
        }
        i = i + 1;
    }
    let mut pos: usize = 0;
    let mut before_here = false;
    while !before_here && pos < groups.len()
        invariant
            pos <= groups@.len(),
            groups@ == start,
            forall|t: int| 0 <= t < start.len() ==> !((#[trigger] start[t]).backend == backend && start[t].key@ == key@),
            forall|t: int| 0 <= t < pos ==> group_key_lt((#[trigger] start[t]).backend, start[t].key@, backend, key@),
            before_here ==> pos < start.len() && group_key_lt(backend, key@, start[pos as int].backend, start[pos as int].key@),
        decreases start.len() - pos + (if before_here { 0int } else { 1int }),
    {
        let b = backend_rank(groups[pos].backend);
        let nb = backend_rank(backend);
        proof {
            if nb == b {
                match backend { ModelBackend::LocalOllama => {}, ModelBackend::ExoMlx => {}, ModelBackend::VllmRay => {} }
                match start[pos as int].backend { ModelBackend::LocalOllama => {}, ModelBackend::ExoMlx => {}, ModelBackend::VllmRay => {} }
            }
        }
        if nb < b || (nb == b && bytes_lt(key.as_bytes(), groups[pos].key.as_str().as_bytes())) {
            before_here = true;
        } else {
            proof {
                lemma_group_key_lt_total(backend, key@, start[pos as int].backend, start[pos as int].key@);
            }
            pos = pos + 1;
        }
    }
    let g = RuntimeGroup { backend, key: key.to_string(), candidates: vec![c] };
    proof {
        assert(g.candidates@ =~= seq![c]);
    }
    groups.insert(pos, g);
    proof {
        assert(groups@ == start.insert(pos as int, g));
        lemma_held_insert(start, pos as int, g, c);
        assert forall|t: int| 0 <= t < groups@.len() implies group_ok(offers, now, #[trigger] groups@[t]) && in_arrival_order(groups@[t].candidates@) by {
            if t < pos {
                assert(groups@[t] == start[t]);
            } else if t > pos {
                assert(groups@[t] == start[t - 1]);
            }
        }
        assert forall|t: int, u: int| 0 <= t < u < groups@.len() implies !((#[trigger] groups@[t]).backend == (#[trigger] groups@[u]).backend
            && groups@[t].key@ == groups@[u].key@) by {
            if t < pos {
                assert(groups@[t] == start[t]);
            } else if t > pos {
                assert(groups@[t] == start[t - 1]);
            }
            if u < pos {
                assert(groups@[u] == start[u]);
            } else if u > pos {
                assert(groups@[u] == start[u - 1]);
            }
        }
        assert forall|t: int, u: int| 0 <= t < u < groups@.len() implies group_key_lt((#[trigger] groups@[t]).backend, groups@[t].key@,
            (#[trigger] groups@[u]).backend, groups@[u].key@) by {
            if u < pos {
                assert(groups@[t] == start[t] && groups@[u] == start[u]);
            } else if t > pos {
                assert(groups@[t] == start[t - 1] && groups@[u] == start[u - 1]);
            } else if u == pos {
                assert(groups@[t] == start[t]);
            } else if t == pos {
                assert(groups@[u] == start[u - 1]);
                if u - 1 > pos {
                    lemma_group_key_lt_transitive(backend, key@, start[pos as int].backend, start[pos as int].key@,
                        start[u - 1].backend, start[u - 1].key@);
                }
            } else {
                assert(groups@[t] == start[t] && groups@[u] == start[u - 1]);
            }
        }
    }
}

proof fn lemma_held_update(start: Seq<RuntimeGroup>, groups: Seq<RuntimeGroup>, i: int, backend: ModelBackend, key: Seq<char>, c: RuntimeCandidate)
    requires
        0 <= i < start.len(),
        groups.len() == start.len(),
        forall|t: int| 0 <= t < groups.len() && t != i ==> #[trigger] groups[t] == start[t],
        start[i].backend == backend,
        start[i].key@ == key,
        groups[i].backend == backend,
        groups[i].key@ == key,
        groups[i].candidates@ == start[i].candidates@.push(c),
    ensures
        forall|b: ModelBackend, k: Seq<char>, x: RuntimeCandidate| #[trigger] held_in(groups, b, k, x)
            <==> held_in(start, b, k, x) || (b == backend && k == key && x == c),
{
    assert forall|b: ModelBackend, k: Seq<char>, x: RuntimeCandidate| #[trigger] held_in(groups, b, k, x)
        <==> held_in(start, b, k, x) || (b == backend && k == key && x == c) by {
        let before = start[i].candidates@;
        if held_in(groups, b, k, x) {
            let t = choose|t: int| 0 <= t < groups.len() && groups[t].backend == b && groups[t].key@ == k && (#[trigger] groups[t]).candidates@.contains(x);
            if t != i {
                assert(groups[t] == start[t]);
                assert(held_in(start, b, k, x));
            } else {
                let q = choose|q: int| 0 <= q < groups[i].candidates@.len() && groups[i].candidates@[q] == x;
                if q < before.len() {
                    assert(before[q] == x);
                    assert(start[i].candidates@.contains(x));
                    assert(held_in(start, b, k, x));
                }
            }
        }
        if held_in(start, b, k, x) {
            let t = choose|t: int| 0 <= t < start.len() && start[t].backend == b && start[t].key@ == k && (#[trigger] start[t]).candidates@.contains(x);
            if t != i {
                assert(groups[t] == start[t]);
                assert(held_in(groups, b, k, x));
            } else {
                let q = choose|q: int| 0 <= q < before.len() && before[q] == x;
                assert(groups[i].candidates@[q] == x);
                assert(groups[i].candidates@.contains(x));
                assert(held_in(groups, b, k, x));
            }
        }
        if b == backend && k == key && x == c {
            assert(groups[i].candidates@[before.len() as int] == c);
            assert(groups[i].candidates@.contains(x));
            assert(held_in(groups, b, k, x));
        }
    }
}

proof fn lemma_held_insert(start: Seq<RuntimeGroup>, pos: int, g: RuntimeGroup, c: RuntimeCandidate)
    requires
        0 <= pos <= start.len(),
        g.candidates@ == seq![c],
    ensures
        forall|b: ModelBackend, k: Seq<char>, x: RuntimeCandidate| #[trigger] held_in(start.insert(pos, g), b, k, x)
            <==> held_in(start, b, k, x) || (b == g.backend && k == g.key@ && x == c),
{
    let groups = start.insert(pos, g);
    assert forall|b: ModelBackend, k: Seq<char>, x: RuntimeCandidate| #[trigger] held_in(groups, b, k, x)
        <==> held_in(start, b, k, x) || (b == g.backend && k == g.key@ && x == c) by {
        if held_in(groups, b, k, x) {
            let t = choose|t: int| 0 <= t < groups.len() && groups[t].backend == b && groups[t].key@ == k && (#[trigger] groups[t]).candidates@.contains(x);
            if t < pos {
                assert(groups[t] == start[t]);
                assert(held_in(start, b, k, x));
            } else if t > pos {
                assert(groups[t] == start[t - 1]);
                assert(held_in(start, b, k, x));
            } else {
                assert(groups[t] == g);
            }
        }
        if held_in(start, b, k, x) {
            let t = choose|t: int| 0 <= t < start.len() && start[t].backend == b && start[t].key@ == k && (#[trigger] start[t]).candidates@.contains(x);
            if t < pos {
                assert(groups[t] == start[t]);
                assert(held_in(groups, b, k, x));
            } else {
                assert(groups[t + 1] == start[t]);
                assert(held_in(groups, b, k, x));
            }
        }
        if b == g.backend && k == g.key@ && x == c {
            assert(groups[pos] == g);
            assert(g.candidates@[0] == c);
            assert(held_in(groups, b, k, x));
        }
    }
}

/// Whether every candidate of a run names a live offer's eligible runtime of `backend`.
pub open spec fn candidates_ok(offers: Seq<ResourceOfferV1>, now: i128, cs: Seq<RuntimeCandidate>, backend: ModelBackend) -> bool {
    forall|k: int| 0 <= k < cs.len() ==> candidate_ok(offers, now, #[trigger] cs[k], backend)
}

/// Whether candidates come by usable bytes, largest first.
pub open spec fn sorted_desc(cs: Seq<RuntimeCandidate>) -> bool {
    forall|a: int, b: int| 0 <= a < b < cs.len() ==> cs[a].available_bytes >= cs[b].available_bytes
}

/// Sort candidates by usable bytes, largest first, keeping arrival order among equals.
#[verifier::rlimit(40)]
fn sort_by_available_desc(cs: Vec<RuntimeCandidate>, Ghost(offers): Ghost<Seq<ResourceOfferV1>>, Ghost(now): Ghost<i128>, Ghost(backend): Ghost<ModelBackend>, Ghost(key): Ghost<Seq<char>>) -> (r: Vec<RuntimeCandidate>)
    requires
        candidates_ok(offers, now, cs@, backend),
        same_key(offers, cs@, key),
        in_arrival_order(cs@),
    ensures
        candidates_ok(offers, now, r@, backend),
        same_key(offers, r@, key),
        r@.len() == cs@.len(),
        forall|a: int, b: int| 0 <= a < b < r@.len() ==> r@[a].available_bytes >= r@[b].available_bytes,
        ties_in_arrival(r@),
        forall|x: RuntimeCandidate| cs@.contains(x) ==> #[trigger] r@.contains(x),
{
    let mut out: Vec<RuntimeCandidate> = Vec::new();
    let mut i: usize = 0;
    while i < cs.len()
        invariant
            i <= cs@.len(),
            out@.len() == i,
            candidates_ok(offers, now, cs@, backend),
            candidates_ok(offers, now, out@, backend),
            same_key(offers, cs@, key),
            same_key(offers, out@, key),
            forall|a: int, b: int| 0 <= a < b < out@.len() ==> out@[a].available_bytes >= out@[b].available_bytes,
            in_arrival_order(cs@),
            ties_in_arrival(out@),
            forall|k: int| 0 <= k < out@.len() ==> exists|m: int| 0 <= m < i && #[trigger] out@[k] == cs@[m],
            forall|m: int| 0 <= m < i ==> out@.contains(#[trigger] cs@[m]),
        decreases cs@.len() - i,
    {
        let c = cs[i];
        let mut pos: usize = 0;
        while pos < out.len() && out[pos].available_bytes >= c.available_bytes
            invariant
                pos <= out@.len(),
                forall|a: int| 0 <= a < pos ==> out@[a].available_bytes >= c.available_bytes,
            decreases out@.len() - pos,
        {
            pos = pos + 1;
        }
        let ghost before = out@;
        out.insert(pos, c);
        proof {
            assert forall|k: int| 0 <= k < out@.len() implies candidate_ok(offers, now, #[trigger] out@[k], backend) by {
                if k < pos {
                    assert(out@[k] == before[k]);
                } else if k > pos {
                    assert(out@[k] == before[k - 1]);
                } else {
                    assert(out@[k] == cs@[i as int]);
                }
            }
            assert forall|k: int| 0 <= k < out@.len() implies (#[trigger] candidate_runtime(offers, out@[k])).compatibility_key@ == key by {
                if k < pos {
                    assert(out@[k] == before[k]);
                } else if k > pos {
                    assert(out@[k] == before[k - 1]);
                } else {
                    assert(out@[k] == cs@[i as int]);
                }
            }
            assert forall|a: int, b: int| 0 <= a < b < out@.len() implies out@[a].available_bytes >= out@[b].available_bytes by {
                if b < pos {
                } else if a > pos {
                } else if a == pos {
                    if b > pos && pos < before.len() {
                        assert(!(before[pos as int].available_bytes >= c.available_bytes) || pos == before.len());
                    }
                } else {
                    // a < pos <= b
                }
            }
            assert forall|k: int| 0 <= k < out@.len() implies exists|m: int| 0 <= m < i + 1 && #[trigger] out@[k] == cs@[m] by {
                if k < pos {
                    assert(out@[k] == before[k]);
                    let m = choose|m: int| 0 <= m < i && #[trigger] before[k] == cs@[m];
                    assert(out@[k] == cs@[m]);
                } else if k > pos {
                    assert(out@[k] == before[k - 1]);
                    let m = choose|m: int| 0 <= m < i && #[trigger] before[k - 1] == cs@[m];
                    assert(out@[k] == cs@[m]);
                } else {
                    assert(out@[k] == cs@[i as int]);
                }
            }
            assert forall|m: int| 0 <= m < i + 1 implies out@.contains(#[trigger] cs@[m]) by {
                if m < i {
                    assert(before.contains(cs@[m]));
                    let q = choose|q: int| 0 <= q < before.len() && before[q] == cs@[m];
                    if q < pos {
                        assert(out@[q] == before[q]);
                    } else {
                        assert(out@[q + 1] == before[q]);
                    }
                } else {
                    assert(out@[pos as int] == cs@[i as int]);
                }
            }
            assert forall|a: int, b: int| 0 <= a < b < out@.len() && out@[a].available_bytes == out@[b].available_bytes
                implies arrives_before(#[trigger] out@[a], #[trigger] out@[b]) by {
                if b < pos {
                    assert(out@[a] == before[a] && out@[b] == before[b]);
                } else if a > pos {
                    assert(out@[a] == before[a - 1] && out@[b] == before[b - 1]);
                } else if a < pos && b > pos {
                    assert(out@[a] == before[a] && out@[b] == before[b - 1]);
                } else if a < pos && b == pos {
                    assert(out@[a] == before[a]);
                    let m = choose|m: int| 0 <= m < i && #[trigger] before[a] == cs@[m];
                    assert(arrives_before(cs@[m], cs@[i as int]));
                } else {
                    assert(out@[b] == before[b - 1]);
                    assert(before[pos as int].available_bytes < c.available_bytes);
                    assert(before[pos as int].available_bytes >= before[b - 1].available_bytes);
                }
            }
        }
        i = i + 1;
    }
    proof {
        assert forall|x: RuntimeCandidate| cs@.contains(x) implies #[trigger] out@.contains(x) by {
            let m = choose|m: int| 0 <= m < cs@.len() && cs@[m] == x;
            assert(out@.contains(cs@[m]));
        }
    }
    out
}

/// Collect the runtime groups of the live offers at `now`: each eligible runtime joins the group
/// of its backend and compatibility key; groups come in key order, each with its candidates by
/// usable bytes, largest first, cut to `max_nodes`.
#[verifier::loop_isolation(false)]
fn collect_groups(offers: &[ResourceOfferV1], now: i128, max_nodes: u16) -> (r: Vec<RuntimeGroup>)
    ensures
        forall|t: int| 0 <= t < r@.len() ==> group_sound(offers@, now, #[trigger] r@[t], max_nodes),
        forall|t: int| 0 <= t < r@.len() ==> sorted_desc((#[trigger] r@[t]).candidates@),
        (r@.len() == 0) == !any_candidate(offers@, now),
        collected_groups(offers@, now, max_nodes, r@),
{
    let groups = gather_groups(offers, now);
    order_groups(groups, Ghost(offers@), Ghost(now), max_nodes)
}

/// Gather each eligible runtime of a live offer into the group of its backend and key.
#[verifier::loop_isolation(false)]
fn gather_groups(offers: &[ResourceOfferV1], now: i128) -> (r: Vec<RuntimeGroup>)
    ensures
        forall|t: int| 0 <= t < r@.len() ==> group_ok(offers@, now, #[trigger] r@[t]),
        forall|t: int| 0 <= t < r@.len() ==> in_arrival_order((#[trigger] r@[t]).candidates@),
        keys_distinct(r@),
        keys_in_order(r@),
        forall|c: RuntimeCandidate, b: ModelBackend, key: Seq<char>| #[trigger] lends_as(offers@, now, c, b, key) ==> held_in(r@, b, key, c),
        (r@.len() == 0) == !any_candidate(offers@, now),
{
    let mut groups: Vec<RuntimeGroup> = Vec::new();
    let mut i: usize = 0;
    while i < offers.len()
        invariant
            i <= offers@.len(),
            forall|t: int| 0 <= t < groups@.len() ==> group_ok(offers@, now, #[trigger] groups@[t]),
            (groups@.len() == 0) == !(exists|a: int, b: int| 0 <= a < i && 0 <= b < offers@[a].model_runtimes@.len() && model_offer_live(offers@[a], now)
                && #[trigger] runtime_eligible(offers@[a], offers@[a].model_runtimes@[b])),
            keys_distinct(groups@),
            keys_in_order(groups@),
            forall|t: int| 0 <= t < groups@.len() ==> in_arrival_order((#[trigger] groups@[t]).candidates@),
            forall|t: int, k: int| 0 <= t < groups@.len() && 0 <= k < groups@[t].candidates@.len() ==> (#[trigger] groups@[t].candidates@[k]).offer < i,
            forall|c: RuntimeCandidate, b: ModelBackend, key: Seq<char>| #[trigger] lends_as(offers@, now, c, b, key) && c.offer < i ==> held_in(groups@, b, key, c),
        decreases offers@.len() - i,
    {
        let offer = &offers[i];
        if model_offer_is_live(offer, now) {
            let mut j: usize = 0;
            while j < offer.model_runtimes.len()
                invariant
                    j <= offer.model_runtimes@.len(),
                    *offer == offers@[i as int],
                    forall|t: int| 0 <= t < groups@.len() ==> group_ok(offers@, now, #[trigger] groups@[t]),
                    (groups@.len() == 0) == !((exists|a: int, b: int| 0 <= a < i && 0 <= b < offers@[a].model_runtimes@.len() && model_offer_live(offers@[a], now)
                        && #[trigger] runtime_eligible(offers@[a], offers@[a].model_runtimes@[b])) || (exists|b: int| 0 <= b < j
                        && #[trigger] runtime_eligible(offers@[i as int], offers@[i as int].model_runtimes@[b]))),
                    model_offer_live(offers@[i as int], now),
                    keys_distinct(groups@),
                    keys_in_order(groups@),
                    forall|t: int| 0 <= t < groups@.len() ==> in_arrival_order((#[trigger] groups@[t]).candidates@),
                    forall|t: int, k: int| 0 <= t < groups@.len() && 0 <= k < groups@[t].candidates@.len() ==> (#[trigger] groups@[t].candidates@[k]).offer < i
                        || (groups@[t].candidates@[k].offer == i && groups@[t].candidates@[k].runtime < j),
                    forall|c: RuntimeCandidate, b: ModelBackend, key: Seq<char>| #[trigger] lends_as(offers@, now, c, b, key)
                        && (c.offer < i || (c.offer == i && c.runtime < j)) ==> held_in(groups@, b, key, c),
                decreases offer.model_runtimes@.len() - j,
            {
                let runtime = &offer.model_runtimes[j];
                let basic = text_eq(runtime.schema.as_str(), ModelRuntimeOfferV1::SCHEMA) && runtime.available_model_bytes != 0
                    && vec_contains_text(&offer.adapters, runtime.adapter.as_str());
                let available = runtime_capacity(offer, runtime);
                proof {
                    assert(runtime_eligible(offers@[i as int], offers@[i as int].model_runtimes@[j as int]) == (basic && available != 0));
                }
                if basic && available != 0 {
                    let c = RuntimeCandidate { offer: i, runtime: j, available_bytes: available };
                    let ghost before = groups@;
                    add_candidate(&mut groups, runtime.backend, runtime.compatibility_key.as_str(), c, Ghost(offers@), Ghost(now));
                    proof {
                        assert forall|t: int, k: int| 0 <= t < groups@.len() && 0 <= k < groups@[t].candidates@.len() implies (#[trigger] groups@[t].candidates@[k]).offer < i
                            || (groups@[t].candidates@[k].offer == i && groups@[t].candidates@[k].runtime < j + 1) by {
                            let x = groups@[t].candidates@[k];
                            assert(groups@[t].candidates@.contains(x));
                            assert(held_in(groups@, groups@[t].backend, groups@[t].key@, x));
                            if x != c {
                                assert(held_in(before, groups@[t].backend, groups@[t].key@, x));
                                let u = choose|u: int| 0 <= u < before.len() && before[u].backend == groups@[t].backend && before[u].key@ == groups@[t].key@
                                    && (#[trigger] before[u]).candidates@.contains(x);
                                let q = choose|q: int| 0 <= q < before[u].candidates@.len() && before[u].candidates@[q] == x;
                                assert(before[u].candidates@[q] == x);
                            }
                        }
                        assert forall|x: RuntimeCandidate, b: ModelBackend, key: Seq<char>| #[trigger] lends_as(offers@, now, x, b, key)
                            && (x.offer < i || (x.offer == i && x.runtime < j + 1)) implies held_in(groups@, b, key, x) by {
                            if x.offer < i || (x.offer == i && x.runtime < j) {
                                assert(held_in(before, b, key, x));
                            } else {
                                assert(x == c);
                            }
                            assert(held_in(groups@, b, key, x));
                        }
                    }
                } else {
                    proof {
                        assert forall|x: RuntimeCandidate, b: ModelBackend, key: Seq<char>| #[trigger] lends_as(offers@, now, x, b, key)
                            && (x.offer < i || (x.offer == i && x.runtime < j + 1)) implies held_in(groups@, b, key, x) by {
                            if x.offer == i && x.runtime == j {
                                assert(runtime_eligible(offers@[i as int], offers@[i as int].model_runtimes@[j as int]));
                            }
                        }
                    }
                }
                j = j + 1;
            }
        }
        proof {
            if groups@.len() == 0 {
                assert forall|a: int, b: int| 0 <= a < i + 1 && 0 <= b < offers@[a].model_runtimes@.len() && model_offer_live(offers@[a], now)
                    implies !#[trigger] runtime_eligible(offers@[a], offers@[a].model_runtimes@[b]) by {
                }
            }
        }
        i = i + 1;
    }
    proof {
        assert forall|c: RuntimeCandidate, b: ModelBackend, key: Seq<char>| #[trigger] lends_as(offers@, now, c, b, key) implies held_in(groups@, b, key, c) by {
            assert(c.offer < offers@.len());
        }
    }
    groups
}

/// Sort each gathered group by usable bytes, largest first, and cut it to `max_nodes`.
#[verifier::loop_isolation(false)]
fn order_groups(groups: Vec<RuntimeGroup>, Ghost(offers): Ghost<Seq<ResourceOfferV1>>, Ghost(now): Ghost<i128>, max_nodes: u16) -> (r: Vec<RuntimeGroup>)
    requires
        forall|t: int| 0 <= t < groups@.len() ==> group_ok(offers, now, #[trigger] groups@[t]),
        forall|t: int| 0 <= t < groups@.len() ==> in_arrival_order((#[trigger] groups@[t]).candidates@),
        keys_distinct(groups@),
        keys_in_order(groups@),
        forall|c: RuntimeCandidate, b: ModelBackend, key: Seq<char>| #[trigger] lends_as(offers, now, c, b, key) ==> held_in(groups@, b, key, c),
    ensures
        r@.len() == groups@.len(),
        forall|t: int| 0 <= t < r@.len() ==> group_sound(offers, now, #[trigger] r@[t], max_nodes),
        forall|t: int| 0 <= t < r@.len() ==> sorted_desc((#[trigger] r@[t]).candidates@),
        collected_groups(offers, now, max_nodes, r@),
{
    let mut groups = groups;
    let mut out: Vec<RuntimeGroup> = Vec::new();
    let n = groups.len();
    let ghost all = groups@;
    assert(groups@ =~= all.skip(0));
    while groups.len() > 0
        invariant
            groups@.len() + out@.len() == n,
            n == all.len(),
            groups@ == all.skip(out@.len() as int),
            forall|t: int| 0 <= t < all.len() ==> group_ok(offers, now, #[trigger] all[t]),
            forall|t: int| 0 <= t < all.len() ==> in_arrival_order((#[trigger] all[t]).candidates@),
            forall|t: int| 0 <= t < out@.len() ==> group_sound(offers, now, #[trigger] out@[t], max_nodes),
            forall|t: int| 0 <= t < out@.len() ==> sorted_desc((#[trigger] out@[t]).candidates@),
            forall|t: int| 0 <= t < out@.len() ==> (#[trigger] out@[t]).backend == all[t].backend && out@[t].key@ == all[t].key@
                && ties_in_arrival(out@[t].candidates@) && cut_keeps(all[t].candidates@, out@[t].candidates@, max_nodes as int),
        decreases groups@.len(),
    {
        let ghost idx = out@.len() as int;
        let g = groups.remove(0);
        proof {
            assert(g == all[idx]);
            assert(group_ok(offers, now, g));
            assert(in_arrival_order(all[idx].candidates@));
            assert(groups@ =~= all.skip(idx + 1));
        }
        let ghost gkey = g.key@;
        let mut sorted = sort_by_available_desc(g.candidates, Ghost(offers), Ghost(now), Ghost(g.backend), Ghost(gkey));
        let ghost full = sorted@;
        sorted.truncate(max_nodes as usize);
        let ghost before = out@;
        out.push(RuntimeGroup { backend: g.backend, key: g.key, candidates: sorted });
        proof {
            assert forall|t: int| 0 <= t < out@.len() implies group_sound(offers, now, #[trigger] out@[t], max_nodes) by {
                if t < before.len() {
                    assert(out@[t] == before[t]);
                } else {
                    assert forall|q: int| 0 <= q < out@[t].candidates@.len() implies candidate_ok(offers, now, #[trigger] out@[t].candidates@[q], out@[t].backend) by {
                        assert(out@[t].candidates@[q] == full[q]);
                    }
                    assert forall|q: int| 0 <= q < out@[t].candidates@.len() implies (#[trigger] candidate_runtime(offers, out@[t].candidates@[q])).compatibility_key@ == out@[t].key@ by {
                        assert(out@[t].candidates@[q] == full[q]);
                    }
                }
            }
            assert forall|t: int| 0 <= t < out@.len() implies sorted_desc((#[trigger] out@[t]).candidates@) by {
                if t < before.len() {
                    assert(out@[t] == before[t]);
                } else {
                    assert forall|a: int, b: int| 0 <= a < b < out@[t].candidates@.len() implies out@[t].candidates@[a].available_bytes
                        >= out@[t].candidates@[b].available_bytes by {
                        assert(out@[t].candidates@[a] == full[a]);
                        assert(out@[t].candidates@[b] == full[b]);
                    }
                }
            }
            let cut = out@[idx].candidates@;
            assert forall|a: int, b: int| 0 <= a < b < cut.len() && cut[a].available_bytes == cut[b].available_bytes
                implies arrives_before(#[trigger] cut[a], #[trigger] cut[b]) by {
                assert(cut[a] == full[a] && cut[b] == full[b]);
            }
            assert forall|x: RuntimeCandidate| all[idx].candidates@.contains(x) && !cut.contains(x) implies cut.len() == max_nodes
                && forall|k: int| 0 <= k < cut.len() ==> #[trigger] cut[k].available_bytes >= x.available_bytes by {
                assert(full.contains(x));
                let q = choose|q: int| 0 <= q < full.len() && full[q] == x;
                if q < max_nodes {
                    assert(cut[q] == x);
                }
                assert forall|k: int| 0 <= k < cut.len() implies #[trigger] cut[k].available_bytes >= x.available_bytes by {
                    assert(cut[k] == full[k]);
                }
            }
            assert forall|t: int| 0 <= t < out@.len() implies (#[trigger] out@[t]).backend == all[t].backend && out@[t].key@ == all[t].key@
                && ties_in_arrival(out@[t].candidates@) && cut_keeps(all[t].candidates@, out@[t].candidates@, max_nodes as int) by {
                if t < before.len() {
                    assert(out@[t] == before[t]);
                }
            }
        }
    }
    proof {
        assert forall|t: int, u: int| 0 <= t < u < out@.len() implies !((#[trigger] out@[t]).backend == (#[trigger] out@[u]).backend
            && out@[t].key@ == out@[u].key@) by {
            assert(!(all[t].backend == all[u].backend && all[t].key@ == all[u].key@));
        }
        assert forall|t: int, u: int| 0 <= t < u < out@.len() implies group_key_lt((#[trigger] out@[t]).backend, out@[t].key@,
            (#[trigger] out@[u]).backend, out@[u].key@) by {
            assert(group_key_lt(all[t].backend, all[t].key@, all[u].backend, all[u].key@));
        }
        assert forall|c: RuntimeCandidate, b: ModelBackend, key: Seq<char>| #[trigger] lends_as(offers, now, c, b, key) implies exists|t: int|
            0 <= t < out@.len() && out@[t].backend == b && out@[t].key@ == key && ((#[trigger] out@[t]).candidates@.contains(c)
            || (out@[t].candidates@.len() == max_nodes && forall|k: int| 0 <= k < out@[t].candidates@.len()
                ==> #[trigger] out@[t].candidates@[k].available_bytes >= c.available_bytes)) by {
            assert(held_in(all, b, key, c));
            let t = choose|t: int| 0 <= t < all.len() && all[t].backend == b && all[t].key@ == key && (#[trigger] all[t]).candidates@.contains(c);
            assert(cut_keeps(all[t].candidates@, out@[t].candidates@, max_nodes as int));
        }
    }
    out
}

/// Whether `cut` keeps what `full` held, save members behind `m` kept ones of at least their
/// usable bytes.
pub open spec fn cut_keeps(full: Seq<RuntimeCandidate>, cut: Seq<RuntimeCandidate>, m: int) -> bool {
    forall|x: RuntimeCandidate| full.contains(x) && !cut.contains(x) ==> cut.len() == m
        && forall|k: int| 0 <= k < cut.len() ==> #[trigger] cut[k].available_bytes >= x.available_bytes
}

/// The usable bytes of a selection, summed.
pub open spec fn sel_sum(sel: Seq<RuntimeCandidate>) -> int
    decreases sel.len(),
{
    if sel.len() == 0 { 0 } else { sel_sum(sel.drop_last()) + sel.last().available_bytes }
}

/// The largest usable bytes of a selection (zero if empty).
pub open spec fn sel_max(sel: Seq<RuntimeCandidate>) -> int
    decreases sel.len(),
{
    if sel.len() == 0 {
        0
    } else {
        let m = sel_max(sel.drop_last());
        if sel.last().available_bytes > m { sel.last().available_bytes as int } else { m }
    }
}

proof fn lemma_sel_sum_bounds(sel: Seq<RuntimeCandidate>)
    ensures
        0 <= sel_sum(sel) <= sel.len() * u64::MAX,
        0 <= sel_max(sel) <= u64::MAX,
        forall|k: int| 0 <= k < sel.len() ==> sel[k].available_bytes <= sel_sum(sel),
    decreases sel.len(),
{
    if sel.len() > 0 {
        lemma_sel_sum_bounds(sel.drop_last());
        assert forall|k: int| 0 <= k < sel.len() implies sel[k].available_bytes <= sel_sum(sel) by {
            if k < sel.len() - 1 {
                assert(sel.drop_last()[k] == sel[k]);
            }
        }
    }
}

pub const NO_RUNTIME_BLOCKER: &'static str = "No signed model runtime profiles are advertised; install or qualify a governed backend bundle.";
pub const RAW_MEMORY_WARNING: &'static str = "Raw RAM/VRAM is visible, but memory is not combinable without one compatible distributed runtime.";
pub const NO_GROUP_REASON: &'static str = "The fabric has resources but no compatible model runtime group.";
pub const QUALIFICATION_BLOCKER: &'static str = "Distributed launch is fenced until every selected runtime and measured topology has a valid qualification digest.";
pub const SPEEDUP_WARNING: &'static str = "No distributed topology cleared the speedup gate; the plan avoids claiming that more nodes are faster.";
pub const REPLICA_WARNING: &'static str = "Replica placement increases concurrent throughput; it does not make one model request faster or larger.";
pub const PREVIEW_ONLY: &'static str = "none_preview_only";

/// The remaining bytes before selection member `k` takes its share of a pipeline.
pub open spec fn pipeline_remaining(sel: Seq<RuntimeCandidate>, required: int, k: int) -> int
    decreases k,
{
    if k <= 0 {
        required
    } else {
        pipeline_remaining(sel, required, k - 1) - pipeline_share(sel, required, k - 1)
    }
}

/// The bytes selection member `k` takes in a pipeline: its proportional share of the required
/// bytes (by usable bytes over the selection's total), capped by its usable bytes and what
/// remains; the last member takes what remains, up to its usable bytes.
pub open spec fn pipeline_share(sel: Seq<RuntimeCandidate>, required: int, k: int) -> int
    decreases k, 1int,
{
    let rem = if k <= 0 { required } else { pipeline_remaining(sel, required, k - 1) - pipeline_share(sel, required, k - 1) };
    let avail = sel[k].available_bytes as int;
    if k == sel.len() - 1 {
        if rem < avail { rem } else { avail }
    } else {
        let total = if sel_sum(sel) > 1 { sel_sum(sel) } else { 1 };
        let proportional = (required * avail) / total;
        let a = if proportional < avail { proportional } else { avail };
        if a < rem { a } else { rem }
    }
}

/// Placement `p` is selection member `c` at rank `k` with `assigned` bytes in `role`.
pub open spec fn placement_is(offers: Seq<ResourceOfferV1>, p: ModelNodePlacement, c: RuntimeCandidate, k: int, assigned: int, role: Seq<char>) -> bool {
    &&& p.node_id == offers[c.offer as int].node_id
    &&& p.rank == k as u16
    &&& p.assigned_bytes == assigned
    &&& p.available_model_bytes == c.available_bytes
    &&& p.role@ == role
    &&& p.topology_confidence@ == topology_confidence_spec(offers[c.offer as int])
}

/// A pipeline over a selection: member `k` at rank `k` with its pipeline share.
pub open spec fn pipeline_placements(offers: Seq<ResourceOfferV1>, sel: Seq<RuntimeCandidate>, required: int, ps: Seq<ModelNodePlacement>) -> bool {
    &&& ps.len() == sel.len()
    &&& forall|k: int| 0 <= k < sel.len() ==> placement_is(offers, #[trigger] ps[k], sel[k], k, pipeline_share(sel, required, k),
        if k == 0 { "coordinator_rank"@ } else { "model_rank"@ })
}

proof fn lemma_pipeline_bounds(sel: Seq<RuntimeCandidate>, required: int, k: int)
    requires
        required >= 0,
        0 <= k < sel.len(),
    ensures
        0 <= pipeline_share(sel, required, k) <= sel[k].available_bytes,
        pipeline_share(sel, required, k) <= pipeline_remaining(sel, required, k),
        0 <= pipeline_remaining(sel, required, k) <= required,
        pipeline_remaining(sel, required, k + 1) >= 0,
    decreases k,
{
    lemma_sel_sum_bounds(sel);
    if k > 0 {
        lemma_pipeline_bounds(sel, required, k - 1);
    }
    let total = if sel_sum(sel) > 1 { sel_sum(sel) } else { 1 };
    assert((required * sel[k].available_bytes) / total >= 0) by (nonlinear_arith)
        requires required >= 0, sel[k].available_bytes >= 0, total >= 1;
    assert(pipeline_remaining(sel, required, k + 1) == pipeline_remaining(sel, required, k) - pipeline_share(sel, required, k));
}

/// The shares of a pipeline never exceed the required bytes.
pub proof fn law_pipeline_shares_fit(sel: Seq<RuntimeCandidate>, required: int, k: int)
    requires
        required >= 0,
        0 <= k <= sel.len(),
    ensures
        pipeline_remaining(sel, required, k) == required - pipeline_prefix(sel, required, k),
        0 <= pipeline_prefix(sel, required, k) <= required,
    decreases k,
{
    if k > 0 {
        law_pipeline_shares_fit(sel, required, k - 1);
        lemma_pipeline_bounds(sel, required, k - 1);
    }
}

/// The bytes the first `k` members of a pipeline take together.
pub open spec fn pipeline_prefix(sel: Seq<RuntimeCandidate>, required: int, k: int) -> int
    decreases k,
{
    if k <= 0 { 0 } else { pipeline_prefix(sel, required, k - 1) + pipeline_share(sel, required, k - 1) }
}

fn allocate_pipeline(offers: &[ResourceOfferV1], sel: &Vec<RuntimeCandidate>, required: u64, Ghost(now): Ghost<i128>, Ghost(backend): Ghost<ModelBackend>) -> (r: Vec<ModelNodePlacement>)
    requires
        candidates_ok(offers@, now, sel@, backend),
    ensures
        pipeline_placements(offers@, sel@, required as int, r@),
{
    let mut total: u128 = 0;
    let mut i: usize = 0;
    while i < sel.len()
        invariant
            i <= sel@.len(),
            total == sel_sum(sel@.take(i as int)),
            total <= i * u64::MAX,
        decreases sel@.len() - i,
    {
        proof {
            assert(sel@.take(i + 1).drop_last() =~= sel@.take(i as int));
        }
        total = total + sel[i].available_bytes as u128;
        i = i + 1;
    }
    proof {
        assert(sel@.take(sel@.len() as int) =~= sel@);
        lemma_sel_sum_bounds(sel@);
    }
    let divisor: u128 = if total > 1 { total } else { 1 };
    let mut remaining: u64 = required;
    let mut out: Vec<ModelNodePlacement> = Vec::new();
    let mut k: usize = 0;
    while k < sel.len()
        invariant
            k <= sel@.len(),
            candidates_ok(offers@, now, sel@, backend),
            total == sel_sum(sel@),
            divisor == (if sel_sum(sel@) > 1 { sel_sum(sel@) } else { 1 }),
            remaining == pipeline_remaining(sel@, required as int, k as int),
            out@.len() == k,
            forall|q: int| 0 <= q < k ==> placement_is(offers@, #[trigger] out@[q], sel@[q], q, pipeline_share(sel@, required as int, q),
                if q == 0 { "coordinator_rank"@ } else { "model_rank"@ }),
        decreases sel@.len() - k,
    {
        let c = sel[k];
        proof {
            lemma_pipeline_bounds(sel@, required as int, k as int);
            lemma_sel_sum_bounds(sel@);
            assert(candidate_ok(offers@, now, sel@[k as int], backend));
        }
        let assigned: u64 = if k + 1 == sel.len() {
            if remaining < c.available_bytes { remaining } else { c.available_bytes }
        } else {
            assert(required as u128 * c.available_bytes as u128 <= u128::MAX) by (nonlinear_arith)
                requires required <= u64::MAX, c.available_bytes <= u64::MAX;
            let product: u128 = required as u128 * c.available_bytes as u128;
            let proportional_wide = product / divisor;
            proof {
                assert(c.available_bytes <= sel_sum(sel@));
                assert(proportional_wide <= required) by (nonlinear_arith)
                    requires proportional_wide == product / divisor, product == required as int * c.available_bytes as int,
                        c.available_bytes <= divisor, divisor >= 1, required >= 0, c.available_bytes >= 0;
            }
            let proportional = proportional_wide as u64;
            let a = if proportional < c.available_bytes { proportional } else { c.available_bytes };
            if a < remaining { a } else { remaining }
        };
        let role = if k == 0 { "coordinator_rank".to_string() } else { "model_rank".to_string() };
        let confidence = topology_confidence(&offers[c.offer]);
        let ghost before = out@;
        out.push(ModelNodePlacement {
            node_id: offers[c.offer].node_id,
            rank: k as u16,
            assigned_bytes: assigned,
            available_model_bytes: c.available_bytes,
            role,
            topology_confidence: confidence.to_string(),
        });
        proof {
            assert forall|q: int| 0 <= q < k + 1 implies placement_is(offers@, #[trigger] out@[q], sel@[q], q, pipeline_share(sel@, required as int, q),
                if q == 0 { "coordinator_rank"@ } else { "model_rank"@ }) by {
                if q < k {
                    assert(out@[q] == before[q]);
                }
            }
        }
        remaining = remaining - assigned;
        k = k + 1;
    }
    out
}

/// The usable bytes a plan can serve with a selection under a parallelism: the largest member
/// for replicas, else the members' total, clamped.
pub open spec fn max_supported_spec(sel: Seq<RuntimeCandidate>, p: ModelParallelism) -> int {
    if p == ModelParallelism::Replica { sel_max(sel) } else { clamp_u64(sel_sum(sel)) }
}

/// The shard each tensor rank holds.
pub open spec fn tensor_shard(sel: Seq<RuntimeCandidate>, required: int) -> int {
    ceil_div(required, if sel.len() > 1 { sel.len() as int } else { 1 })
}

/// Whether the required bytes fit a selection under a parallelism: one member that holds the
/// whole model for replicas and whole-model placement, every member holding its shard for tensor
/// parallelism, and the total otherwise.
pub open spec fn capacity_fits_spec(sel: Seq<RuntimeCandidate>, p: ModelParallelism, required: int) -> bool {
    match p {
        ModelParallelism::Replica | ModelParallelism::WholeModel => exists|k: int| 0 <= k < sel.len() && #[trigger] sel[k].available_bytes >= required,
        ModelParallelism::Tensor => forall|k: int| 0 <= k < sel.len() ==> #[trigger] sel[k].available_bytes >= tensor_shard(sel, required),
        _ => max_supported_spec(sel, p) >= required,
    }
}

/// Whether a selection has the evidence it needs: for a distributed plan, every runtime qualified
/// for distribution and every node on a ready link; otherwise every runtime shipped or qualified.
pub open spec fn selection_qualified(offers: Seq<ResourceOfferV1>, sel: Seq<RuntimeCandidate>, distributed: bool) -> bool {
    if distributed {
        forall|k: int| 0 <= k < sel.len() ==> (#[trigger] candidate_runtime(offers, sel[k])).qualified_for_distributed_spec()
            && topology_ready_spec(offers[sel[k].offer as int])
    } else {
        forall|k: int| 0 <= k < sel.len() ==> (#[trigger] candidate_runtime(offers, sel[k])).status == ModelRuntimeStatus::ShippedLocal
            || candidate_runtime(offers, sel[k]).status == ModelRuntimeStatus::Qualified
    }
}

/// The positions of the members of a selection that hold the whole model.
pub open spec fn replica_indices(sel: Seq<RuntimeCandidate>, required: int) -> Seq<int>
    decreases sel.len(),
{
    if sel.len() == 0 {
        Seq::empty()
    } else {
        let rest = replica_indices(sel.drop_last(), required);
        if sel.last().available_bytes >= required { rest.push(sel.len() - 1) } else { rest }
    }
}

/// A speedup in thousandths as text with two decimals.
pub open spec fn two_decimals(milli: u64) -> Seq<char> {
    let whole = milli / 1000;
    let cents = (milli % 1000) / 10;
    decimal(whole as nat) + "."@ + (if cents < 10 { "0"@ + decimal(cents as nat) } else { decimal(cents as nat) })
}

/// Why a plan is in its state.
pub open spec fn plan_reason(strategy: ComputeStrategy, state: ModelPlanState, distributed: bool, speedup: u64) -> Seq<char> {
    match state {
        ModelPlanState::CapacityBlocked => "No compatible placement can fit the requested model and KV cache."@,
        ModelPlanState::QualificationRequired => "The capacity fits in theory, but backend or topology evidence is incomplete."@,
        ModelPlanState::Ready => match strategy {
            ComputeStrategy::MaximumModelSize => "Largest compatible qualified memory group selected for model fit."@,
            ComputeStrategy::SpeedBoost => if distributed {
                "Low-latency tensor group passed the conservative "@ + two_decimals(speedup) + "x speedup gate."@
            } else {
                "Fastest safe whole-model node selected; slower links were excluded."@
            },
            ComputeStrategy::MaximumThroughput => "Independent whole-model replicas selected for concurrent request throughput."@,
            ComputeStrategy::Efficiency => "Smallest qualified whole-model placement that fits was selected."@,
            ComputeStrategy::AutonomousBalanced => "A qualified whole-model placement was preferred before distributed complexity."@,
        },
    }
}

/// The capacity blocker of a plan.
pub open spec fn capacity_blocker(max_supported: int, required: int) -> Seq<char> {
    "The best compatible runtime group exposes "@ + decimal(max_supported as nat) + " bytes, below the requested "@
        + decimal(required as nat) + " bytes."@
}

/// What is common to every plan: its schema, session, strategy, required and observed bytes,
/// and that it is a preview with no authority and no endpoint.
pub open spec fn plan_basics(plan: ModelSessionPlan, request: ModelSessionRequestV1, offers: Seq<ResourceOfferV1>, now: i128) -> bool {
    &&& plan.schema@ == ModelSessionPlan::SCHEMA@
    &&& plan.session_id == request.session_id
    &&& plan.strategy == request.strategy
    &&& plan.required_bytes == request.required_bytes_spec()
    &&& plan.observed_fabric_bytes == observed_total(offers, now)
    &&& plan.proposed_local_endpoint is None
    &&& plan.execution_authority@ == PREVIEW_ONLY@
}

/// The plan a selection of runtimes of `backend` yields under a parallelism and a predicted
/// speedup: capacity and qualification decide the state; blockers and warnings say why; the
/// placements follow the parallelism.
pub open spec fn plan_from_selection(
    plan: ModelSessionPlan,
    request: ModelSessionRequestV1,
    offers: Seq<ResourceOfferV1>,
    now: i128,
    backend: ModelBackend,
    sel: Seq<RuntimeCandidate>,
    p: ModelParallelism,
    speedup: u64,
) -> bool {
    let required = request.required_bytes_spec();
    let max_supported = max_supported_spec(sel, p);
    let fits = capacity_fits_spec(sel, p, required);
    let distributed = sel.len() > 1 && p != ModelParallelism::Replica;
    let qualified = selection_qualified(offers, sel, distributed);
    let state = if !fits {
        ModelPlanState::CapacityBlocked
    } else if qualified {
        ModelPlanState::Ready
    } else {
        ModelPlanState::QualificationRequired
    };
    let blockers = (if !fits { seq![capacity_blocker(max_supported, required)] } else { Seq::empty() }) + (if distributed
        && !qualified { seq![QUALIFICATION_BLOCKER@] } else { Seq::empty() });
    let warnings = (if request.strategy == ComputeStrategy::SpeedBoost && speedup == 1000 { seq![SPEEDUP_WARNING@] } else { Seq::empty() })
        + (if p == ModelParallelism::Replica { seq![REPLICA_WARNING@] } else { Seq::empty() });
    &&& plan_basics(plan, request, offers, now)
    &&& plan.state == state
    &&& plan.backend == Some(backend)
    &&& plan.parallelism == Some(p)
    &&& plan.distributed == distributed
    &&& plan.maximum_supported_bytes == max_supported
    &&& plan.predicted_speedup_milli == speedup
    &&& plan.blockers@.map_values(|b: String| b@) == blockers
    &&& plan.warnings@.map_values(|w: String| w@) == warnings
    &&& plan.reason@ == plan_reason(request.strategy, state, distributed, speedup)
    &&& match p {
        ModelParallelism::Replica => {
            let idx = replica_indices(sel, required);
            plan.placements@.len() == idx.len() && forall|m: int| 0 <= m < idx.len() ==> placement_is(offers,
                #[trigger] plan.placements@[m], sel[idx[m]], idx[m], required, "replica"@)
        },
        ModelParallelism::Tensor => plan.placements@.len() == sel.len() && forall|k: int| 0 <= k < sel.len() ==> placement_is(offers,
            #[trigger] plan.placements@[k], sel[k], k, tensor_shard(sel, required), if k == 0 { "coordinator_rank"@ } else { "tensor_rank"@ }),
        ModelParallelism::WholeModel => pipeline_placements(offers, sel.take(if sel.len() > 1 { 1int } else { sel.len() as int }), required, plan.placements@),
        _ => pipeline_placements(offers, sel, required, plan.placements@),
    }
}

fn two_decimals_text(milli: u64) -> (r: String)
    ensures
        r@ == two_decimals(milli),
{
    let whole = milli / 1000;
    let cents = (milli % 1000) / 10;
    let mut out = decimal_text(whole);
    out.append(".");
    if cents < 10 {
        out.append("0");
    }
    out.append(decimal_text(cents).as_str());
    out
}

fn plan_reason_text(strategy: ComputeStrategy, state: ModelPlanState, distributed: bool, speedup: u64) -> (r: String)
    ensures
        r@ == plan_reason(strategy, state, distributed, speedup),
{
    match state {
        ModelPlanState::CapacityBlocked => "No compatible placement can fit the requested model and KV cache.".to_string(),
        ModelPlanState::QualificationRequired => "The capacity fits in theory, but backend or topology evidence is incomplete.".to_string(),
        ModelPlanState::Ready => match strategy {
            ComputeStrategy::MaximumModelSize => "Largest compatible qualified memory group selected for model fit.".to_string(),
            ComputeStrategy::SpeedBoost => if distributed {
                let mut out = "Low-latency tensor group passed the conservative ".to_string();
                out.append(two_decimals_text(speedup).as_str());
                out.append("x speedup gate.");
                out
            } else {
                "Fastest safe whole-model node selected; slower links were excluded.".to_string()
            },
            ComputeStrategy::MaximumThroughput => "Independent whole-model replicas selected for concurrent request throughput.".to_string(),
            ComputeStrategy::Efficiency => "Smallest qualified whole-model placement that fits was selected.".to_string(),
            ComputeStrategy::AutonomousBalanced => "A qualified whole-model placement was preferred before distributed complexity.".to_string(),
        },
    }
}

fn selection_sizes(sel: &Vec<RuntimeCandidate>) -> (r: (u128, u64))
    ensures
        r.0 == sel_sum(sel@),
        r.1 == sel_max(sel@),
{
    proof {
        lemma_sel_sum_bounds(sel@);
    }
    let mut total: u128 = 0;
    let mut largest: u64 = 0;
    let mut i: usize = 0;
    while i < sel.len()
        invariant
            i <= sel@.len(),
            total == sel_sum(sel@.take(i as int)),
            total <= i * u64::MAX,
            largest == sel_max(sel@.take(i as int)),
        decreases sel@.len() - i,
    {
        proof {
            assert(sel@.take(i + 1).drop_last() =~= sel@.take(i as int));
            lemma_sel_sum_bounds(sel@.take(i as int));
        }
        total = total + sel[i].available_bytes as u128;
        if sel[i].available_bytes > largest {
            largest = sel[i].available_bytes;
        }
        i = i + 1;
    }
    proof {
        assert(sel@.take(sel@.len() as int) =~= sel@);
    }
    (total, largest)
}

fn selection_fits(sel: &Vec<RuntimeCandidate>, p: ModelParallelism, required: u64, max_supported: u64, shard: u64) -> (r: bool)
    requires
        max_supported == max_supported_spec(sel@, p),
        shard == tensor_shard(sel@, required as int),
    ensures
        r == capacity_fits_spec(sel@, p, required as int),
{
    let mut any_whole = false;
    let mut all_shard = true;
    let mut j: usize = 0;
    while j < sel.len()
        invariant
            j <= sel@.len(),
            any_whole == exists|k: int| 0 <= k < j && #[trigger] sel@[k].available_bytes >= required,
            all_shard == forall|k: int| 0 <= k < j ==> #[trigger] sel@[k].available_bytes >= shard,
        decreases sel@.len() - j,
    {
        if sel[j].available_bytes >= required {
            any_whole = true;
        }
        if sel[j].available_bytes < shard {
            all_shard = false;
        }
        j = j + 1;
    }
    match p {
        ModelParallelism::Replica | ModelParallelism::WholeModel => any_whole,
        ModelParallelism::Tensor => all_shard,
        _ => max_supported >= required,
    }
}

fn selection_is_qualified(offers: &[ResourceOfferV1], sel: &Vec<RuntimeCandidate>, distributed: bool, Ghost(now): Ghost<i128>, Ghost(backend): Ghost<ModelBackend>) -> (r: bool)
    requires
        candidates_ok(offers@, now, sel@, backend),
    ensures
        r == selection_qualified(offers@, sel@, distributed),
{
    let mut qualified = true;
    let mut q: usize = 0;
    while q < sel.len()
        invariant
            q <= sel@.len(),
            candidates_ok(offers@, now, sel@, backend),
            qualified == (if distributed {
                forall|k: int| 0 <= k < q ==> (#[trigger] candidate_runtime(offers@, sel@[k])).qualified_for_distributed_spec()
                    && topology_ready_spec(offers@[sel@[k].offer as int])
            } else {
                forall|k: int| 0 <= k < q ==> (#[trigger] candidate_runtime(offers@, sel@[k])).status == ModelRuntimeStatus::ShippedLocal
                    || candidate_runtime(offers@, sel@[k]).status == ModelRuntimeStatus::Qualified
            }),
        decreases sel@.len() - q,
    {
        let c = sel[q];
        proof {
            assert(candidate_ok(offers@, now, sel@[q as int], backend));
        }
        let runtime = &offers[c.offer].model_runtimes[c.runtime];
        let ok = if distributed {
            runtime.is_qualified_for_distributed() && topology_ready(&offers[c.offer])
        } else {
            runtime.status == ModelRuntimeStatus::ShippedLocal || runtime.status == ModelRuntimeStatus::Qualified
        };
        proof {
            let rt = candidate_runtime(offers@, sel@[q as int]);
            assert(*runtime == rt);
        }
        if !ok {
            qualified = false;
        }
        q = q + 1;
    }
    qualified
}

fn plan_blockers(fits: bool, distributed: bool, qualified: bool, max_supported: u64, required: u64) -> (r: Vec<String>)
    ensures
        r@.map_values(|b: String| b@) == (if !fits { seq![capacity_blocker(max_supported as int, required as int)] } else { Seq::empty() })
            + (if distributed && !qualified { seq![QUALIFICATION_BLOCKER@] } else { Seq::empty() }),
{
    let mut blockers: Vec<String> = Vec::new();
    if !fits {
        let mut m = "The best compatible runtime group exposes ".to_string();
        m.append(decimal_text(max_supported).as_str());
        m.append(" bytes, below the requested ");
        m.append(decimal_text(required).as_str());
        m.append(" bytes.");
        blockers.push(m);
    }
    if distributed && !qualified {
        blockers.push(QUALIFICATION_BLOCKER.to_string());
    }
    assert(blockers@.map_values(|b: String| b@) =~= (if !fits { seq![capacity_blocker(max_supported as int, required as int)] } else { Seq::empty() })
        + (if distributed && !qualified { seq![QUALIFICATION_BLOCKER@] } else { Seq::empty() }));
    blockers
}

fn plan_warnings(strategy: ComputeStrategy, speedup: u64, p: ModelParallelism) -> (r: Vec<String>)
    ensures
        r@.map_values(|w: String| w@) == (if strategy == ComputeStrategy::SpeedBoost && speedup == 1000 { seq![SPEEDUP_WARNING@] } else { Seq::empty() })
            + (if p == ModelParallelism::Replica { seq![REPLICA_WARNING@] } else { Seq::empty() }),
{
    let mut warnings: Vec<String> = Vec::new();
    if strategy == ComputeStrategy::SpeedBoost && speedup == 1000 {
        warnings.push(SPEEDUP_WARNING.to_string());
    }
    if p == ModelParallelism::Replica {
        warnings.push(REPLICA_WARNING.to_string());
    }
    assert(warnings@.map_values(|w: String| w@) =~= (if strategy == ComputeStrategy::SpeedBoost && speedup == 1000 { seq![SPEEDUP_WARNING@] } else { Seq::empty() })
        + (if p == ModelParallelism::Replica { seq![REPLICA_WARNING@] } else { Seq::empty() }));
    warnings
}

/// Assemble the plan of a selection of runtimes of `backend`.
fn assemble_plan(
    request: &ModelSessionRequestV1,
    offers: &[ResourceOfferV1],
    now: i128,
    observed: u64,
    backend: ModelBackend,
    sel: Vec<RuntimeCandidate>,
    p: ModelParallelism,
    speedup: u64,
) -> (r: ModelSessionPlan)
    requires
        candidates_ok(offers@, now, sel@, backend),
        observed == observed_total(offers@, now),
    ensures
        plan_from_selection(r, *request, offers@, now, backend, sel@, p, speedup),
{
    let required = request.required_bytes();
    let n = sel.len();
    let (total, largest) = selection_sizes(&sel);
    let max_supported: u64 = if p == ModelParallelism::Replica {
        largest
    } else if total > u64::MAX as u128 {
        u64::MAX
    } else {
        total as u64
    };
    let divisor: u64 = if n > 1 { n as u64 } else { 1 };
    let shard = ceil_div_u64(required, divisor);
    let fits = selection_fits(&sel, p, required, max_supported, shard);
    let distributed = n > 1 && p != ModelParallelism::Replica;
    let qualified = selection_is_qualified(offers, &sel, distributed, Ghost(now), Ghost(backend));
    let blockers = plan_blockers(fits, distributed, qualified, max_supported, required);
    let warnings = plan_warnings(request.strategy, speedup, p);
    let placements = build_placements(offers, &sel, required, p, shard, Ghost(now), Ghost(backend));
    let state = if !fits {
        ModelPlanState::CapacityBlocked
    } else if qualified {
        ModelPlanState::Ready
    } else {
        ModelPlanState::QualificationRequired
    };
    let reason = plan_reason_text(request.strategy, state, distributed, speedup);
    ModelSessionPlan {
        schema: ModelSessionPlan::SCHEMA.to_string(),
        session_id: request.session_id,
        strategy: request.strategy,
        state,
        backend: Some(backend),
        parallelism: Some(p),
        distributed,
        required_bytes: required,
        observed_fabric_bytes: observed,
        maximum_supported_bytes: max_supported,
        predicted_speedup_milli: speedup,
        placements,
        blockers,
        warnings,
        proposed_local_endpoint: None,
        execution_authority: PREVIEW_ONLY.to_string(),
        reason,
    }
}

#[verifier::loop_isolation(false)]
fn build_placements(
    offers: &[ResourceOfferV1],
    sel: &Vec<RuntimeCandidate>,
    required: u64,
    p: ModelParallelism,
    shard: u64,
    Ghost(now): Ghost<i128>,
    Ghost(backend): Ghost<ModelBackend>,
) -> (r: Vec<ModelNodePlacement>)
    requires
        candidates_ok(offers@, now, sel@, backend),
        shard == tensor_shard(sel@, required as int),
    ensures
        match p {
            ModelParallelism::Replica => {
                let idx = replica_indices(sel@, required as int);
                r@.len() == idx.len() && forall|m: int| 0 <= m < idx.len() ==> placement_is(offers@,
                    #[trigger] r@[m], sel@[idx[m]], idx[m], required as int, "replica"@)
            },
            ModelParallelism::Tensor => r@.len() == sel@.len() && forall|k: int| 0 <= k < sel@.len() ==> placement_is(offers@,
                #[trigger] r@[k], sel@[k], k, shard as int, if k == 0 { "coordinator_rank"@ } else { "tensor_rank"@ }),
            ModelParallelism::WholeModel => pipeline_placements(offers@, sel@.take(if sel@.len() > 1 { 1int } else { sel@.len() as int }), required as int, r@),
            _ => pipeline_placements(offers@, sel@, required as int, r@),
        },
{
    if p == ModelParallelism::Replica || p == ModelParallelism::Tensor {
        let mut out: Vec<ModelNodePlacement> = Vec::new();
        let ghost mut idx: Seq<int> = Seq::empty();
        let mut k: usize = 0;
        while k < sel.len()
            invariant
                k <= sel@.len(),
                candidates_ok(offers@, now, sel@, backend),
                p == ModelParallelism::Replica ==> idx == replica_indices(sel@.take(k as int), required as int),
                p == ModelParallelism::Replica ==> out@.len() == idx.len(),
                p == ModelParallelism::Replica ==> forall|m: int| 0 <= m < idx.len() ==> 0 <= #[trigger] idx[m] < k,
                p == ModelParallelism::Replica ==> forall|m: int| 0 <= m < idx.len() ==> placement_is(offers@,
                    #[trigger] out@[m], sel@[idx[m]], idx[m], required as int, "replica"@),
                p == ModelParallelism::Tensor ==> out@.len() == k && forall|m: int| 0 <= m < k ==> placement_is(offers@,
                    #[trigger] out@[m], sel@[m], m, shard as int, if m == 0 { "coordinator_rank"@ } else { "tensor_rank"@ }),
            decreases sel@.len() - k,
        {
            let c = sel[k];
            proof {
                assert(candidate_ok(offers@, now, sel@[k as int], backend));
                assert(sel@.take(k + 1).drop_last() =~= sel@.take(k as int));
            }
            let ghost before = out@;
            if p == ModelParallelism::Replica {
                if c.available_bytes >= required {
                    out.push(ModelNodePlacement {
                        node_id: offers[c.offer].node_id,
                        rank: k as u16,
                        assigned_bytes: required,
                        available_model_bytes: c.available_bytes,
                        role: "replica".to_string(),
                        topology_confidence: topology_confidence(&offers[c.offer]).to_string(),
                    });
                    proof {
                        let old_idx = idx;
                        idx = idx.push(k as int);
                        assert forall|m: int| 0 <= m < idx.len() implies 0 <= #[trigger] idx[m] < k + 1 by {
                            if m < old_idx.len() {
                                assert(idx[m] == old_idx[m]);
                            }
                        }
                        assert forall|m: int| 0 <= m < idx.len() implies placement_is(offers@,
                            #[trigger] out@[m], sel@[idx[m]], idx[m], required as int, "replica"@) by {
                            if m < old_idx.len() {
                                assert(out@[m] == before[m]);
                                assert(idx[m] == old_idx[m]);
                            }
                        }
                    }
                }
            } else {
                out.push(ModelNodePlacement {
                    node_id: offers[c.offer].node_id,
                    rank: k as u16,
                    assigned_bytes: shard,
                    available_model_bytes: c.available_bytes,
                    role: if k == 0 { "coordinator_rank".to_string() } else { "tensor_rank".to_string() },
                    topology_confidence: topology_confidence(&offers[c.offer]).to_string(),
                });
                proof {
                    assert forall|m: int| 0 <= m < k + 1 implies placement_is(offers@,
                        #[trigger] out@[m], sel@[m], m, shard as int, if m == 0 { "coordinator_rank"@ } else { "tensor_rank"@ }) by {
                        if m < k {
                            assert(out@[m] == before[m]);
                        }
                    }
                }
            }
            k = k + 1;
        }
        proof {
            assert(sel@.take(sel@.len() as int) =~= sel@);
        }
        out
    } else if p == ModelParallelism::WholeModel {
        let mut first: Vec<RuntimeCandidate> = Vec::new();
        if sel.len() > 0 {
            first.push(sel[0]);
        }
        proof {
            assert(first@ =~= sel@.take(if sel@.len() > 1 { 1int } else { sel@.len() as int }));
            assert forall|k: int| 0 <= k < first@.len() implies candidate_ok(offers@, now, #[trigger] first@[k], backend) by {
                assert(first@[k] == sel@[k]);
            }
        }
        allocate_pipeline(offers, &first, required, Ghost(now), Ghost(backend))
    } else {
        allocate_pipeline(offers, sel, required, Ghost(now), Ghost(backend))
    }
}

/// Whether every candidate of a run shares one runtime compatibility key.
pub open spec fn same_key(offers: Seq<ResourceOfferV1>, cs: Seq<RuntimeCandidate>, key: Seq<char>) -> bool {
    forall|k: int| 0 <= k < cs.len() ==> (#[trigger] candidate_runtime(offers, cs[k])).compatibility_key@ == key
}

/// A well-formed group: its candidates name live offers' eligible runtimes of its backend and
/// key, by usable bytes, largest first, at most `max_nodes` of them and (for a positive bound)
/// at least one.
pub open spec fn group_sound(offers: Seq<ResourceOfferV1>, now: i128, g: RuntimeGroup, max_nodes: u16) -> bool {
    &&& candidates_ok(offers, now, g.candidates@, g.backend)
    &&& same_key(offers, g.candidates@, g.key@)
    &&& g.candidates@.len() <= max_nodes
    &&& (max_nodes > 0 ==> g.candidates@.len() > 0)
}

fn copy_candidates(cs: &Vec<RuntimeCandidate>) -> (r: Vec<RuntimeCandidate>)
    ensures
        r@ == cs@,
{
    let mut out: Vec<RuntimeCandidate> = Vec::new();
    let mut i: usize = 0;
    while i < cs.len()
        invariant
            i <= cs@.len(),
            out@ == cs@.take(i as int),
        decreases cs@.len() - i,
    {
        out.push(cs[i]);
        proof {
            assert(cs@.take(i + 1) =~= cs@.take(i as int).push(cs@[i as int]));
        }
        i = i + 1;
    }
    proof {
        assert(cs@.take(cs@.len() as int) =~= cs@);
    }
    out
}

fn group_total(cs: &Vec<RuntimeCandidate>) -> (r: u128)
    ensures
        r == sel_sum(cs@),
{
    let (total, _) = selection_sizes(cs);
    total
}

/// A group placed into a list ranked by total usable bytes, after every group of at least its
/// total.
pub open spec fn insert_by_total(sorted: Seq<RuntimeGroup>, g: RuntimeGroup) -> Seq<RuntimeGroup>
    decreases sorted.len(),
{
    if sorted.len() == 0 {
        seq![g]
    } else if sel_sum(sorted[0].candidates@) >= sel_sum(g.candidates@) {
        seq![sorted[0]] + insert_by_total(sorted.skip(1), g)
    } else {
        seq![g] + sorted
    }
}

/// Groups ranked by total usable bytes, largest first; groups of equal total keep their order.
pub open spec fn rank_by_total(groups: Seq<RuntimeGroup>) -> Seq<RuntimeGroup>
    decreases groups.len(),
{
    if groups.len() == 0 {
        Seq::empty()
    } else {
        insert_by_total(rank_by_total(groups.drop_last()), groups.last())
    }
}

proof fn lemma_insert_by_total(s: Seq<RuntimeGroup>, g: RuntimeGroup, p: int)
    requires
        0 <= p <= s.len(),
        forall|j: int| 0 <= j < p ==> sel_sum((#[trigger] s[j]).candidates@) >= sel_sum(g.candidates@),
        p < s.len() ==> sel_sum(s[p].candidates@) < sel_sum(g.candidates@),
    ensures
        insert_by_total(s, g) == s.insert(p, g),
    decreases s.len(),
{
    if s.len() == 0 {
        assert(s.insert(p, g) =~= seq![g]);
    } else if p == 0 {
        assert(s.insert(0, g) =~= seq![g] + s);
    } else {
        assert forall|j: int| 0 <= j < p - 1 implies sel_sum((#[trigger] s.skip(1)[j]).candidates@) >= sel_sum(g.candidates@) by {
            assert(s.skip(1)[j] == s[j + 1]);
        }
        if p < s.len() {
            assert(s.skip(1)[p - 1] == s[p]);
        }
        lemma_insert_by_total(s.skip(1), g, p - 1);
        assert(seq![s[0]] + s.skip(1).insert(p - 1, g) =~= s.insert(p, g));
    }
}

/// Order groups by their total usable bytes, largest first, keeping key order among equals.
fn rank_groups(groups: Vec<RuntimeGroup>, Ghost(offers): Ghost<Seq<ResourceOfferV1>>, Ghost(now): Ghost<i128>, Ghost(max_nodes): Ghost<u16>) -> (r: Vec<RuntimeGroup>)
    requires
        forall|t: int| 0 <= t < groups@.len() ==> group_sound(offers, now, #[trigger] groups@[t], max_nodes),
    ensures
        r@ == rank_by_total(groups@),
        r@.len() == groups@.len(),
        forall|t: int| 0 <= t < r@.len() ==> group_sound(offers, now, #[trigger] r@[t], max_nodes),
{
    let ghost all = groups@;
    let mut input = groups;
    let n = input.len();
    let mut out: Vec<RuntimeGroup> = Vec::new();
    let mut totals: Vec<u128> = Vec::new();
    let mut k: usize = 0;
    assert(input@ =~= all.skip(0));
    while input.len() > 0
        invariant
            n == all.len(),
            k <= n,
            input@ == all.skip(k as int),
            out@ == rank_by_total(all.take(k as int)),
            input@.len() + out@.len() == n,
            totals@.len() == out@.len(),
            forall|t: int| 0 <= t < totals@.len() ==> totals@[t] == sel_sum((#[trigger] out@[t]).candidates@),
            forall|t: int| 0 <= t < all.len() ==> group_sound(offers, now, #[trigger] all[t], max_nodes),
            forall|t: int| 0 <= t < out@.len() ==> group_sound(offers, now, #[trigger] out@[t], max_nodes),
        decreases input@.len(),
    {
        proof {
            lemma_rank_len(all.take(k as int));
        }
        let g = input.remove(0);
        proof {
            assert(g == all[k as int]);
            assert(group_sound(offers, now, g, max_nodes));
            assert(all.take(k + 1).drop_last() =~= all.take(k as int));
            assert(all.take(k + 1).last() == g);
            assert(input@ =~= all.skip(k + 1));
        }
        let total = group_total(&g.candidates);
        let mut pos: usize = 0;
        while pos < out.len() && totals[pos] >= total
            invariant
                pos <= out@.len(),
                totals@.len() == out@.len(),
                forall|t: int| 0 <= t < totals@.len() ==> totals@[t] == sel_sum((#[trigger] out@[t]).candidates@),
                total == sel_sum(g.candidates@),
                forall|j: int| 0 <= j < pos ==> sel_sum((#[trigger] out@[j]).candidates@) >= sel_sum(g.candidates@),
            decreases out@.len() - pos,
        {
            assert(totals@[pos as int] == sel_sum(out@[pos as int].candidates@));
            pos = pos + 1;
        }
        let ghost before = out@;
        proof {
            if pos < before.len() {
                assert(totals@[pos as int] == sel_sum(before[pos as int].candidates@));
            }
            lemma_insert_by_total(before, g, pos as int);
        }
        out.insert(pos, g);
        totals.insert(pos, total);
        proof {
            assert forall|t: int| 0 <= t < out@.len() implies group_sound(offers, now, #[trigger] out@[t], max_nodes) by {
                if t < pos {
                    assert(out@[t] == before[t]);
                } else if t > pos {
                    assert(out@[t] == before[t - 1]);
                }
            }
            assert forall|t: int| 0 <= t < totals@.len() implies totals@[t] == sel_sum((#[trigger] out@[t]).candidates@) by {
                if t < pos {
                    assert(out@[t] == before[t]);
                } else if t > pos {
                    assert(out@[t] == before[t - 1]);
                }
            }
        }
        k = k + 1;
    }
    proof {
        assert(all.take(n as int) =~= all);
    }
    out
}

proof fn lemma_rank_len(groups: Seq<RuntimeGroup>)
    ensures
        rank_by_total(groups).len() == groups.len(),
    decreases groups.len(),
{
    if groups.len() > 0 {
        lemma_rank_len(groups.drop_last());
        lemma_insert_len(rank_by_total(groups.drop_last()), groups.last());
    }
}

proof fn lemma_insert_len(s: Seq<RuntimeGroup>, g: RuntimeGroup)
    ensures
        insert_by_total(s, g).len() == s.len() + 1,
    decreases s.len(),
{
    if s.len() > 0 {
        lemma_insert_len(s.skip(1), g);
    }
}

/// The offers a selection runs on.
pub open spec fn selection_offers(offers: Seq<ResourceOfferV1>, sel: Seq<RuntimeCandidate>) -> Seq<ResourceOfferV1> {
    sel.map_values(|c: RuntimeCandidate| offers[c.offer as int])
}

/// Whether `k` is the first position of `cs` whose candidate holds `bytes`.
pub open spec fn is_first_holder(cs: Seq<RuntimeCandidate>, bytes: int, k: int) -> bool {
    &&& 0 <= k < cs.len()
    &&& cs[k].available_bytes >= bytes
    &&& forall|j: int| 0 <= j < k ==> #[trigger] cs[j].available_bytes < bytes
}

/// The first position of `cs` whose candidate holds `bytes`, if any does.
pub open spec fn first_holder(cs: Seq<RuntimeCandidate>, bytes: int) -> Option<int> {
    if exists|k: int| #[trigger] is_first_holder(cs, bytes, k) {
        Some(choose|k: int| #[trigger] is_first_holder(cs, bytes, k))
    } else {
        None
    }
}

/// The candidates of `cs` that hold `bytes`, in their order.
pub open spec fn holders(cs: Seq<RuntimeCandidate>, bytes: int) -> Seq<RuntimeCandidate> {
    cs.filter(|c: RuntimeCandidate| c.available_bytes >= bytes)
}

/// The speedup claimed for `n` replicas: one per replica, at least one.
pub open spec fn replica_speedup(n: int) -> u64 {
    if n > 1 { (n * 1000) as u64 } else { 1000 }
}

/// Whether a group can run tensor-parallel: several members, each supporting tensor
/// parallelism and qualified for distribution.
pub open spec fn tensor_ready(offers: Seq<ResourceOfferV1>, cs: Seq<RuntimeCandidate>) -> bool {
    &&& cs.len() > 1
    &&& forall|k: int| 0 <= k < cs.len() ==> (#[trigger] candidate_runtime(offers, cs[k])).supported_parallelism@.contains(ModelParallelism::Tensor)
        && candidate_runtime(offers, cs[k]).qualified_for_distributed_spec()
}

/// Whether a tensor-ready group passes the speedup gate and each member holds its shard.
pub open spec fn tensor_worthwhile(offers: Seq<ResourceOfferV1>, cs: Seq<RuntimeCandidate>, required: int) -> bool {
    &&& tensor_ready(offers, cs)
    &&& tensor_speedup_spec(selection_offers(offers, cs)) > 1100
    &&& forall|k: int| 0 <= k < cs.len() ==> #[trigger] cs[k].available_bytes >= tensor_shard(cs, required)
}

/// Among the first `n` ranked groups, the one whose tensor speedup is the strictly greatest of
/// the worthwhile ones (the earliest among equals), with that speedup.
pub open spec fn best_tensor_group(offers: Seq<ResourceOfferV1>, ranked: Seq<RuntimeGroup>, required: int, n: int) -> Option<(int, u64)>
    decreases n,
{
    if n <= 0 {
        None
    } else {
        let prev = best_tensor_group(offers, ranked, required, n - 1);
        let cs = ranked[n - 1].candidates@;
        let speedup = tensor_speedup_spec(selection_offers(offers, cs));
        if tensor_worthwhile(offers, cs, required) && (match prev {
            Some((_, s)) => speedup > s,
            None => true,
        }) {
            Some((n - 1, speedup))
        } else {
            prev
        }
    }
}

/// Among the first `n` ranked groups, each offering its first member that holds the model, the
/// offer with the strictly most usable bytes (the earliest among equals), as group and position.
pub open spec fn best_single_holder(ranked: Seq<RuntimeGroup>, required: int, n: int) -> Option<(int, int)>
    decreases n,
{
    if n <= 0 {
        None
    } else {
        let prev = best_single_holder(ranked, required, n - 1);
        match first_holder(ranked[n - 1].candidates@, required) {
            Some(k) => match prev {
                Some((g, q)) => if ranked[n - 1].candidates@[k].available_bytes > ranked[g].candidates@[q].available_bytes {
                    Some((n - 1, k))
                } else {
                    prev
                },
                None => Some((n - 1, k)),
            },
            None => prev,
        }
    }
}

/// Among the first `n` ranked groups (`n >= 1`), the one with the most members that hold the
/// model, the latest among equals.
pub open spec fn most_holders_group(ranked: Seq<RuntimeGroup>, required: int, n: int) -> int
    decreases n,
{
    if n <= 1 {
        0
    } else {
        let prev = most_holders_group(ranked, required, n - 1);
        if holders(ranked[n - 1].candidates@, required).len() >= holders(ranked[prev].candidates@, required).len() {
            n - 1
        } else {
            prev
        }
    }
}

/// The least holder seen after scanning the first `k` members of group `g`, starting from `acc`:
/// a member that holds the model replaces it when it has strictly fewer usable bytes.
pub open spec fn least_holder_in(ranked: Seq<RuntimeGroup>, required: int, g: int, k: int, acc: Option<(int, int)>) -> Option<(int, int)>
    decreases k,
{
    if k <= 0 {
        acc
    } else {
        let prev = least_holder_in(ranked, required, g, k - 1, acc);
        let c = ranked[g].candidates@[k - 1];
        if c.available_bytes >= required && (match prev {
            Some((pg, pq)) => c.available_bytes < ranked[pg].candidates@[pq].available_bytes,
            None => true,
        }) {
            Some((g, k - 1))
        } else {
            prev
        }
    }
}

/// The member of the first `n` ranked groups with the fewest usable bytes among those that hold
/// the model (the earliest among equals), as group and position.
pub open spec fn least_holder(ranked: Seq<RuntimeGroup>, required: int, n: int) -> Option<(int, int)>
    decreases n,
{
    if n <= 0 {
        None
    } else {
        least_holder_in(ranked, required, n - 1, ranked[n - 1].candidates@.len() as int, least_holder(ranked, required, n - 1))
    }
}

/// The first member that holds the model in the first of the first `n` ranked groups that has
/// one, as group and position.
pub open spec fn first_group_holder(ranked: Seq<RuntimeGroup>, required: int, n: int) -> Option<(int, int)>
    decreases n,
{
    if n <= 0 {
        None
    } else {
        match first_group_holder(ranked, required, n - 1) {
            Some(x) => Some(x),
            None => match first_holder(ranked[n - 1].candidates@, required) {
                Some(k) => Some((n - 1, k)),
                None => None,
            },
        }
    }
}

/// What each strategy selects from the ranked groups: backend, members, parallelism and the
/// predicted speedup in thousandths.
/// - Maximum model size takes the first ranked group, pipelined when it has several members
///   that all support pipelining, else whole-model.
/// - Speed boost takes the worthwhile tensor group of greatest speedup; failing that, the best
///   single holder whole-model; failing that, the first group pipelined.
/// - Maximum throughput replicates over the holders of the group with the most of them; where
///   no group has one, over the first group.
/// - Efficiency takes the holder with the fewest usable bytes whole-model; where none holds
///   the model, the first member of the first group.
/// - Autonomous balancing takes the first holder of the first group that has one whole-model,
///   else the first group pipelined.
pub open spec fn selection_spec(
    strategy: ComputeStrategy,
    offers: Seq<ResourceOfferV1>,
    ranked: Seq<RuntimeGroup>,
    required: int,
) -> (ModelBackend, Seq<RuntimeCandidate>, ModelParallelism, u64) {
    let first = ranked[0];
    let n = ranked.len() as int;
    match strategy {
        ComputeStrategy::MaximumModelSize => (first.backend, first.candidates@, if first.candidates@.len() > 1 && forall|k: int|
            0 <= k < first.candidates@.len() ==> (#[trigger] candidate_runtime(offers, first.candidates@[k])).supported_parallelism@.contains(ModelParallelism::Pipeline) {
            ModelParallelism::Pipeline
        } else {
            ModelParallelism::WholeModel
        }, 1000),
        ComputeStrategy::SpeedBoost => match best_tensor_group(offers, ranked, required, n) {
            Some((g, speedup)) => (ranked[g].backend, ranked[g].candidates@, ModelParallelism::Tensor, speedup),
            None => match best_single_holder(ranked, required, n) {
                Some((g, q)) => (ranked[g].backend, seq![ranked[g].candidates@[q]], ModelParallelism::WholeModel, 1000),
                None => (first.backend, first.candidates@, ModelParallelism::Pipeline, 1000),
            },
        },
        ComputeStrategy::MaximumThroughput => {
            let b = most_holders_group(ranked, required, n);
            let h = holders(ranked[b].candidates@, required);
            if h.len() == 0 {
                (first.backend, first.candidates@, ModelParallelism::Replica, replica_speedup(first.candidates@.len() as int))
            } else {
                (ranked[b].backend, h, ModelParallelism::Replica, replica_speedup(h.len() as int))
            }
        },
        ComputeStrategy::Efficiency => match least_holder(ranked, required, n) {
            Some((g, q)) => (ranked[g].backend, seq![ranked[g].candidates@[q]], ModelParallelism::WholeModel, 1000),
            None => (first.backend, seq![first.candidates@[0]], ModelParallelism::WholeModel, 1000),
        },
        ComputeStrategy::AutonomousBalanced => match first_group_holder(ranked, required, n) {
            Some((g, q)) => (ranked[g].backend, seq![ranked[g].candidates@[q]], ModelParallelism::WholeModel, 1000),
            None => (first.backend, first.candidates@, ModelParallelism::Pipeline, 1000),
        },
    }
}

proof fn lemma_first_group_holder_stays(ranked: Seq<RuntimeGroup>, required: int, m: int, n: int)
    requires
        0 <= m <= n,
        first_group_holder(ranked, required, m) is Some,
    ensures
        first_group_holder(ranked, required, n) == first_group_holder(ranked, required, m),
    decreases n - m,
{
    if m < n {
        lemma_first_group_holder_stays(ranked, required, m, n - 1);
    }
}

proof fn lemma_first_holder(cs: Seq<RuntimeCandidate>, bytes: int, r: Option<int>)
    requires
        match r {
            Some(k) => is_first_holder(cs, bytes, k),
            None => forall|j: int| 0 <= j < cs.len() ==> #[trigger] cs[j].available_bytes < bytes,
        },
    ensures
        first_holder(cs, bytes) == r,
{
    match r {
        Some(k) => {
            assert(is_first_holder(cs, bytes, k));
            let c = choose|x: int| #[trigger] is_first_holder(cs, bytes, x);
            assert(is_first_holder(cs, bytes, c));
            if c < k {
                assert(cs[c].available_bytes < bytes);
            }
            if k < c {
                assert(cs[k].available_bytes < bytes);
            }
        },
        None => {
            if exists|k: int| #[trigger] is_first_holder(cs, bytes, k) {
                let c = choose|x: int| #[trigger] is_first_holder(cs, bytes, x);
                assert(cs[c].available_bytes < bytes);
            }
        },
    }
}

fn all_support(offers: &[ResourceOfferV1], cs: &Vec<RuntimeCandidate>, p: ModelParallelism, Ghost(now): Ghost<i128>, Ghost(backend): Ghost<ModelBackend>) -> (r: bool)
    requires
        candidates_ok(offers@, now, cs@, backend),
    ensures
        r == forall|k: int| 0 <= k < cs@.len() ==> (#[trigger] candidate_runtime(offers@, cs@[k])).supported_parallelism@.contains(p),
{
    let mut i: usize = 0;
    while i < cs.len()
        invariant
            i <= cs@.len(),
            candidates_ok(offers@, now, cs@, backend),
            forall|k: int| 0 <= k < i ==> (#[trigger] candidate_runtime(offers@, cs@[k])).supported_parallelism@.contains(p),
        decreases cs@.len() - i,
    {
        proof {
            assert(candidate_ok(offers@, now, cs@[i as int], backend));
        }
        let c = cs[i];
        if !contains_parallelism(&offers[c.offer].model_runtimes[c.runtime].supported_parallelism, p) {
            proof {
                assert(candidate_runtime(offers@, cs@[i as int]) == offers@[c.offer as int].model_runtimes@[c.runtime as int]);
            }
            return false;
        }
        i = i + 1;
    }
    true
}

fn all_tensor_ready(offers: &[ResourceOfferV1], cs: &Vec<RuntimeCandidate>, Ghost(now): Ghost<i128>, Ghost(backend): Ghost<ModelBackend>) -> (r: bool)
    requires
        candidates_ok(offers@, now, cs@, backend),
    ensures
        r == forall|k: int| 0 <= k < cs@.len() ==> (#[trigger] candidate_runtime(offers@, cs@[k])).supported_parallelism@.contains(ModelParallelism::Tensor)
            && candidate_runtime(offers@, cs@[k]).qualified_for_distributed_spec(),
{
    let mut i: usize = 0;
    while i < cs.len()
        invariant
            i <= cs@.len(),
            candidates_ok(offers@, now, cs@, backend),
            forall|k: int| 0 <= k < i ==> (#[trigger] candidate_runtime(offers@, cs@[k])).supported_parallelism@.contains(ModelParallelism::Tensor)
                && candidate_runtime(offers@, cs@[k]).qualified_for_distributed_spec(),
        decreases cs@.len() - i,
    {
        proof {
            assert(candidate_ok(offers@, now, cs@[i as int], backend));
        }
        let c = cs[i];
        let runtime = &offers[c.offer].model_runtimes[c.runtime];
        proof {
            assert(candidate_runtime(offers@, cs@[i as int]) == *runtime);
        }
        if !(contains_parallelism(&runtime.supported_parallelism, ModelParallelism::Tensor) && runtime.is_qualified_for_distributed()) {
            return false;
        }
        i = i + 1;
    }
    true
}

fn all_hold(cs: &Vec<RuntimeCandidate>, bytes: u64) -> (r: bool)
    ensures
        r == forall|k: int| 0 <= k < cs@.len() ==> #[trigger] cs@[k].available_bytes >= bytes,
{
    let mut i: usize = 0;
    while i < cs.len()
        invariant
            i <= cs@.len(),
            forall|k: int| 0 <= k < i ==> #[trigger] cs@[k].available_bytes >= bytes,
        decreases cs@.len() - i,
    {
        if cs[i].available_bytes < bytes {
            return false;
        }
        i = i + 1;
    }
    true
}

fn first_holding(cs: &Vec<RuntimeCandidate>, bytes: u64) -> (r: Option<usize>)
    ensures
        match r {
            Some(k) => k < cs@.len() && cs@[k as int].available_bytes >= bytes && forall|j: int| 0 <= j < k ==> #[trigger] cs@[j].available_bytes < bytes,
            None => forall|j: int| 0 <= j < cs@.len() ==> #[trigger] cs@[j].available_bytes < bytes,
        },
        match r {
            Some(k) => first_holder(cs@, bytes as int) == Some(k as int),
            None => first_holder(cs@, bytes as int) is None,
        },
{
    let mut i: usize = 0;
    while i < cs.len()
        invariant
            i <= cs@.len(),
            forall|j: int| 0 <= j < i ==> #[trigger] cs@[j].available_bytes < bytes,
        decreases cs@.len() - i,
    {
        if cs[i].available_bytes >= bytes {
            proof {
                lemma_first_holder(cs@, bytes as int, Some(i as int));
            }
            return Some(i);
        }
        i = i + 1;
    }
    proof {
        lemma_first_holder(cs@, bytes as int, None);
    }
    None
}

fn holding(cs: &Vec<RuntimeCandidate>, bytes: u64) -> (r: Vec<RuntimeCandidate>)
    ensures
        r@ == holders(cs@, bytes as int),
        forall|k: int| 0 <= k < r@.len() ==> cs@.contains(#[trigger] r@[k]) && r@[k].available_bytes >= bytes,
        r@.len() <= cs@.len(),
{
    let ghost pred = |c: RuntimeCandidate| c.available_bytes >= bytes as int;
    let mut out: Vec<RuntimeCandidate> = Vec::new();
    let mut i: usize = 0;
    proof {
        reveal_with_fuel(Seq::filter, 1);
        assert(cs@.take(0).filter(pred) =~= Seq::<RuntimeCandidate>::empty());
    }
    while i < cs.len()
        invariant
            i <= cs@.len(),
            out@ == cs@.take(i as int).filter(pred),
            pred == (|c: RuntimeCandidate| c.available_bytes >= bytes as int),
            forall|k: int| 0 <= k < out@.len() ==> cs@.contains(#[trigger] out@[k]) && out@[k].available_bytes >= bytes,
            out@.len() <= i,
        decreases cs@.len() - i,
    {
        proof {
            assert(cs@.take(i + 1).drop_last() =~= cs@.take(i as int));
            assert(cs@.take(i + 1).last() == cs@[i as int]);
            reveal_with_fuel(Seq::filter, 1);
        }
        if cs[i].available_bytes >= bytes {
            let ghost before = out@;
            out.push(cs[i]);
            proof {
                assert forall|k: int| 0 <= k < out@.len() implies cs@.contains(#[trigger] out@[k]) && out@[k].available_bytes >= bytes by {
                    if k < before.len() {
                        assert(out@[k] == before[k]);
                    } else {
                        assert(out@[k] == cs@[i as int]);
                    }
                }
            }
        }
        i = i + 1;
    }
    assert(cs@.take(cs@.len() as int) =~= cs@);
    out
}

fn candidate_offers<'a>(offers: &'a [ResourceOfferV1], cs: &Vec<RuntimeCandidate>, Ghost(now): Ghost<i128>, Ghost(backend): Ghost<ModelBackend>) -> (r: Vec<&'a ResourceOfferV1>)
    requires
        candidates_ok(offers@, now, cs@, backend),
    ensures
        r@.map_values(|o: &ResourceOfferV1| *o) == selection_offers(offers@, cs@),
{
    let mut out: Vec<&ResourceOfferV1> = Vec::new();
    let mut i: usize = 0;
    while i < cs.len()
        invariant
            i <= cs@.len(),
            candidates_ok(offers@, now, cs@, backend),
            out@.map_values(|o: &ResourceOfferV1| *o) == selection_offers(offers@, cs@.take(i as int)),
        decreases cs@.len() - i,
    {
        proof {
            assert(candidate_ok(offers@, now, cs@[i as int], backend));
        }
        let ghost before = out@;
        out.push(&offers[cs[i].offer]);
        proof {
            let m = out@.map_values(|o: &ResourceOfferV1| *o);
            let t = selection_offers(offers@, cs@.take(i + 1));
            let old_m = before.map_values(|o: &ResourceOfferV1| *o);
            let old_t = selection_offers(offers@, cs@.take(i as int));
            assert(old_m.len() == before.len());
            assert(old_t.len() == i);
            assert(old_m == old_t);
            assert(m.len() == t.len());
            assert forall|j: int| 0 <= j < m.len() implies m[j] == t[j] by {
                if j < i {
                    assert(m[j] == old_m[j]);
                    assert(t[j] == old_t[j]);
                } else {
                    assert(m[j] == offers@[cs@[i as int].offer as int]);
                }
            }
            assert(m =~= t);
        }
        i = i + 1;
    }
    proof {
        assert(cs@.take(cs@.len() as int) =~= cs@);
    }
    out
}

proof fn lemma_subset_ok(offers: Seq<ResourceOfferV1>, now: i128, all: Seq<RuntimeCandidate>, sub: Seq<RuntimeCandidate>, backend: ModelBackend, key: Seq<char>)
    requires
        candidates_ok(offers, now, all, backend),
        same_key(offers, all, key),
        forall|k: int| 0 <= k < sub.len() ==> all.contains(#[trigger] sub[k]),
    ensures
        candidates_ok(offers, now, sub, backend),
        same_key(offers, sub, key),
{
    assert forall|k: int| 0 <= k < sub.len() implies candidate_ok(offers, now, #[trigger] sub[k], backend) by {
        assert(all.contains(sub[k]));
        let j = choose|j: int| 0 <= j < all.len() && all[j] == sub[k];
        assert(candidate_ok(offers, now, all[j], backend));
    }
    assert forall|k: int| 0 <= k < sub.len() implies (#[trigger] candidate_runtime(offers, sub[k])).compatibility_key@ == key by {
        assert(all.contains(sub[k]));
        let j = choose|j: int| 0 <= j < all.len() && all[j] == sub[k];
        assert(candidate_runtime(offers, all[j]).compatibility_key@ == key);
    }
}

/// Whether a selection came from one runtime group: one backend, one compatibility key, and
/// at most `max_nodes` members.
pub open spec fn selection_sound(offers: Seq<ResourceOfferV1>, now: i128, backend: ModelBackend, sel: Seq<RuntimeCandidate>, max_nodes: u16) -> bool {
    &&& candidates_ok(offers, now, sel, backend)
    &&& exists|key: Seq<char>| #[trigger] same_key(offers, sel, key)
    &&& sel.len() <= max_nodes
}


proof fn lemma_group_selection(offers: Seq<ResourceOfferV1>, now: i128, g: RuntimeGroup, max_nodes: u16)
    requires
        group_sound(offers, now, g, max_nodes),
    ensures
        selection_sound(offers, now, g.backend, g.candidates@, max_nodes),
        forall|k: int| 0 <= k < g.candidates@.len() ==> selection_sound(offers, now, g.backend, seq![#[trigger] g.candidates@[k]], max_nodes),
{
    assert(same_key(offers, g.candidates@, g.key@));
    assert forall|k: int| 0 <= k < g.candidates@.len() implies selection_sound(offers, now, g.backend, seq![#[trigger] g.candidates@[k]], max_nodes) by {
        let one = seq![g.candidates@[k]];
        assert(candidate_ok(offers, now, g.candidates@[k], g.backend));
        assert(candidate_runtime(offers, g.candidates@[k]).compatibility_key@ == g.key@);
        assert(same_key(offers, one, g.key@));
    }
}

/// The maximum-model-size choice: the first ranked group, pipelined where it can be.
#[verifier::loop_isolation(false)]
fn select_max_size(
    offers: &[ResourceOfferV1],
    ranked: Vec<RuntimeGroup>,
    required: u64,
    Ghost(now): Ghost<i128>,
    Ghost(max_nodes): Ghost<u16>,
) -> (r: (ModelBackend, Vec<RuntimeCandidate>, ModelParallelism, u64))
    requires
        ranked@.len() > 0,
        forall|t: int| 0 <= t < ranked@.len() ==> group_sound(offers@, now, #[trigger] ranked@[t], max_nodes),
    ensures
        selection_sound(offers@, now, r.0, r.1@, max_nodes),
        (r.0, r.1@, r.2, r.3) == selection_spec(ComputeStrategy::MaximumModelSize, offers@, ranked@, required as int),
{
    let ghost groups = ranked@;
    let ghost req = required as int;
    let mut ranked = ranked;
    let g = ranked.remove(0);
    proof {
        assert(g == groups[0]);
        assert(group_sound(offers@, now, g, max_nodes));
        lemma_group_selection(offers@, now, g, max_nodes);
    }
    let p = if g.candidates.len() > 1 && all_support(offers, &g.candidates, ModelParallelism::Pipeline, Ghost(now), Ghost(g.backend)) {
        ModelParallelism::Pipeline
    } else {
        ModelParallelism::WholeModel
    };
    (g.backend, g.candidates, p, 1000)
}

/// The speed-boost choice: the best worthwhile tensor group, else the best single holder, else the first group pipelined.
#[verifier::loop_isolation(false)]
fn select_speed_boost(
    offers: &[ResourceOfferV1],
    ranked: Vec<RuntimeGroup>,
    required: u64,
    Ghost(now): Ghost<i128>,
    Ghost(max_nodes): Ghost<u16>,
) -> (r: (ModelBackend, Vec<RuntimeCandidate>, ModelParallelism, u64))
    requires
        ranked@.len() > 0,
        forall|t: int| 0 <= t < ranked@.len() ==> group_sound(offers@, now, #[trigger] ranked@[t], max_nodes),
    ensures
        selection_sound(offers@, now, r.0, r.1@, max_nodes),
        (r.0, r.1@, r.2, r.3) == selection_spec(ComputeStrategy::SpeedBoost, offers@, ranked@, required as int),
{
    let ghost groups = ranked@;
    let ghost req = required as int;
    let mut ranked = ranked;
    let mut best_single: Option<(usize, usize)> = None;
    let mut best_distributed: Option<(usize, u64)> = None;
    let mut i: usize = 0;
    while i < ranked.len()
        invariant
            i <= ranked@.len(),
            ranked@ == groups,
            match best_single {
                Some((g, q)) => best_single_holder(groups, req, i as int) == Some((g as int, q as int)) && g < i
                    && q < groups[g as int].candidates@.len(),
                None => best_single_holder(groups, req, i as int) is None,
            },
            match best_distributed {
                Some((g, sp)) => best_tensor_group(offers@, groups, req, i as int) == Some((g as int, sp)) && g < i,
                None => best_tensor_group(offers@, groups, req, i as int) is None,
            },
        decreases ranked@.len() - i,
    {
        let g = &ranked[i];
        proof {
            assert(group_sound(offers@, now, groups[i as int], max_nodes));
        }
        let fh = first_holding(&g.candidates, required);
        match fh {
            Some(k) => {
                let better = match best_single {
                    None => true,
                    Some((bg, bq)) => g.candidates[k].available_bytes > ranked[bg].candidates[bq].available_bytes,
                };
                if better {
                    best_single = Some((i, k));
                }
            },
            None => {},
        }
        let ready = g.candidates.len() > 1 && all_tensor_ready(offers, &g.candidates, Ghost(now), Ghost(g.backend));
        let ghost cs = groups[i as int].candidates@;
        if ready {
            let refs = candidate_offers(offers, &g.candidates, Ghost(now), Ghost(g.backend));
            let speedup = predicted_tensor_speedup_milli(&refs);
            let shard = ceil_div_u64(required, g.candidates.len() as u64);
            let better = match best_distributed {
                None => true,
                Some((_, cur)) => speedup > cur,
            };
            let holds = all_hold(&g.candidates, shard);
            proof {
                assert(speedup == tensor_speedup_spec(selection_offers(offers@, cs)));
                assert(shard == tensor_shard(cs, req));
                assert(tensor_worthwhile(offers@, cs, req) == (speedup > 1100 && holds));
            }
            if speedup > 1100 && holds && better {
                best_distributed = Some((i, speedup));
            }
        } else {
            assert(!tensor_ready(offers@, cs));
        }
        i = i + 1;
    }
    match best_distributed {
        Some((gi, speedup)) => {
            let cs = copy_candidates(&ranked[gi].candidates);
            proof {
                assert(group_sound(offers@, now, groups[gi as int], max_nodes));
                lemma_group_selection(offers@, now, groups[gi as int], max_nodes);
            }
            (ranked[gi].backend, cs, ModelParallelism::Tensor, speedup)
        },
        None => match best_single {
            Some((bg, bq)) => {
                let c = ranked[bg].candidates[bq];
                proof {
                    assert(group_sound(offers@, now, groups[bg as int], max_nodes));
                    lemma_group_selection(offers@, now, groups[bg as int], max_nodes);
                }
                let v = vec![c];
                assert(v@ =~= seq![groups[bg as int].candidates@[bq as int]]);
                (ranked[bg].backend, v, ModelParallelism::WholeModel, 1000)
            },
            None => {
                let g = ranked.remove(0);
                proof {
                    assert(g == groups[0]);
                    assert(group_sound(offers@, now, g, max_nodes));
                    lemma_group_selection(offers@, now, g, max_nodes);
                }
                (g.backend, g.candidates, ModelParallelism::Pipeline, 1000)
            },
        },
    }
}

/// The maximum-throughput choice: replicas over the group with the most holders.
#[verifier::loop_isolation(false)]
fn select_throughput(
    offers: &[ResourceOfferV1],
    ranked: Vec<RuntimeGroup>,
    required: u64,
    Ghost(now): Ghost<i128>,
    Ghost(max_nodes): Ghost<u16>,
) -> (r: (ModelBackend, Vec<RuntimeCandidate>, ModelParallelism, u64))
    requires
        ranked@.len() > 0,
        forall|t: int| 0 <= t < ranked@.len() ==> group_sound(offers@, now, #[trigger] ranked@[t], max_nodes),
    ensures
        selection_sound(offers@, now, r.0, r.1@, max_nodes),
        (r.0, r.1@, r.2, r.3) == selection_spec(ComputeStrategy::MaximumThroughput, offers@, ranked@, required as int),
{
    let ghost groups = ranked@;
    let ghost req = required as int;
    let mut ranked = ranked;
    let mut best_index: usize = 0;
    let mut best: Vec<RuntimeCandidate> = holding(&ranked[0].candidates, required);
    proof {
        assert(group_sound(offers@, now, groups[0], max_nodes));
    }
    let mut i: usize = 1;
    while i < ranked.len()
        invariant
            1 <= i <= ranked@.len(),
            ranked@ == groups,
            best_index < ranked@.len(),
            best_index == most_holders_group(groups, req, i as int),
            best@ == holders(groups[best_index as int].candidates@, req),
            forall|k: int| 0 <= k < best@.len() ==> ranked@[best_index as int].candidates@.contains(#[trigger] best@[k]) && best@[k].available_bytes >= required,
            best@.len() <= ranked@[best_index as int].candidates@.len(),
        decreases ranked@.len() - i,
    {
        let replicas = holding(&ranked[i].candidates, required);
        if replicas.len() >= best.len() {
            best = replicas;
            best_index = i;
        }
        i = i + 1;
    }
    proof {
        assert(group_sound(offers@, now, ranked@[best_index as int], max_nodes));
    }
    if best.len() == 0 {
        let g = ranked.remove(0);
        proof {
            assert(g == groups[0]);
            assert(group_sound(offers@, now, g, max_nodes));
            lemma_group_selection(offers@, now, g, max_nodes);
        }
        let n = g.candidates.len();
        let speedup: u64 = if n > 1 { n as u64 * 1000 } else { 1000 };
        (g.backend, g.candidates, ModelParallelism::Replica, speedup)
    } else {
        let backend = ranked[best_index].backend;
        proof {
            lemma_subset_ok(offers@, now, ranked@[best_index as int].candidates@, best@, backend, ranked@[best_index as int].key@);
        }
        let n = best.len();
        let speedup: u64 = if n > 1 { n as u64 * 1000 } else { 1000 };
        (backend, best, ModelParallelism::Replica, speedup)
    }
}

/// The efficiency choice: the holder with the fewest usable bytes, whole-model.
#[verifier::loop_isolation(false)]
fn select_efficiency(
    offers: &[ResourceOfferV1],
    ranked: Vec<RuntimeGroup>,
    required: u64,
    Ghost(now): Ghost<i128>,
    Ghost(max_nodes): Ghost<u16>,
) -> (r: (ModelBackend, Vec<RuntimeCandidate>, ModelParallelism, u64))
    requires
        ranked@.len() > 0,
        forall|t: int| 0 <= t < ranked@.len() ==> group_sound(offers@, now, #[trigger] ranked@[t], max_nodes),
        max_nodes > 0,
    ensures
        selection_sound(offers@, now, r.0, r.1@, max_nodes),
        (r.0, r.1@, r.2, r.3) == selection_spec(ComputeStrategy::Efficiency, offers@, ranked@, required as int),
{
    let ghost groups = ranked@;
    let ghost req = required as int;
    let mut ranked = ranked;
    proof {
        assert(group_sound(offers@, now, groups[0], max_nodes));
    }
    let mut best: Option<(usize, usize)> = None;
    let mut i: usize = 0;
    while i < ranked.len()
        invariant
            i <= ranked@.len(),
            ranked@ == groups,
            match best {
                Some((g, q)) => least_holder(groups, req, i as int) == Some((g as int, q as int)) && g < i
                    && q < groups[g as int].candidates@.len(),
                None => least_holder(groups, req, i as int) is None,
            },
        decreases ranked@.len() - i,
    {
        let ghost acc = least_holder(groups, req, i as int);
        let mut k: usize = 0;
        while k < ranked[i].candidates.len()
            invariant
                i < ranked@.len(),
                ranked@ == groups,
                k <= groups[i as int].candidates@.len(),
                match best {
                    Some((g, q)) => least_holder_in(groups, req, i as int, k as int, acc) == Some((g as int, q as int)) && g <= i
                        && q < groups[g as int].candidates@.len(),
                    None => least_holder_in(groups, req, i as int, k as int, acc) is None,
                },
            decreases groups[i as int].candidates@.len() - k,
        {
            let c = ranked[i].candidates[k];
            if c.available_bytes >= required {
                let better = match best {
                    None => true,
                    Some((g, q)) => c.available_bytes < ranked[g].candidates[q].available_bytes,
                };
                if better {
                    best = Some((i, k));
                }
            }
            k = k + 1;
        }
        i = i + 1;
    }
    let (g, q) = match best {
        Some(x) => x,
        None => (0, 0),
    };
    let c = ranked[g].candidates[q];
    proof {
        assert(group_sound(offers@, now, groups[g as int], max_nodes));
        lemma_group_selection(offers@, now, groups[g as int], max_nodes);
    }
    let v = vec![c];
    assert(v@ =~= seq![groups[g as int].candidates@[q as int]]);
    (ranked[g].backend, v, ModelParallelism::WholeModel, 1000)
}

/// The autonomous choice: the first holder of the first group that has one, else the first group pipelined.
#[verifier::loop_isolation(false)]
fn select_balanced(
    offers: &[ResourceOfferV1],
    ranked: Vec<RuntimeGroup>,
    required: u64,
    Ghost(now): Ghost<i128>,
    Ghost(max_nodes): Ghost<u16>,
) -> (r: (ModelBackend, Vec<RuntimeCandidate>, ModelParallelism, u64))
    requires
        ranked@.len() > 0,
        forall|t: int| 0 <= t < ranked@.len() ==> group_sound(offers@, now, #[trigger] ranked@[t], max_nodes),
    ensures
        selection_sound(offers@, now, r.0, r.1@, max_nodes),
        (r.0, r.1@, r.2, r.3) == selection_spec(ComputeStrategy::AutonomousBalanced, offers@, ranked@, required as int),
{
    let ghost groups = ranked@;
    let ghost req = required as int;
    let mut ranked = ranked;
    let mut i: usize = 0;
    while i < ranked.len()
        invariant
            i <= ranked@.len(),
            ranked@ == groups,
            first_group_holder(groups, req, i as int) is None,
        decreases ranked@.len() - i,
    {
        match first_holding(&ranked[i].candidates, required) {
            Some(k) => {
                let g = &ranked[i];
                let c = g.candidates[k];
                proof {
                    assert(group_sound(offers@, now, groups[i as int], max_nodes));
                    lemma_group_selection(offers@, now, groups[i as int], max_nodes);
                    assert(first_group_holder(groups, req, i + 1) == Some((i as int, k as int)));
                    lemma_first_group_holder_stays(groups, req, i + 1, groups.len() as int);
                }
                let v = vec![c];
                assert(v@ =~= seq![groups[i as int].candidates@[k as int]]);
                return (g.backend, v, ModelParallelism::WholeModel, 1000);
            },
            None => {},
        }
        i = i + 1;
    }
    let g = ranked.remove(0);
    proof {
        assert(g == groups[0]);
        assert(group_sound(offers@, now, g, max_nodes));
        lemma_group_selection(offers@, now, g, max_nodes);
    }
    (g.backend, g.candidates, ModelParallelism::Pipeline, 1000)
}

/// Select runtimes for a strategy from ranked groups.
fn select_runtimes(
    strategy: ComputeStrategy,
    offers: &[ResourceOfferV1],
    ranked: Vec<RuntimeGroup>,
    required: u64,
    Ghost(now): Ghost<i128>,
    Ghost(max_nodes): Ghost<u16>,
) -> (r: (ModelBackend, Vec<RuntimeCandidate>, ModelParallelism, u64))
    requires
        ranked@.len() > 0,
        forall|t: int| 0 <= t < ranked@.len() ==> group_sound(offers@, now, #[trigger] ranked@[t], max_nodes),
        strategy == ComputeStrategy::Efficiency ==> max_nodes > 0,
    ensures
        selection_sound(offers@, now, r.0, r.1@, max_nodes),
        (r.0, r.1@, r.2, r.3) == selection_spec(strategy, offers@, ranked@, required as int),
{
    match strategy {
        ComputeStrategy::MaximumModelSize => select_max_size(offers, ranked, required, Ghost(now), Ghost(max_nodes)),
        ComputeStrategy::SpeedBoost => select_speed_boost(offers, ranked, required, Ghost(now), Ghost(max_nodes)),
        ComputeStrategy::MaximumThroughput => select_throughput(offers, ranked, required, Ghost(now), Ghost(max_nodes)),
        ComputeStrategy::Efficiency => select_efficiency(offers, ranked, required, Ghost(now), Ghost(max_nodes)),
        ComputeStrategy::AutonomousBalanced => select_balanced(offers, ranked, required, Ghost(now), Ghost(max_nodes)),
    }
}

/// The plan that the request's strategy makes of the collected runtime groups, ranked by total
/// usable bytes.
pub open spec fn plan_for_groups(plan: ModelSessionPlan, request: ModelSessionRequestV1, offers: Seq<ResourceOfferV1>, now: i128, groups: Seq<RuntimeGroup>) -> bool {
    let s = selection_spec(request.strategy, offers, rank_by_total(groups), request.required_bytes_spec());
    plan_from_selection(plan, request, offers, now, s.0, s.1, s.2, s.3)
}

/// The plan where no live offer lends a runtime: blocked, with no backend, no placement and no
/// authority; raw memory that is visible is mentioned.
pub open spec fn no_runtime_plan(plan: ModelSessionPlan, request: ModelSessionRequestV1, offers: Seq<ResourceOfferV1>, now: i128) -> bool {
    &&& plan_basics(plan, request, offers, now)
    &&& plan.state == ModelPlanState::CapacityBlocked
    &&& plan.backend is None
    &&& plan.parallelism is None
    &&& !plan.distributed
    &&& plan.maximum_supported_bytes == 0
    &&& plan.predicted_speedup_milli == 1000
    &&& plan.placements@.len() == 0
    &&& plan.blockers@.map_values(|b: String| b@) == seq![NO_RUNTIME_BLOCKER@]
    &&& plan.warnings@.map_values(|w: String| w@) == (if observed_total(offers, now) > 0 { seq![RAW_MEMORY_WARNING@] } else { Seq::empty() })
    &&& plan.reason@ == NO_GROUP_REASON@
}

proof fn lemma_observed_prefix(offers: Seq<ResourceOfferV1>, now: i128, i: int)
    requires
        0 <= i <= offers.len(),
    ensures
        0 <= observed_total(offers.take(i), now) <= observed_total(offers, now),
    decreases offers.len() - i,
{
    if i == offers.len() {
        assert(offers.take(i) =~= offers);
        lemma_observed_nonneg(offers, now);
    } else {
        lemma_observed_prefix(offers, now, i + 1);
        assert(offers.take(i + 1).drop_last() =~= offers.take(i));
        lemma_observed_nonneg(offers.take(i), now);
    }
}

proof fn lemma_observed_nonneg(offers: Seq<ResourceOfferV1>, now: i128)
    ensures
        observed_total(offers, now) >= 0,
    decreases offers.len(),
{
    if offers.len() > 0 {
        lemma_observed_nonneg(offers.drop_last(), now);
    }
}

fn observed_fabric_bytes(offers: &[ResourceOfferV1], now: i128) -> (r: u64)
    requires
        observed_total(offers@, now) <= u64::MAX,
    ensures
        r == observed_total(offers@, now),
{
    let mut total: u64 = 0;
    let mut i: usize = 0;
    while i < offers.len()
        invariant
            i <= offers@.len(),
            observed_total(offers@, now) <= u64::MAX,
            total == observed_total(offers@.take(i as int), now),
        decreases offers@.len() - i,
    {
        proof {
            assert(offers@.take(i + 1).drop_last() =~= offers@.take(i as int));
            lemma_observed_prefix(offers@, now, i + 1);
        }
        if model_offer_is_live(&offers[i], now) {
            total = total + observed_model_memory(&offers[i]);
        }
        i = i + 1;
    }
    proof {
        assert(offers@.take(offers@.len() as int) =~= offers@);
    }
    total
}

/// Build a read-only model placement preview at `now`. It never issues a lease or starts a
/// backend: distributed readiness requires an exact, qualified runtime offer on every selected
/// node plus measured links, and launch remains a separate Governor action.
pub fn plan_model_session(request: &ModelSessionRequestV1, offers: &[ResourceOfferV1], now: i128) -> (r: ModelSessionPlan)
    requires
        observed_total(offers@, now) <= u64::MAX,
        request.strategy == ComputeStrategy::Efficiency && any_candidate(offers@, now) ==> request.max_nodes > 0,
    ensures
        plan_basics(r, *request, offers@, now),
        !any_candidate(offers@, now) ==> no_runtime_plan(r, *request, offers@, now),
        any_candidate(offers@, now) ==> exists|groups: Seq<RuntimeGroup>| collected_groups(offers@, now, request.max_nodes, groups)
            && #[trigger] plan_for_groups(r, *request, offers@, now, groups),
        r.state == ModelPlanState::Ready && r.distributed ==> forall|m: int| 0 <= m < r.placements@.len() ==> exists|i: int|
            0 <= i < offers@.len() && offers@[i].node_id == (#[trigger] r.placements@[m]).node_id
            && (offers@[i].mesh_endpoint is None || (offers@[i].link_benchmark matches Some(link)
                && link.rtt_micros_p50 <= 25_000 && link.uplink_bps >= 250_000_000 && link.downlink_bps >= 250_000_000)),
{
    let required = request.required_bytes();
    let observed = observed_fabric_bytes(offers, now);
    let groups = collect_groups(offers, now, request.max_nodes);
    if groups.len() == 0 {
        let mut blockers: Vec<String> = Vec::new();
        blockers.push(NO_RUNTIME_BLOCKER.to_string());
        let mut warnings: Vec<String> = Vec::new();
        if observed > 0 {
            warnings.push(RAW_MEMORY_WARNING.to_string());
        }
        proof {
            assert(blockers@.map_values(|b: String| b@) =~= seq![NO_RUNTIME_BLOCKER@]);
            assert(warnings@.map_values(|w: String| w@) =~= (if observed_total(offers@, now) > 0 { seq![RAW_MEMORY_WARNING@] } else { Seq::empty() }));
        }
        return ModelSessionPlan {
            schema: ModelSessionPlan::SCHEMA.to_string(),
            session_id: request.session_id,
            strategy: request.strategy,
            state: ModelPlanState::CapacityBlocked,
            backend: None,
            parallelism: None,
            distributed: false,
            required_bytes: required,
            observed_fabric_bytes: observed,
            maximum_supported_bytes: 0,
            predicted_speedup_milli: 1000,
            placements: Vec::new(),
            blockers,
            warnings,
            proposed_local_endpoint: None,
            execution_authority: PREVIEW_ONLY.to_string(),
            reason: NO_GROUP_REASON.to_string(),
        };
    }
    let ghost groups_view = groups@;
    let ranked = rank_groups(groups, Ghost(offers@), Ghost(now), Ghost(request.max_nodes));
    let (backend, sel, p, speedup) = select_runtimes(request.strategy, offers, ranked, required, Ghost(now), Ghost(request.max_nodes));
    let ghost sel_view = sel@;
    let ghost collected = groups_view;
    let plan = assemble_plan(request, offers, now, observed, backend, sel, p, speedup);
    proof {
        assert(plan_from_selection(plan, *request, offers@, now, backend, sel_view, p, speedup));
        assert(plan_for_groups(plan, *request, offers@, now, collected));
        if plan.state == ModelPlanState::Ready && plan.distributed {
            law_ready_distributed_plan_uses_only_fast_links(plan, *request, offers@, now, backend, sel_view, p, speedup);
        }
    }
    plan
}

/// A plan that is ready to launch across several nodes has the evidence for it: every selected
/// runtime is qualified for distribution and every selected node sits on a ready link.
pub proof fn law_ready_distributed_plan_is_qualified(
    plan: ModelSessionPlan,
    request: ModelSessionRequestV1,
    offers: Seq<ResourceOfferV1>,
    now: i128,
    backend: ModelBackend,
    sel: Seq<RuntimeCandidate>,
    p: ModelParallelism,
    speedup: u64,
)
    requires
        plan_from_selection(plan, request, offers, now, backend, sel, p, speedup),
        plan.state == ModelPlanState::Ready,
        plan.distributed,
    ensures
        forall|k: int| 0 <= k < sel.len() ==> (#[trigger] candidate_runtime(offers, sel[k])).qualified_for_distributed_spec()
            && topology_ready_spec(offers[sel[k].offer as int]),
        capacity_fits_spec(sel, p, request.required_bytes_spec()),
{
}

/// A plan that is ready to launch across several nodes places work only on nodes the controller
/// reaches without a network hop, or over a measured link of at most 25 ms p50 round trip and at
/// least 250 Mbit/s each way: every placement names the node of such an offer.
pub proof fn law_ready_distributed_plan_uses_only_fast_links(
    plan: ModelSessionPlan,
    request: ModelSessionRequestV1,
    offers: Seq<ResourceOfferV1>,
    now: i128,
    backend: ModelBackend,
    sel: Seq<RuntimeCandidate>,
    p: ModelParallelism,
    speedup: u64,
)
    requires
        plan_from_selection(plan, request, offers, now, backend, sel, p, speedup),
        candidates_ok(offers, now, sel, backend),
        plan.state == ModelPlanState::Ready,
        plan.distributed,
    ensures
        forall|m: int| 0 <= m < plan.placements@.len() ==> exists|i: int| 0 <= i < offers.len()
            && offers[i].node_id == (#[trigger] plan.placements@[m]).node_id
            && (offers[i].mesh_endpoint is None || (offers[i].link_benchmark matches Some(link)
                && link.rtt_micros_p50 <= 25_000 && link.uplink_bps >= 250_000_000 && link.downlink_bps >= 250_000_000)),
{
    assert forall|m: int| 0 <= m < plan.placements@.len() implies exists|i: int| 0 <= i < offers.len()
        && offers[i].node_id == (#[trigger] plan.placements@[m]).node_id
        && (offers[i].mesh_endpoint is None || (offers[i].link_benchmark matches Some(link)
            && link.rtt_micros_p50 <= 25_000 && link.uplink_bps >= 250_000_000 && link.downlink_bps >= 250_000_000)) by {
        let k: int = if p == ModelParallelism::WholeModel { 0 } else { m };
        if p == ModelParallelism::WholeModel {
            let first = sel.take(if sel.len() > 1 { 1int } else { sel.len() as int });
            assert(first[m] == sel[0]);
        }
        assert(placement_is(offers, plan.placements@[m], sel[k], m,
            if p == ModelParallelism::Tensor { tensor_shard(sel, request.required_bytes_spec()) }
            else if p == ModelParallelism::WholeModel { pipeline_share(sel.take(1), request.required_bytes_spec(), m) }
            else { pipeline_share(sel, request.required_bytes_spec(), m) },
            if m == 0 { "coordinator_rank"@ } else if p == ModelParallelism::Tensor { "tensor_rank"@ } else { "model_rank"@ }));
        assert(candidate_ok(offers, now, sel[k], backend));
        assert(selection_qualified(offers, sel, true));
        assert(candidate_runtime(offers, sel[k]).qualified_for_distributed_spec());
        assert(topology_ready_spec(offers[sel[k].offer as int]));
        let i = sel[k].offer as int;
        assert(offers[i].node_id == plan.placements@[m].node_id);
    }
}

proof fn lemma_best_tensor_group(offers: Seq<ResourceOfferV1>, ranked: Seq<RuntimeGroup>, required: int, n: int)
    ensures
        best_tensor_group(offers, ranked, required, n) matches Some((g, sp)) ==> 0 <= g < n
            && tensor_worthwhile(offers, ranked[g].candidates@, required)
            && sp == tensor_speedup_spec(selection_offers(offers, ranked[g].candidates@)),
    decreases n,
{
    if n > 0 {
        lemma_best_tensor_group(offers, ranked, required, n - 1);
    }
}

/// Speed boost goes tensor-parallel only past the speedup gate, which only low-latency links
/// open: a tensor choice predicts more than a 1.1x speedup, spans several nodes, and every one
/// of them is the controller itself or sits on a measured link of at most 5 ms p50 round trip
/// and at least 1 Gbit/s each way.
pub proof fn law_tensor_choice_needs_fast_links(offers: Seq<ResourceOfferV1>, ranked: Seq<RuntimeGroup>, required: int)
    requires
        ranked.len() > 0,
        selection_spec(ComputeStrategy::SpeedBoost, offers, ranked, required).2 == ModelParallelism::Tensor,
    ensures
        ({
            let s = selection_spec(ComputeStrategy::SpeedBoost, offers, ranked, required);
            &&& s.3 > 1100
            &&& s.1.len() > 1
            &&& forall|k: int| 0 <= k < s.1.len() ==> (#[trigger] offers[s.1[k].offer as int]).mesh_endpoint is None
                || (offers[s.1[k].offer as int].link_benchmark matches Some(link) && link.rtt_micros_p50 <= 5_000
                    && link.uplink_bps >= 1_000_000_000 && link.downlink_bps >= 1_000_000_000)
        }),
{
    let n = ranked.len() as int;
    lemma_best_tensor_group(offers, ranked, required, n);
    let (g, sp) = best_tensor_group(offers, ranked, required, n)->0;
    let cs = ranked[g].candidates@;
    let os = selection_offers(offers, cs);
    assert(tensor_speedup_spec(os) > 1100);
    assert(forall|i: int| 0 <= i < os.len() ==> speed_topology_ready_spec(#[trigger] os[i]));
    assert forall|k: int| 0 <= k < cs.len() implies (#[trigger] offers[cs[k].offer as int]).mesh_endpoint is None
        || (offers[cs[k].offer as int].link_benchmark matches Some(link) && link.rtt_micros_p50 <= 5_000
            && link.uplink_bps >= 1_000_000_000 && link.downlink_bps >= 1_000_000_000) by {
        assert(os[k] == offers[cs[k].offer as int]);
        assert(speed_topology_ready_spec(os[k]));
    }
}

/// A plan grants nothing: whatever it proposes, its execution authority is a preview.
pub proof fn law_plans_grant_no_authority(plan: ModelSessionPlan, request: ModelSessionRequestV1, offers: Seq<ResourceOfferV1>, now: i128)
    requires
        plan_basics(plan, request, offers, now),
    ensures
        plan.execution_authority@ == "none_preview_only"@,
        plan.proposed_local_endpoint is None,
{
    reveal_strlit("none_preview_only");
}

} // verus!
