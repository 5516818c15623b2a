//! The live model catalog: which installed models the fabric can serve right now, whole, on one
//! contributor, and which contributor a model request goes to.

use crate::controller::{runtime_capacity, runtime_capacity_spec};
use crate::gateway::{prompt_bytes_spec, ModelGatewayFailure, OpenAiChatMessage};
use crate::policy::{denial_text, Governor, ModelSessionLimits};
use crate::protocol::{
    contains_parallelism, InstalledModelV1, ModelBackend, ModelParallelism, ModelRuntimeOfferV1, ModelRuntimeStatus,
    ModelSessionLeaseV1, ResourceOfferV1,
};
use crate::text::{contains_text, text_eq, text_len, utf8, vec_contains_text};
use vstd::prelude::*;

verus! {

/// The only adapter that serves catalog models.
pub const CATALOG_ADAPTER: &'static str = "rampage.ollama.v1";

/// An installed model servable by a runtime of an offer, by position: the offer, the runtime
/// within it, and the model within the runtime.
#[derive(Debug, Clone, Copy, PartialEq, Eq, Structural)]
pub struct CatalogCandidate {
    pub offer: usize,
    pub runtime: usize,
    pub model: usize,
}

/// An offer contributes to the catalog while it is live, not excluded by diagnostics, reachable
/// over the mesh, in the foreground, thermally comfortable, and on power or well charged.
pub open spec fn offer_serves_models(offer: ResourceOfferV1, now: i128, excluded: Seq<u128>) -> bool {
    &&& offer.expires_at > now
    &&& !excluded.contains(offer.node_id)
    &&& offer.mesh_endpoint is Some
    &&& offer.availability.foreground_allowed
    &&& offer.availability.thermal_headroom_percent >= 15
    &&& (offer.availability.on_ac_power || match offer.availability.battery_percent {
        Some(p) => p >= 50,
        None => true,
    })
}

/// A runtime serves catalog models when it is a shipped local Ollama runtime of the current schema,
/// under the catalog adapter the offer advertises, running models whole.
pub open spec fn runtime_serves_models(offer: ResourceOfferV1, runtime: ModelRuntimeOfferV1) -> bool {
    &&& runtime.schema@ == ModelRuntimeOfferV1::SCHEMA@
    &&& runtime.backend == ModelBackend::LocalOllama
    &&& runtime.status == ModelRuntimeStatus::ShippedLocal
    &&& runtime.adapter@ == CATALOG_ADAPTER@
    &&& contains_text(offer.adapters@, runtime.adapter@)
    &&& runtime.supported_parallelism@.contains(ModelParallelism::WholeModel)
}

/// The bytes a model needs with a fifth of headroom, saturating.
pub open spec fn guarded_bytes(size: u64) -> int {
    if size + size / 5 > u64::MAX { u64::MAX as int } else { size + size / 5 }
}

/// A model fits a runtime when it is a valid installed model and the runtime's capacity covers it
/// with headroom.
pub open spec fn model_fits(offer: ResourceOfferV1, runtime: ModelRuntimeOfferV1, model: InstalledModelV1) -> bool {
    model.valid_spec() && runtime_capacity_spec(offer, runtime) >= guarded_bytes(model.artifact_size_bytes)
}

/// The candidates for `model_id` among the first `m` models of runtime `r` of offer `o`.
pub open spec fn model_slots(offers: Seq<ResourceOfferV1>, o: int, r: int, model_id: Seq<char>, m: int) -> Seq<CatalogCandidate>
    decreases m,
{
    if m <= 0 {
        Seq::empty()
    } else {
        let offer = offers[o];
        let runtime = offer.model_runtimes@[r];
        let model = runtime.installed_models@[m - 1];
        model_slots(offers, o, r, model_id, m - 1) + if runtime_serves_models(offer, runtime) && model_fits(offer, runtime, model)
            && model.model_id@ == model_id {
            seq![CatalogCandidate { offer: o as usize, runtime: r as usize, model: (m - 1) as usize }]
        } else {
            Seq::empty()
        }
    }
}

/// The candidates for `model_id` among the first `r` runtimes of offer `o`.
pub open spec fn runtime_slots(offers: Seq<ResourceOfferV1>, o: int, model_id: Seq<char>, r: int) -> Seq<CatalogCandidate>
    decreases r,
{
    if r <= 0 {
        Seq::empty()
    } else {
        runtime_slots(offers, o, model_id, r - 1) + model_slots(
            offers,
            o,
            r - 1,
            model_id,
            offers[o].model_runtimes@[r - 1].installed_models@.len() as int,
        )
    }
}

/// The candidates for `model_id` among the first `n` offers, in offer, runtime and model order.
pub open spec fn catalog_slots(offers: Seq<ResourceOfferV1>, model_id: Seq<char>, now: i128, excluded: Seq<u128>, n: int) -> Seq<CatalogCandidate>
    decreases n,
{
    if n <= 0 {
        Seq::empty()
    } else {
        catalog_slots(offers, model_id, now, excluded, n - 1) + if offer_serves_models(offers[n - 1], now, excluded) {
            runtime_slots(offers, n - 1, model_id, offers[n - 1].model_runtimes@.len() as int)
        } else {
            Seq::empty()
        }
    }
}

/// The digest of the model a candidate names.
pub open spec fn candidate_digest(offers: Seq<ResourceOfferV1>, c: CatalogCandidate) -> Seq<char> {
    offers[c.offer as int].model_runtimes@[c.runtime as int].installed_models@[c.model as int].artifact_digest@
}

/// Every candidate names an existing offer, runtime and model.
pub open spec fn slots_in_bounds(offers: Seq<ResourceOfferV1>, cs: Seq<CatalogCandidate>) -> bool {
    forall|c: int| 0 <= c < cs.len() ==> (#[trigger] cs[c]).offer < offers.len()
        && cs[c].runtime < offers[cs[c].offer as int].model_runtimes@.len()
        && cs[c].model < offers[cs[c].offer as int].model_runtimes@[cs[c].runtime as int].installed_models@.len()
}

/// Every candidate names an installed model with the given id.
pub open spec fn slots_for_model(offers: Seq<ResourceOfferV1>, cs: Seq<CatalogCandidate>, model_id: Seq<char>) -> bool {
    forall|c: int| 0 <= c < cs.len() ==> offers[(#[trigger] cs[c]).offer as int].model_runtimes@[cs[c].runtime as int].installed_models@[
        cs[c].model as int].model_id@ == model_id
}

/// A model is in the catalog only when every candidate for it carries one and the same digest.
pub open spec fn digests_agree(offers: Seq<ResourceOfferV1>, cs: Seq<CatalogCandidate>) -> bool {
    forall|i: int| 0 <= i < cs.len() ==> #[trigger] candidate_digest(offers, cs[i]) == candidate_digest(offers, cs[0])
}

/// The catalog entry for `model_id`: its candidates when the model is consistently installed,
/// otherwise none.
pub open spec fn catalog_entry(offers: Seq<ResourceOfferV1>, model_id: Seq<char>, now: i128, excluded: Seq<u128>) -> Seq<CatalogCandidate> {
    let cs = catalog_slots(offers, model_id, now, excluded, offers.len() as int);
    if digests_agree(offers, cs) { cs } else { Seq::empty() }
}

fn vec_contains_u128(v: &Vec<u128>, x: u128) -> (r: bool)
    ensures
        r == v@.contains(x),
{
    let mut i: usize = 0;
    while i < v.len()
        invariant
            i <= v@.len(),
            forall|j: int| 0 <= j < i ==> v@[j] != x,
        decreases v@.len() - i,
    {
        if v[i] == x {
            assert(v@[i as int] == x);
            return true;
        }
        i = i + 1;
    }
    false
}

fn offer_qualifies(offer: &ResourceOfferV1, now: i128, excluded: &Vec<u128>) -> (r: bool)
    ensures
        r == offer_serves_models(*offer, now, excluded@),
{
    offer.expires_at > now && !vec_contains_u128(excluded, offer.node_id) && offer.mesh_endpoint.is_some()
        && offer.availability.foreground_allowed && offer.availability.thermal_headroom_percent >= 15 && (
    offer.availability.on_ac_power || match offer.availability.battery_percent {
        Some(p) => p >= 50,
        None => true,
    })
}

fn runtime_qualifies(offer: &ResourceOfferV1, runtime: &ModelRuntimeOfferV1) -> (r: bool)
    ensures
        r == runtime_serves_models(*offer, *runtime),
{
    text_eq(runtime.schema.as_str(), ModelRuntimeOfferV1::SCHEMA) && runtime.backend == ModelBackend::LocalOllama
        && runtime.status == ModelRuntimeStatus::ShippedLocal && text_eq(runtime.adapter.as_str(), CATALOG_ADAPTER)
        && vec_contains_text(&offer.adapters, runtime.adapter.as_str()) && contains_parallelism(
        &runtime.supported_parallelism,
        ModelParallelism::WholeModel,
    )
}

fn model_qualifies(offer: &ResourceOfferV1, runtime: &ModelRuntimeOfferV1, model: &InstalledModelV1) -> (r: bool)
    ensures
        r == model_fits(*offer, *runtime, *model),
{
    let size = model.artifact_size_bytes;
    let guarded = size.saturating_add(size / 5);
    model.is_valid() && runtime_capacity(offer, runtime) >= guarded
}

fn collect_model_slots(
    offers: &Vec<ResourceOfferV1>,
    o: usize,
    r: usize,
    model_id: &str,
    out: &mut Vec<CatalogCandidate>,
)
    requires
        o < offers@.len(),
        r < offers@[o as int].model_runtimes@.len(),
        slots_in_bounds(offers@, old(out)@),
        slots_for_model(offers@, old(out)@, model_id@),
    ensures
        slots_in_bounds(offers@, final(out)@),
        slots_for_model(offers@, final(out)@, model_id@),
        final(out)@ == old(out)@ + model_slots(
            offers@,
            o as int,
            r as int,
            model_id@,
            offers@[o as int].model_runtimes@[r as int].installed_models@.len() as int,
        ),
{
    let offer = &offers[o];
    let runtime = &offer.model_runtimes[r];
    let serves = runtime_qualifies(offer, runtime);
    let ghost start = out@;
    let mut m: usize = 0;
    while m < runtime.installed_models.len()
        invariant
            o < offers@.len(),
            *offer == offers@[o as int],
            r < offer.model_runtimes@.len(),
            *runtime == offer.model_runtimes@[r as int],
            serves == runtime_serves_models(*offer, *runtime),
            m <= runtime.installed_models@.len(),
            out@ == start + model_slots(offers@, o as int, r as int, model_id@, m as int),
            slots_in_bounds(offers@, out@),
            slots_for_model(offers@, out@, model_id@),
        decreases runtime.installed_models@.len() - m,
    {
        let model = &runtime.installed_models[m];
        if serves && model_qualifies(offer, runtime, model) && text_eq(model.model_id.as_str(), model_id) {
            out.push(CatalogCandidate { offer: o, runtime: r, model: m });
        }
        m = m + 1;
    }
}

/// The catalog entry for a model at `now`: the candidates that can serve `model_id` whole, in
/// offer, runtime and model order, when all of them carry the same model digest; none otherwise.
/// `excluded` holds the nodes that diagnostics exclude from scheduling.
pub fn catalog_candidates(
    offers: &Vec<ResourceOfferV1>,
    model_id: &str,
    now: i128,
    excluded: &Vec<u128>,
) -> (r: Vec<CatalogCandidate>)
    ensures
        r@ == catalog_entry(offers@, model_id@, now, excluded@),
        slots_in_bounds(offers@, r@),
        slots_for_model(offers@, r@, model_id@),
{
    let mut out: Vec<CatalogCandidate> = Vec::new();
    let mut n: usize = 0;
    while n < offers.len()
        invariant
            n <= offers@.len(),
            out@ == catalog_slots(offers@, model_id@, now, excluded@, n as int),
            slots_in_bounds(offers@, out@),
            slots_for_model(offers@, out@, model_id@),
        decreases offers@.len() - n,
    {
        let offer = &offers[n];
        if offer_qualifies(offer, now, excluded) {
            let ghost before = out@;
            let mut r: usize = 0;
            while r < offer.model_runtimes.len()
                invariant
                    n < offers@.len(),
                    *offer == offers@[n as int],
                    r <= offer.model_runtimes@.len(),
                    out@ == before + runtime_slots(offers@, n as int, model_id@, r as int),
                    slots_in_bounds(offers@, out@),
                    slots_for_model(offers@, out@, model_id@),
                decreases offer.model_runtimes@.len() - r,
            {
                collect_model_slots(offers, n, r, model_id, &mut out);
                r = r + 1;
            }
        }
        n = n + 1;
    }
    if out.len() == 0 {
        return out;
    }
    let first = out[0];
    assert(slots_in_bounds(offers@, out@));
    assert(out@[0] == first);
    let digest = offers[first.offer].model_runtimes[first.runtime].installed_models[first.model].artifact_digest.as_str();
    let mut k: usize = 0;
    while k < out.len()
        invariant
            k <= out@.len(),
            out@.len() > 0,
            out@ == catalog_slots(offers@, model_id@, now, excluded@, offers@.len() as int),
            slots_in_bounds(offers@, out@),
            slots_for_model(offers@, out@, model_id@),
            digest@ == candidate_digest(offers@, out@[0]),
            forall|j: int| 0 <= j < k ==> #[trigger] candidate_digest(offers@, out@[j]) == candidate_digest(offers@, out@[0]),
        decreases out@.len() - k,
    {
        let c = out[k];
        if !text_eq(offers[c.offer].model_runtimes[c.runtime].installed_models[c.model].artifact_digest.as_str(), digest) {
            assert(candidate_digest(offers@, out@[k as int]) != candidate_digest(offers@, out@[0]));
            return Vec::new();
        }
        k = k + 1;
    }
    out
}

/// The room a candidate's runtime has for models.
pub open spec fn candidate_room(offers: Seq<ResourceOfferV1>, c: CatalogCandidate) -> u64 {
    offers[c.offer as int].model_runtimes@[c.runtime as int].available_model_bytes
}

/// Choose the candidate whose runtime has the most room for models; among equals, the last.
pub fn select_model_candidate(offers: &Vec<ResourceOfferV1>, candidates: &Vec<CatalogCandidate>) -> (r: usize)
    requires
        candidates@.len() > 0,
        slots_in_bounds(offers@, candidates@),
    ensures
        r < candidates@.len(),
        forall|j: int| 0 <= j < candidates@.len() ==> candidate_room(offers@, #[trigger] candidates@[j]) <= candidate_room(
            offers@,
            candidates@[r as int],
        ),
        forall|j: int| r < j < candidates@.len() ==> candidate_room(offers@, #[trigger] candidates@[j]) < candidate_room(
            offers@,
            candidates@[r as int],
        ),
{
    let mut best: usize = 0;
    let mut k: usize = 1;
    while k < candidates.len()
        invariant
            slots_in_bounds(offers@, candidates@),
            best < k <= candidates@.len(),
            forall|j: int| 0 <= j < k ==> candidate_room(offers@, #[trigger] candidates@[j]) <= candidate_room(
                offers@,
                candidates@[best as int],
            ),
            forall|j: int| best < j < k ==> candidate_room(offers@, #[trigger] candidates@[j]) < candidate_room(
                offers@,
                candidates@[best as int],
            ),
        decreases candidates@.len() - k,
    {
        let c = candidates[k];
        let b = candidates[best];
        assert(candidates@[k as int] == c && candidates@[best as int] == b);
        if offers[c.offer].model_runtimes[c.runtime].available_model_bytes >= offers[b.offer].model_runtimes[b.runtime].available_model_bytes {
            best = k;
        }
        k = k + 1;
    }
    best
}

/// The prompt size a request is charged: the bytes of every message's role and content, saturating
/// at the largest `u64`.
pub fn prompt_byte_count(messages: &Vec<OpenAiChatMessage>) -> (r: u64)
    ensures
        r == if prompt_bytes_spec(messages@) > u64::MAX { u64::MAX as int } else { prompt_bytes_spec(messages@) },
{
    let mut total: u64 = 0;
    let mut i: usize = 0;
    assert(messages@.take(0) =~= Seq::<OpenAiChatMessage>::empty());
    while i < messages.len()
        invariant
            i <= messages@.len(),
            total == if prompt_bytes_spec(messages@.take(i as int)) > u64::MAX {
                u64::MAX as int
            } else {
                prompt_bytes_spec(messages@.take(i as int))
            },
        decreases messages@.len() - i,
    {
        let m = &messages[i];
        assert(messages@.take(i + 1).drop_last() =~= messages@.take(i as int));
        assert(messages@.take(i + 1).last() == *m);
        total = total.saturating_add(text_len(m.role.as_str()) as u64).saturating_add(text_len(m.content.as_str()) as u64);
        i = i + 1;
    }
    assert(messages@.take(messages@.len() as int) =~= messages@);
    total
}

/// The limits a model session is authorized with: the charged prompt size, at least one byte,
/// and the requested output tokens.
pub open spec fn session_limits_spec(messages: Seq<OpenAiChatMessage>, max_output_tokens: u32) -> ModelSessionLimits {
    let charged = if prompt_bytes_spec(messages) > u64::MAX { u64::MAX as int } else { prompt_bytes_spec(messages) };
    ModelSessionLimits { max_prompt_bytes: if charged < 1 { 1 } else { charged as u64 }, max_output_tokens }
}

/// Authorize a model invocation at `now`: refused with 423 while the owner STOP holds, 404 when
/// the model is not consistently installed on an eligible contributor, and 403 when the Governor
/// refuses the session; otherwise the chosen candidate and its unsigned session lease.
/// `lease_id`, `session_id` and `nonce` are drawn fresh by the caller.
pub fn authorize_model_invocation(
    kill_latch: bool,
    governor: &Governor,
    offers: &Vec<ResourceOfferV1>,
    excluded: &Vec<u128>,
    model_id: &str,
    messages: &Vec<OpenAiChatMessage>,
    max_output_tokens: u32,
    controller_endpoint_id: &str,
    epoch: u64,
    now: i128,
    lease_id: u128,
    session_id: u128,
    nonce: String,
) -> (r: Result<(CatalogCandidate, ModelSessionLeaseV1), ModelGatewayFailure>)
    requires
        now + governor.lease_ttl_nanos() <= i128::MAX,
    ensures
        kill_latch ==> (r matches Err(f) && f.view_spec() == (423u16, "server_error"@, "owner_stop_active"@, "owner STOP is active"@)),
        !kill_latch && catalog_entry(offers@, model_id@, now, excluded@).len() == 0 ==> (r matches Err(f) && f.view_spec() == (
            404u16,
            "invalid_request_error"@,
            "model_not_found"@,
            "model is not consistently installed on an eligible contributor"@,
        )),
        !kill_latch && catalog_entry(offers@, model_id@, now, excluded@).len() > 0 ==> {
            let cs = catalog_entry(offers@, model_id@, now, excluded@);
            match r {
                Ok((c, lease)) => {
                    &&& cs.contains(c)
                    &&& forall|j: int| 0 <= j < cs.len() ==> candidate_room(offers@, #[trigger] cs[j]) <= candidate_room(offers@, c)
                    &&& governor.model_session_verdict(
                        offers@[c.offer as int],
                        offers@[c.offer as int].model_runtimes@[c.runtime as int],
                        offers@[c.offer as int].model_runtimes@[c.runtime as int].installed_models@[c.model as int],
                        controller_endpoint_id@,
                        session_limits_spec(messages@, max_output_tokens),
                        now,
                    ) is Ok
                    &&& lease.lease_id == lease_id && lease.session_id == session_id
                    &&& lease.node_id == offers@[c.offer as int].node_id
                    &&& lease.model_id@ == model_id@
                    &&& lease.max_prompt_bytes == session_limits_spec(messages@, max_output_tokens).max_prompt_bytes
                    &&& lease.max_output_tokens == max_output_tokens
                    &&& lease.fencing_epoch == epoch
                    &&& lease.issued_at == now
                    &&& lease.nonce@ == nonce@
                },
                Err(f) => exists|c: CatalogCandidate| #[trigger] cs.contains(c) && (forall|j: int|
                    0 <= j < cs.len() ==> candidate_room(offers@, #[trigger] cs[j]) <= candidate_room(offers@, c))
                    && (governor.model_session_verdict(
                    offers@[c.offer as int],
                    offers@[c.offer as int].model_runtimes@[c.runtime as int],
                    offers@[c.offer as int].model_runtimes@[c.runtime as int].installed_models@[c.model as int],
                    controller_endpoint_id@,
                    session_limits_spec(messages@, max_output_tokens),
                    now,
                ) matches Err(d) && f.view_spec() == (403u16, "server_error"@, "model_authority_denied"@, denial_text(d))),
            }
        },
{
    if kill_latch {
        return Err(
            ModelGatewayFailure {
                status: 423,
                kind: "server_error",
                code: "owner_stop_active",
                message: "owner STOP is active".to_string(),
            },
        );
    }
    let candidates = catalog_candidates(offers, model_id, now, excluded);
    if candidates.len() == 0 {
        return Err(
            ModelGatewayFailure {
                status: 404,
                kind: "invalid_request_error",
                code: "model_not_found",
                message: "model is not consistently installed on an eligible contributor".to_string(),
            },
        );
    }
    let chosen = select_model_candidate(offers, &candidates);
    let c = candidates[chosen];
    assert(candidates@[chosen as int] == c);
    assert(candidates@.contains(c));
    let prompt = prompt_byte_count(messages);
    let limits = ModelSessionLimits { max_prompt_bytes: if prompt < 1 { 1 } else { prompt }, max_output_tokens };
    assert(limits == session_limits_spec(messages@, max_output_tokens));
    let offer = &offers[c.offer];
    let runtime = &offer.model_runtimes[c.runtime];
    let model = &runtime.installed_models[c.model];
    match governor.authorize_model_session_at_epoch(
        offer,
        runtime,
        model,
        controller_endpoint_id,
        limits,
        epoch,
        now,
        lease_id,
        session_id,
        nonce,
    ) {
        Ok(lease) => Ok((c, lease)),
        Err(d) => Err(
            ModelGatewayFailure { status: 403, kind: "server_error", code: "model_authority_denied", message: d.message() },
        ),
    }
}

} // verus!
