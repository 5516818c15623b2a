//! Rules the controller service applies at its edges: offer admission checks, artifact
//! retrieval contracts, replica probing, transfer session identities, and the mapping of model
//! gateway results to the wire formats clients expect.

use crate::controller::{resource_available_spec, runtime_capacity, runtime_capacity_spec};
use crate::crypto::{sha256, sha256_of};
use crate::policy::{
    denial_text, device_kind_label, device_kind_label_spec, signature_valid_spec, verify_mesh_endpoint_with_key,
    verify_artifact_replica_receipt, verify_model_receipt, verify_offer, verify_receipt, Denial,
};
use crate::gateway::ModelGatewayFailure;
use crate::storage::{content_address, sha256_digest};
use crate::protocol::{
    ArtifactRefV1, ArtifactReplicaReceiptV1, ArtifactTransferOperation, CapabilityLeaseV1, ModelExecutionReceiptV1,
    ModelSessionLeaseV1, StorageLeaseV1, DeviceKind, ExecutionReceiptV1, InstalledModelV1,
    JobSpecV1, JobState, MeshEndpointRecordV1, ModelBackend, ModelParallelism, ModelRuntimeOfferV1,
    ModelRuntimeStatus, NodeIdentityV1, ResourceOfferV1, ShardSetV1, StorageClass, WorkloadCapabilityV1, contains_parallelism,
    MAX_ARTIFACT_TRANSFER_BYTES,
};
use crate::text::{
    all_hex, contains_text, has_prefix, is_blank, is_blank_spec, is_hex_byte, label_equals, label_of, text_eq, utf8,
    vec_contains_text,
};
use vstd::prelude::*;
use vstd::string::StrSliceExecFns;

verus! {

broadcast use vstd::string::group_string_axioms;

/// The stop reason an Anthropic-style client sees for a model finish reason.
pub open spec fn anthropic_stop_reason_spec(finish_reason: Seq<char>) -> Seq<char> {
    if finish_reason == "length"@ { "max_tokens"@ } else { "end_turn"@ }
}

pub fn anthropic_stop_reason(finish_reason: &str) -> (r: &'static str)
    ensures
        r@ == anthropic_stop_reason_spec(finish_reason@),
{
    if text_eq(finish_reason, "length") {
        "max_tokens"
    } else {
        "end_turn"
    }
}

/// The Anthropic error type of an HTTP status code.
pub open spec fn anthropic_failure_kind_spec(status: u16) -> Seq<char> {
    if status == 400 || status == 413 {
        "invalid_request_error"@
    } else if status == 401 {
        "authentication_error"@
    } else if status == 403 {
        "permission_error"@
    } else if status == 404 {
        "not_found_error"@
    } else if status == 429 {
        "rate_limit_error"@
    } else {
        "api_error"@
    }
}

pub fn anthropic_failure_kind(status: u16) -> (r: &'static str)
    ensures
        r@ == anthropic_failure_kind_spec(status),
{
    if status == 400 || status == 413 {
        "invalid_request_error"
    } else if status == 401 {
        "authentication_error"
    } else if status == 403 {
        "permission_error"
    } else if status == 404 {
        "not_found_error"
    } else if status == 429 {
        "rate_limit_error"
    } else {
        "api_error"
    }
}

/// A gateway error as relayed to clients: its first 512 characters.
pub fn bounded_gateway_error(error: &str) -> (r: String)
    ensures
        r@ == error@.take(if error@.len() < 512 { error@.len() as int } else { 512 }),
{
    let n = error.unicode_len();
    let end: usize = if n < 512 { n } else { 512 };
    error.substring_char(0, end).to_string()
}

/// The storage a local copy of a remote artifact goes to, with the replicas it needs: an
/// existing local copy must carry the same address, size and media type, encrypted, and keeps its
/// class; otherwise the remote's class is used. Protected storage needs two replicas.
pub open spec fn retrieval_sink_spec(remote: ArtifactRefV1, local: Option<ArtifactRefV1>) -> Result<(StorageClass, u8), Seq<char>> {
    match local {
        Some(l) => if l.digest@ != remote.digest@ || l.size_bytes != remote.size_bytes || l.media_type@ != remote.media_type@ || !l.encrypted {
            Err("local content address conflicts with the remote artifact contract"@)
        } else {
            Ok((l.storage_class, if l.storage_class == StorageClass::Protected { 2u8 } else { 1u8 }))
        },
        None => Ok((remote.storage_class, if remote.storage_class == StorageClass::Protected { 2u8 } else { 1u8 })),
    }
}

pub fn retrieval_sink_contract(remote: &ArtifactRefV1, local: Option<&ArtifactRefV1>) -> (r: Result<(StorageClass, u8), String>)
    ensures
        match r {
            Ok(v) => retrieval_sink_spec(*remote, match local { Some(l) => Some(*l), None => None }) == Ok::<(StorageClass, u8), Seq<char>>(v),
            Err(m) => retrieval_sink_spec(*remote, match local { Some(l) => Some(*l), None => None }) == Err::<(StorageClass, u8), Seq<char>>(m@),
        },
{
    match local {
        Some(l) => {
            if !text_eq(l.digest.as_str(), remote.digest.as_str()) || l.size_bytes != remote.size_bytes || !text_eq(
                l.media_type.as_str(),
                remote.media_type.as_str(),
            ) || !l.encrypted {
                return Err("local content address conflicts with the remote artifact contract".to_string());
            }
            Ok((l.storage_class, if l.storage_class == StorageClass::Protected { 2 } else { 1 }))
        },
        None => Ok((remote.storage_class, if remote.storage_class == StorageClass::Protected { 2 } else { 1 })),
    }
}

/// Append a response chunk unless the buffer would exceed `limit` bytes; a refused chunk leaves
/// the buffer as it was.
pub fn append_bounded_bytes(buffer: &mut Vec<u8>, chunk: &[u8], limit: usize) -> (r: Result<(), String>)
    ensures
        r is Ok == (old(buffer)@.len() + chunk@.len() <= limit),
        r is Ok ==> final(buffer)@ == old(buffer)@ + chunk@,
        r matches Err(m) ==> m@ == "controller response exceeded one MiB"@ && final(buffer)@ == old(buffer)@,
{
    if buffer.len() > limit || chunk.len() > limit - buffer.len() {
        return Err("controller response exceeded one MiB".to_string());
    }
    let mut i: usize = 0;
    let ghost start = buffer@;
    while i < chunk.len()
        invariant
            i <= chunk@.len(),
            buffer@ == start + chunk@.take(i as int),
        decreases chunk@.len() - i,
    {
        buffer.push(chunk[i]);
        proof {
            assert(chunk@.take(i + 1) =~= chunk@.take(i as int).push(chunk@[i as int]));
        }
        i = i + 1;
    }
    proof {
        assert(chunk@.take(chunk@.len() as int) =~= chunk@);
    }
    Ok(())
}

/// The sixteen big-endian bytes of a 128-bit value.
pub open spec fn be_bytes_u128(v: u128) -> Seq<u8> {
    Seq::new(16, |i: int| ((v >> ((15 - i) * 8) as u128) & 0xffu128) as u8)
}

/// The value of up to sixteen big-endian bytes.
pub open spec fn be_value(b: Seq<u8>) -> int
    decreases b.len(),
{
    if b.len() == 0 { 0 } else { be_value(b.drop_last()) * 256 + b.last() }
}

/// What the transfer session identity of a node, an artifact and an operation hashes: a domain
/// label, the node's identifier bytes, the digest text and the operation, separated by zero bytes.
pub open spec fn session_hash_input(node_id: u128, digest: Seq<char>, operation: ArtifactTransferOperation) -> Seq<u8> {
    utf8("rampage.artifact-transfer-session.v1"@) + seq![0u8] + be_bytes_u128(node_id) + seq![0u8] + utf8(digest) + seq![0u8]
        + utf8(match operation {
        ArtifactTransferOperation::Put => "put"@,
        ArtifactTransferOperation::Get => "get"@,
    })
}

/// The UUID bytes of a transfer session: the first sixteen bytes of the digest of
/// [`session_hash_input`], marked as a version-5 UUID of the RFC 4122 variant.
pub open spec fn session_uuid_bytes(node_id: u128, digest: Seq<char>, operation: ArtifactTransferOperation) -> Seq<u8> {
    let d = sha256_of(session_hash_input(node_id, digest, operation));
    d.take(16).update(6, (d[6] & 0x0f) | 0x50).update(8, (d[8] & 0x3f) | 0x80)
}

fn push_all(out: &mut Vec<u8>, bytes: &[u8])
    ensures
        final(out)@ == old(out)@ + bytes@,
{
    let mut i: usize = 0;
    let ghost start = out@;
    while i < bytes.len()
        invariant
            i <= bytes@.len(),
            out@ == start + bytes@.take(i as int),
        decreases bytes@.len() - i,
    {
        out.push(bytes[i]);
        proof {
            assert(bytes@.take(i + 1) =~= bytes@.take(i as int).push(bytes@[i as int]));
        }
        i = i + 1;
    }
    proof {
        assert(bytes@.take(bytes@.len() as int) =~= bytes@);
    }
}

/// The stable session identity of one artifact transfer: the same node, artifact and operation
/// always name the same session.
pub fn artifact_transfer_session_id(node_id: u128, digest: &str, operation: ArtifactTransferOperation) -> (r: u128)
    ensures
        r == be_value(session_uuid_bytes(node_id, digest@, operation)),
        session_uuid_bytes(node_id, digest@, operation).len() == 16,
        session_uuid_bytes(node_id, digest@, operation)[6] >> 4u8 == 5u8,
        session_uuid_bytes(node_id, digest@, operation)[8] >> 6u8 == 2u8,
{
    let mut input: Vec<u8> = Vec::new();
    push_all(&mut input, "rampage.artifact-transfer-session.v1".as_bytes());
    input.push(0u8);
    let mut k: u32 = 0;
    let ghost before_id = input@;
    while k < 16
        invariant
            k <= 16,
            input@ == before_id + be_bytes_u128(node_id).take(k as int),
        decreases 16 - k,
    {
        let shift: u128 = ((15 - k) * 8) as u128;
        let b = ((node_id >> shift) & 0xff) as u8;
        input.push(b);
        proof {
            assert(be_bytes_u128(node_id).take(k + 1) =~= be_bytes_u128(node_id).take(k as int).push(be_bytes_u128(node_id)[k as int]));
        }
        k = k + 1;
    }
    proof {
        assert(be_bytes_u128(node_id).take(16) =~= be_bytes_u128(node_id));
    }
    input.push(0u8);
    push_all(&mut input, digest.as_bytes());
    input.push(0u8);
    match operation {
        ArtifactTransferOperation::Put => push_all(&mut input, "put".as_bytes()),
        ArtifactTransferOperation::Get => push_all(&mut input, "get".as_bytes()),
    }
    assert(input@ =~= session_hash_input(node_id, digest@, operation));
    let hash = sha256(input.as_slice());
    let mut bytes: Vec<u8> = Vec::new();
    let mut i: usize = 0;
    while i < 16
        invariant
            i <= 16,
            hash@.len() == 32,
            bytes@ == hash@.take(i as int),
        decreases 16 - i,
    {
        bytes.push(hash[i]);
        proof {
            assert(hash@.take(i + 1) =~= hash@.take(i as int).push(hash@[i as int]));
        }
        i = i + 1;
    }
    let x6 = bytes[6];
    let x8 = bytes[8];
    let b6 = (x6 & 0x0f) | 0x50;
    let b8 = (x8 & 0x3f) | 0x80;
    assert(b6 >> 4u8 == 5u8) by (bit_vector)
        requires b6 == (x6 & 0x0f) | 0x50;
    assert(b8 >> 6u8 == 2u8) by (bit_vector)
        requires b8 == (x8 & 0x3f) | 0x80;
    bytes.set(6, b6);
    bytes.set(8, b8);
    assert(bytes@ =~= session_uuid_bytes(node_id, digest@, operation));
    let mut value: u128 = 0;
    let mut j: usize = 0;
    while j < 16
        invariant
            j <= 16,
            bytes@.len() == 16,
            value == be_value(bytes@.take(j as int)),
            value < pow256(j as nat),
        decreases 16 - j,
    {
        proof {
            assert(bytes@.take(j + 1).drop_last() =~= bytes@.take(j as int));
            lemma_pow256_bound(j as nat);
        }
        value = value * 256 + bytes[j] as u128;
        j = j + 1;
    }
    proof {
        assert(bytes@.take(16) =~= bytes@);
    }
    value
}

/// `256^n`.
pub open spec fn pow256(n: nat) -> int
    decreases n,
{
    if n == 0 { 1 } else { pow256((n - 1) as nat) * 256 }
}

proof fn lemma_pow256_positive(n: nat)
    ensures
        pow256(n) >= 1,
    decreases n,
{
    if n > 0 {
        lemma_pow256_positive((n - 1) as nat);
    }
}

proof fn lemma_pow256_monotone(a: nat, b: nat)
    requires
        a <= b,
    ensures
        pow256(a) <= pow256(b),
    decreases b,
{
    if a < b {
        lemma_pow256_monotone(a, (b - 1) as nat);
        lemma_pow256_positive((b - 1) as nat);
    }
}

proof fn lemma_pow256_bound(n: nat)
    requires
        n < 16,
    ensures
        pow256(n + 1) == pow256(n) * 256,
        pow256(n + 1) <= 0x1_0000_0000_0000_0000_0000_0000_0000_0000,
{
    lemma_pow256_monotone(n + 1, 16);
    assert(pow256(16) == 0x1_0000_0000_0000_0000_0000_0000_0000_0000) by {
        reveal_with_fuel(pow256, 17);
    }
}

/// Whether an offer binds to the enrolled identity that makes it: at least one resource, every
/// resource labelled with the identity's device class, and, for a phone, tablet or console, a
/// battery observation.
pub open spec fn identity_binding_spec(identity: NodeIdentityV1, offer: ResourceOfferV1) -> Result<(), Seq<char>> {
    if offer.resources@.len() == 0 {
        Err("resource offer must contain at least one exact resource"@)
    } else if exists|i: int| 0 <= i < offer.resources@.len() && label_of((#[trigger] offer.resources@[i]).labels@, "device_kind"@)
        != Some(device_kind_label_spec(identity.device_kind)) {
        Err("resource device class does not match the enrolled native identity"@)
    } else if (identity.device_kind == DeviceKind::Phone || identity.device_kind == DeviceKind::Tablet || identity.device_kind
        == DeviceKind::Console) && offer.availability.battery_percent is None {
        Err("edge offers must include a native battery observation"@)
    } else {
        Ok(())
    }
}

pub fn validate_offer_identity_binding(identity: &NodeIdentityV1, offer: &ResourceOfferV1) -> (r: Result<(), String>)
    ensures
        match r {
            Ok(_) => identity_binding_spec(*identity, *offer) is Ok,
            Err(m) => identity_binding_spec(*identity, *offer) == Err::<(), Seq<char>>(m@),
        },
{
    if offer.resources.len() == 0 {
        return Err("resource offer must contain at least one exact resource".to_string());
    }
    let expected = device_kind_label(identity.device_kind);
    let mut i: usize = 0;
    while i < offer.resources.len()
        invariant
            i <= offer.resources@.len(),
            expected@ == device_kind_label_spec(identity.device_kind),
            forall|j: int| 0 <= j < i ==> label_of((#[trigger] offer.resources@[j]).labels@, "device_kind"@) == Some(device_kind_label_spec(identity.device_kind)),
        decreases offer.resources@.len() - i,
    {
        if !label_equals(&offer.resources[i].labels, "device_kind", expected) {
            return Err("resource device class does not match the enrolled native identity".to_string());
        }
        i = i + 1;
    }
    if (identity.device_kind == DeviceKind::Phone || identity.device_kind == DeviceKind::Tablet || identity.device_kind
        == DeviceKind::Console) && offer.availability.battery_percent.is_none() {
        return Err("edge offers must include a native battery observation".to_string());
    }
    Ok(())
}

pub const MAX_REPLICA_PROBES_PER_CYCLE: usize = 4;
pub const MAX_REPLICA_VERIFICATION_BYTES_PER_CYCLE: u64 = 128 * 1024 * 1024;

/// The probe list as plain values: digest text and node id.
pub open spec fn probe_view(probes: Seq<(String, u128)>) -> Seq<(Seq<char>, u128)> {
    probes.map_values(|p: (String, u128)| (p.0@, p.1))
}

/// Whether a probe list already names a replica.
pub open spec fn probe_listed(probes: Seq<(Seq<char>, u128)>, digest: Seq<char>, node_id: u128) -> bool {
    exists|k: int| 0 <= k < probes.len() && (#[trigger] probes[k]).0 == digest && probes[k].1 == node_id
}

/// The candidate visited at step `k` of a cycle that starts at `start`.
pub open spec fn probe_candidate_index(n: int, start: int, k: int) -> int {
    (start + k) % n
}

/// The probes chosen and the bytes counted after the first `k` steps of a cycle over
/// `candidates` that starts at `start`: a step adds its candidate's bytes and the candidate
/// (once) while fewer than four are chosen, unless the sum would pass `u64::MAX`, or pass
/// 128 MiB with a probe already chosen.
pub open spec fn probe_state(candidates: Seq<(String, u128, ArtifactRefV1)>, start: int, k: nat) -> (Seq<(Seq<char>, u128)>, int)
    decreases k,
{
    if k == 0 {
        (Seq::empty(), 0)
    } else {
        let prev = probe_state(candidates, start, (k - 1) as nat);
        let sel = prev.0;
        let bytes = prev.1;
        let c = candidates[probe_candidate_index(candidates.len() as int, start, k - 1)];
        let next = bytes + c.2.size_bytes;
        if sel.len() >= MAX_REPLICA_PROBES_PER_CYCLE {
            prev
        } else if next > u64::MAX {
            prev
        } else if next > MAX_REPLICA_VERIFICATION_BYTES_PER_CYCLE && sel.len() > 0 {
            prev
        } else if probe_listed(sel, c.0@, c.1) {
            (sel, next)
        } else {
            (sel.push((c.0@, c.1)), next)
        }
    }
}

fn probe_present(probes: &Vec<(String, u128)>, digest: &str, node_id: u128) -> (r: bool)
    ensures
        r == probe_listed(probe_view(probes@), digest@, node_id),
{
    let ghost view = probe_view(probes@);
    let mut i: usize = 0;
    while i < probes.len()
        invariant
            i <= probes@.len(),
            view == probe_view(probes@),
            forall|k: int| 0 <= k < i ==> !((#[trigger] view[k]).0 == digest@ && view[k].1 == node_id),
        decreases probes@.len() - i,
    {
        if probes[i].1 == node_id && text_eq(probes[i].0.as_str(), digest) {
            assert(view[i as int].0 == digest@ && view[i as int].1 == node_id);
            return true;
        }
        i = i + 1;
    }
    false
}

/// The replicas to probe this cycle: going once round the candidates from `cursor` modulo their
/// number, as `probe_state` describes. The result holds each replica once; its order carries no
/// meaning.
#[verifier::loop_isolation(false)]
pub fn select_replica_probes(candidates: &Vec<(String, u128, ArtifactRefV1)>, cursor: u64) -> (r: Vec<(String, u128)>)
    ensures
        candidates@.len() == 0 ==> r@.len() == 0,
        candidates@.len() > 0 ==> probe_view(r@) == probe_state(candidates@, (cursor % (candidates@.len() as u64)) as int,
            candidates@.len()).0,
{
    let n = candidates.len();
    let mut selected: Vec<(String, u128)> = Vec::new();
    if n == 0 {
        return selected;
    }
    let start = (cursor % n as u64) as usize;
    let ghost start_int = start as int;
    let mut bytes: u64 = 0;
    let mut offset: usize = 0;
    assert(probe_view(selected@) =~= Seq::<(Seq<char>, u128)>::empty());
    while offset < n
        invariant
            offset <= n,
            n == candidates@.len(),
            start < n,
            start_int == start,
            probe_view(selected@) == probe_state(candidates@, start_int, offset as nat).0,
            bytes == probe_state(candidates@, start_int, offset as nat).1,
        decreases n - offset,
    {
        let index = if start < n - offset { start + offset } else { offset - (n - start) };
        assert(index == probe_candidate_index(n as int, start_int, offset as int)) by {
            if start < n - offset {
                vstd::arithmetic::div_mod::lemma_small_mod((start + offset) as nat, n as nat);
            } else {
                vstd::arithmetic::div_mod::lemma_mod_sub_multiples_vanish((start + offset) as int, n as int);
                vstd::arithmetic::div_mod::lemma_small_mod((start + offset - n) as nat, n as nat);
            }
        }
        let candidate = &candidates[index];
        if selected.len() < MAX_REPLICA_PROBES_PER_CYCLE {
            match bytes.checked_add(candidate.2.size_bytes) {
                None => {},
                Some(next_bytes) => {
                    if !(next_bytes > MAX_REPLICA_VERIFICATION_BYTES_PER_CYCLE && selected.len() > 0) {
                        bytes = next_bytes;
                        if !probe_present(&selected, candidate.0.as_str(), candidate.1) {
                            let ghost before = selected@;
                            selected.push((candidate.0.clone(), candidate.1));
                            assert(probe_view(selected@) =~= probe_view(before).push((candidate.0@, candidate.1)));
                        }
                    }
                },
            }
        }
        offset = offset + 1;
    }
    selected
}

/// Whether workload capability `i` of an offer is admissible: well formed, for an adapter the
/// offer advertises, and for an adapter no earlier capability named.
pub open spec fn capability_admissible(offer: ResourceOfferV1, i: int) -> bool {
    let caps = offer.workload_capabilities@;
    &&& caps[i].valid_spec()
    &&& contains_text(offer.adapters@, caps[i].adapter@)
    &&& forall|j: int| 0 <= j < i ==> (#[trigger] caps[j]).adapter@ != caps[i].adapter@
}

/// Whether the profile fields of runtime `i` of an offer are malformed or contradict the offer:
/// wrong schema, a blank adapter, version, digest or compatibility key, no model bytes or more
/// than the signed memory resources show, an adapter the offer does not advertise, more than
/// 128 installed models, or a backend and compatibility key that an earlier runtime has.
pub open spec fn runtime_profile_malformed(offer: ResourceOfferV1, i: int) -> bool {
    let runtimes = offer.model_runtimes@;
    let r = runtimes[i];
    ||| r.schema@ != ModelRuntimeOfferV1::SCHEMA@
    ||| is_blank_spec(r.adapter@)
    ||| is_blank_spec(r.runtime_version@)
    ||| is_blank_spec(r.runtime_digest@)
    ||| is_blank_spec(r.compatibility_key@)
    ||| r.available_model_bytes == 0
    ||| r.available_model_bytes > runtime_capacity_spec(offer, r)
    ||| !contains_text(offer.adapters@, r.adapter@)
    ||| r.installed_models@.len() > 128
    ||| exists|j: int| 0 <= j < i && (#[trigger] runtimes[j]).backend == r.backend
        && runtimes[j].compatibility_key@ == r.compatibility_key@
}

/// Whether installed model `k` of a runtime is well formed and its id is new in the list.
pub open spec fn installed_model_admissible(models: Seq<InstalledModelV1>, k: int) -> bool {
    &&& models[k].valid_spec()
    &&& forall|l: int| 0 <= l < k ==> (#[trigger] models[l]).model_id@ != models[k].model_id@
}

/// Whether a runtime's status agrees with its backend, topology and installed models: a shipped
/// local runtime is the Ollama adapter with a `shipped-local:` digest, whole-model support and no
/// certification; a qualified or candidate runtime advertises no installed model, and a qualified
/// one carries its distributed qualification.
pub open spec fn runtime_status_consistent(r: ModelRuntimeOfferV1) -> bool {
    match r.status {
        ModelRuntimeStatus::ShippedLocal => {
            &&& r.backend == ModelBackend::LocalOllama
            &&& r.adapter@ == "rampage.ollama.v1"@
            &&& has_prefix(utf8(r.runtime_digest@), utf8("shipped-local:"@))
            &&& r.supported_parallelism@.contains(ModelParallelism::WholeModel)
            &&& r.certification_digest is None
        },
        ModelRuntimeStatus::Qualified => r.installed_models@.len() == 0 && r.qualified_for_distributed_spec(),
        ModelRuntimeStatus::Candidate => r.installed_models@.len() == 0,
    }
}

/// What runtime `i` of an offer is refused for, if anything.
pub open spec fn runtime_refusal(offer: ResourceOfferV1, i: int) -> Option<Seq<char>> {
    let r = offer.model_runtimes@[i];
    if runtime_profile_malformed(offer, i) {
        Some("offer contains a malformed or contradictory model-runtime profile"@)
    } else if exists|k: int| 0 <= k < r.installed_models@.len() && !installed_model_admissible(r.installed_models@, k) {
        Some("offer contains a malformed or duplicate installed model"@)
    } else if !runtime_status_consistent(r) {
        Some("model runtime status, backend, topology, or installed-model authority is inconsistent"@)
    } else {
        None
    }
}

/// The first refusal among the runtimes of an offer from index `i` on.
pub open spec fn runtimes_verdict(offer: ResourceOfferV1, i: nat) -> Result<(), Seq<char>>
    decreases offer.model_runtimes@.len() - i,
{
    if i >= offer.model_runtimes@.len() {
        Ok(())
    } else {
        match runtime_refusal(offer, i as int) {
            Some(m) => Err(m),
            None => runtimes_verdict(offer, i + 1),
        }
    }
}

/// What an offer's workload capabilities and model runtimes are refused for, if anything.
pub open spec fn runtime_contracts_verdict(offer: ResourceOfferV1) -> Result<(), Seq<char>> {
    if offer.workload_capabilities@.len() > 64 {
        Err("offer contains too many workload-capability profiles"@)
    } else if exists|i: int| 0 <= i < offer.workload_capabilities@.len() && !#[trigger] capability_admissible(offer, i) {
        Err("offer contains a malformed or duplicate workload capability"@)
    } else if offer.model_runtimes@.len() > 16 {
        Err("offer exceeds the 16 model-runtime profile limit"@)
    } else {
        runtimes_verdict(offer, 0)
    }
}

fn capability_admissible_at(offer: &ResourceOfferV1, i: usize) -> (r: bool)
    requires
        i < offer.workload_capabilities@.len(),
    ensures
        r == capability_admissible(*offer, i as int),
{
    let caps = &offer.workload_capabilities;
    if !caps[i].is_valid() || !vec_contains_text(&offer.adapters, caps[i].adapter.as_str()) {
        return false;
    }
    let mut j: usize = 0;
    while j < i
        invariant
            j <= i,
            i < caps@.len(),
            caps == &offer.workload_capabilities,
            forall|l: int| 0 <= l < j ==> (#[trigger] caps@[l]).adapter@ != caps@[i as int].adapter@,
        decreases i - j,
    {
        if text_eq(caps[j].adapter.as_str(), caps[i].adapter.as_str()) {
            return false;
        }
        j = j + 1;
    }
    true
}

fn runtime_profile_malformed_at(offer: &ResourceOfferV1, i: usize) -> (r: bool)
    requires
        i < offer.model_runtimes@.len(),
    ensures
        r == runtime_profile_malformed(*offer, i as int),
{
    let runtimes = &offer.model_runtimes;
    let runtime = &runtimes[i];
    if !text_eq(runtime.schema.as_str(), ModelRuntimeOfferV1::SCHEMA) || is_blank(runtime.adapter.as_str())
        || is_blank(runtime.runtime_version.as_str()) || is_blank(runtime.runtime_digest.as_str())
        || is_blank(runtime.compatibility_key.as_str()) || runtime.available_model_bytes == 0
        || runtime.available_model_bytes > runtime_capacity(offer, runtime)
        || !vec_contains_text(&offer.adapters, runtime.adapter.as_str())
        || runtime.installed_models.len() > 128
    {
        return true;
    }
    let mut j: usize = 0;
    while j < i
        invariant
            j <= i,
            i < runtimes@.len(),
            runtimes == &offer.model_runtimes,
            runtime == &runtimes@[i as int],
            forall|l: int| 0 <= l < j ==> !((#[trigger] runtimes@[l]).backend == runtime.backend
                && runtimes@[l].compatibility_key@ == runtime.compatibility_key@),
        decreases i - j,
    {
        if runtimes[j].backend == runtime.backend && text_eq(
            runtimes[j].compatibility_key.as_str(),
            runtime.compatibility_key.as_str(),
        ) {
            return true;
        }
        j = j + 1;
    }
    false
}

fn installed_models_admissible(models: &Vec<InstalledModelV1>) -> (r: bool)
    ensures
        r == forall|k: int| 0 <= k < models@.len() ==> installed_model_admissible(models@, k),
{
    let mut k: usize = 0;
    while k < models.len()
        invariant
            k <= models@.len(),
            forall|m: int| 0 <= m < k ==> installed_model_admissible(models@, m),
        decreases models@.len() - k,
    {
        if !models[k].is_valid() {
            assert(!installed_model_admissible(models@, k as int));
            return false;
        }
        let mut l: usize = 0;
        while l < k
            invariant
                l <= k,
                k < models@.len(),
                forall|m: int| 0 <= m < l ==> (#[trigger] models@[m]).model_id@ != models@[k as int].model_id@,
            decreases k - l,
        {
            if text_eq(models[l].model_id.as_str(), models[k].model_id.as_str()) {
                assert(!installed_model_admissible(models@, k as int));
                return false;
            }
            l = l + 1;
        }
        k = k + 1;
    }
    true
}

fn runtime_status_consistent_at(runtime: &ModelRuntimeOfferV1) -> (r: bool)
    ensures
        r == runtime_status_consistent(*runtime),
{
    proof {
        reveal_strlit("shipped-local:");
    }
    match runtime.status {
        ModelRuntimeStatus::ShippedLocal => runtime.backend == ModelBackend::LocalOllama && text_eq(
            runtime.adapter.as_str(),
            "rampage.ollama.v1",
        ) && crate::text::bytes_starts_with(runtime.runtime_digest.as_str().as_bytes(), "shipped-local:".as_bytes())
            && contains_parallelism(&runtime.supported_parallelism, ModelParallelism::WholeModel)
            && runtime.certification_digest.is_none(),
        ModelRuntimeStatus::Qualified => runtime.installed_models.len() == 0 && runtime.is_qualified_for_distributed(),
        ModelRuntimeStatus::Candidate => runtime.installed_models.len() == 0,
    }
}

/// Checks the workload capabilities and model runtimes that an offer advertises against the
/// offer itself, as `runtime_contracts_verdict` states.
pub fn validate_model_runtime_contracts(offer: &ResourceOfferV1) -> (r: Result<(), String>)
    ensures
        match r {
            Ok(_) => runtime_contracts_verdict(*offer) is Ok,
            Err(m) => runtime_contracts_verdict(*offer) == Err::<(), Seq<char>>(m@),
        },
{
    if offer.workload_capabilities.len() > 64 {
        return Err("offer contains too many workload-capability profiles".to_string());
    }
    let mut i: usize = 0;
    while i < offer.workload_capabilities.len()
        invariant
            i <= offer.workload_capabilities@.len(),
            offer.workload_capabilities@.len() <= 64,
            forall|k: int| 0 <= k < i ==> capability_admissible(*offer, k),
        decreases offer.workload_capabilities@.len() - i,
    {
        if !capability_admissible_at(offer, i) {
            assert(!capability_admissible(*offer, i as int));
            return Err("offer contains a malformed or duplicate workload capability".to_string());
        }
        i = i + 1;
    }
    if offer.model_runtimes.len() > 16 {
        return Err("offer exceeds the 16 model-runtime profile limit".to_string());
    }
    let mut n: usize = 0;
    while n < offer.model_runtimes.len()
        invariant
            n <= offer.model_runtimes@.len(),
            offer.workload_capabilities@.len() <= 64,
            offer.model_runtimes@.len() <= 16,
            forall|k: int| 0 <= k < offer.workload_capabilities@.len() ==> capability_admissible(*offer, k),
            runtime_contracts_verdict(*offer) == runtimes_verdict(*offer, n as nat),
        decreases offer.model_runtimes@.len() - n,
    {
        let runtime = &offer.model_runtimes[n];
        if runtime_profile_malformed_at(offer, n) {
            return Err("offer contains a malformed or contradictory model-runtime profile".to_string());
        }
        if !installed_models_admissible(&runtime.installed_models) {
            return Err("offer contains a malformed or duplicate installed model".to_string());
        }
        if !runtime_status_consistent_at(runtime) {
            return Err(
                "model runtime status, backend, topology, or installed-model authority is inconsistent".to_string(),
            );
        }
        n = n + 1;
    }
    Ok(())
}

/// Whether a signed mesh endpoint is current at `now` and signed by `public_key` over its unsigned
/// JSON.
pub open spec fn endpoint_signed_spec(public_key: Seq<char>, e: MeshEndpointRecordV1, endpoint_json: Seq<u8>, now: i128) -> bool {
    &&& e.schema@ == MeshEndpointRecordV1::SCHEMA@
    &&& e.expires_at > now
    &&& e.issued_at <= now
    &&& signature_valid_spec(public_key, e.signature@, sha256_of(endpoint_json))
}

/// Whether an admitted offer carries a link measurement that the previous offer of its node did
/// not: the ledger records each observation once.
pub open spec fn benchmark_is_new(previous: Option<ResourceOfferV1>, offer: ResourceOfferV1) -> bool {
    match offer.link_benchmark {
        None => false,
        Some(b) => match previous {
            None => true,
            Some(p) => match p.link_benchmark {
                None => true,
                Some(pb) => pb.observed_at != b.observed_at,
            },
        },
    }
}

/// What the controller answers an offer at `now`: whether its link measurement is new, or the
/// HTTP status and message it refuses the offer with. `identity` is the enrolled identity of the
/// offer's node, `previous` the node's last admitted offer, and the JSON texts are those of the
/// offer and of its mesh endpoint with their signatures emptied.
pub open spec fn offer_admission_spec(
    identity: Option<NodeIdentityV1>,
    previous: Option<ResourceOfferV1>,
    offer: ResourceOfferV1,
    offer_json: Seq<u8>,
    endpoint_json: Seq<u8>,
    controller_endpoint_id: Seq<char>,
    now: i128,
) -> Result<bool, (u16, Seq<char>)> {
    if offer.signature@.len() == 0 || offer.expires_at <= now {
        Err((400, "invalid or expired offer"@))
    } else {
        match identity {
            None => Err((401, "node is not enrolled"@)),
            Some(id) => if id.node_id != offer.node_id {
                Err((401, denial_text(Denial::NodeMismatch)))
            } else if !signature_valid_spec(id.public_key@, offer.signature@, sha256_of(offer_json)) {
                Err((401, denial_text(Denial::InvalidSignature)))
            } else if identity_binding_spec(id, offer) is Err {
                Err((401, identity_binding_spec(id, offer)->Err_0))
            } else if runtime_contracts_verdict(offer) is Err {
                Err((400, runtime_contracts_verdict(offer)->Err_0))
            } else if offer.link_benchmark matches Some(b) && !b.valid_for_spec(
                controller_endpoint_id,
                offer.observed_at,
                offer.expires_at,
            ) {
                Err((400, "link benchmark is stale, malformed, or targets another controller"@))
            } else if offer.mesh_endpoint matches Some(e) && e.endpoint_id@ != id.public_key@ {
                Err((401, "worker endpoint and enrolled identity differ"@))
            } else if offer.mesh_endpoint matches Some(e) && !endpoint_signed_spec(id.public_key@, e, endpoint_json, now) {
                Err((401, denial_text(Denial::InvalidSignature)))
            } else if offer.mesh_endpoint matches Some(e) && e.expires_at != offer.expires_at {
                Err((400, "worker endpoint and resource offer expiries differ"@))
            } else {
                Ok(benchmark_is_new(previous, offer))
            },
        }
    }
}

/// Check a resource offer before it is registered, as `offer_admission_spec` states; on success,
/// whether its link measurement is a new observation.
pub fn admit_offer(
    identity: Option<&NodeIdentityV1>,
    previous: Option<&ResourceOfferV1>,
    offer: &ResourceOfferV1,
    offer_json: &[u8],
    endpoint_json: &[u8],
    controller_endpoint_id: &str,
    now: i128,
) -> (r: Result<bool, (u16, String)>)
    ensures
        ({
            let spec = offer_admission_spec(
                match identity { Some(i) => Some(*i), None => None },
                match previous { Some(p) => Some(*p), None => None },
                *offer,
                offer_json@,
                endpoint_json@,
                controller_endpoint_id@,
                now,
            );
            match r {
                Ok(new) => spec == Ok::<bool, (u16, Seq<char>)>(new),
                Err((status, message)) => spec == Err::<bool, (u16, Seq<char>)>((status, message@)),
            }
        }),
{
    if offer.signature.as_str().as_bytes().len() == 0 || offer.expires_at <= now {
        return Err((400, "invalid or expired offer".to_string()));
    }
    let identity = match identity {
        None => return Err((401, "node is not enrolled".to_string())),
        Some(i) => i,
    };
    match verify_offer(identity, offer, offer_json) {
        Err(d) => return Err((401, d.message())),
        Ok(()) => {},
    }
    match validate_offer_identity_binding(identity, offer) {
        Err(m) => return Err((401, m)),
        Ok(()) => {},
    }
    match validate_model_runtime_contracts(offer) {
        Err(m) => return Err((400, m)),
        Ok(()) => {},
    }
    match &offer.link_benchmark {
        Some(b) => {
            if !b.is_valid_for(controller_endpoint_id, offer.observed_at, offer.expires_at) {
                return Err((400, "link benchmark is stale, malformed, or targets another controller".to_string()));
            }
        },
        None => {},
    }
    match &offer.mesh_endpoint {
        Some(e) => {
            if !text_eq(e.endpoint_id.as_str(), identity.public_key.as_str()) {
                return Err((401, "worker endpoint and enrolled identity differ".to_string()));
            }
            match verify_mesh_endpoint_with_key(identity.public_key.as_str(), e, endpoint_json, now) {
                Err(d) => return Err((401, d.message())),
                Ok(()) => {},
            }
            if e.expires_at != offer.expires_at {
                return Err((400, "worker endpoint and resource offer expiries differ".to_string()));
            }
        },
        None => {},
    }
    let new = match &offer.link_benchmark {
        None => false,
        Some(b) => match previous {
            None => true,
            Some(p) => match &p.link_benchmark {
                None => true,
                Some(pb) => pb.observed_at != b.observed_at,
            },
        },
    };
    Ok(new)
}

/// A job handed to a node under a lease, and whether the node has claimed it.
#[derive(Debug, Clone)]
pub struct Assignment {
    pub job: JobSpecV1,
    pub lease: CapabilityLeaseV1,
    pub claimed: bool,
}

/// How an accepted execution receipt is taken.
#[derive(Debug, Clone, Copy, PartialEq, Eq, Structural)]
pub enum ReceiptOutcome {
    /// The receipt completes its assignment.
    Accepted,
    /// The very receipt was already recorded for its job; nothing changes.
    Duplicate,
}

/// Whether an output artifact of a receipt is acceptable: the current schema, encrypted, a
/// `sha256:` address of 64 hexadecimal digits, and within the transfer limit.
pub open spec fn receipt_output_ok(o: ArtifactRefV1) -> bool {
    &&& o.schema@ == ArtifactRefV1::SCHEMA@
    &&& o.encrypted
    &&& has_prefix(utf8(o.digest@), utf8("sha256:"@))
    &&& utf8(o.digest@).len() == 71
    &&& all_hex(utf8(o.digest@).skip(7))
    &&& o.size_bytes <= MAX_ARTIFACT_TRANSFER_BYTES
}

/// Whether a receipt is bound to the current claimed lease of its assignment.
pub open spec fn receipt_bound(receipt: ExecutionReceiptV1, a: Assignment, fencing_epoch: u64) -> bool {
    &&& a.lease.lease_id == receipt.lease_id
    &&& a.lease.node_id == receipt.node_id
    &&& a.claimed
    &&& a.lease.fencing_epoch == fencing_epoch
    &&& a.lease.issued_at <= receipt.started_at
    &&& receipt.started_at <= a.lease.expires_at
}

/// What the controller answers an execution receipt: how it is taken, or the HTTP status and
/// message it is refused with. `completed_job` is the job a receipt with this id already
/// completed, `assignment` the active assignment of the receipt's job, and `receipt_json` the
/// receipt's JSON with its signature emptied.
pub open spec fn receipt_admission_spec(
    receipt: ExecutionReceiptV1,
    identity: Option<NodeIdentityV1>,
    receipt_json: Seq<u8>,
    completed_job: Option<u128>,
    kill_latch: bool,
    assignment: Option<Assignment>,
    fencing_epoch: u64,
) -> Result<ReceiptOutcome, (u16, Seq<char>)> {
    if receipt.schema@ != "rampage.execution-receipt.v1"@ || !(receipt.state == JobState::Succeeded || receipt.state
        == JobState::Failed) || receipt.finished_at < receipt.started_at {
        Err((400, "invalid terminal execution receipt"@))
    } else {
        match identity {
            None => Err((401, "node is not enrolled"@)),
            Some(id) => if id.node_id != receipt.node_id {
                Err((401, denial_text(Denial::NodeMismatch)))
            } else if !signature_valid_spec(id.public_key@, receipt.signature@, sha256_of(receipt_json)) {
                Err((401, denial_text(Denial::InvalidSignature)))
            } else if completed_job == Some(receipt.job_id) {
                Ok(ReceiptOutcome::Duplicate)
            } else if kill_latch {
                Err((423, "owner kill latch is active"@))
            } else {
                match assignment {
                    None => Err((409, "receipt has no active assignment"@)),
                    Some(a) => if !receipt_bound(receipt, a, fencing_epoch) {
                        Err((409, "receipt does not match the current claimed lease authority"@))
                    } else if exists|i: int| 0 <= i < receipt.outputs@.len() && !receipt_output_ok(#[trigger] receipt.outputs@[i]) {
                        Err((400, "receipt contains an invalid output artifact"@))
                    } else {
                        Ok(ReceiptOutcome::Accepted)
                    },
                }
            },
        }
    }
}

#[verifier::loop_isolation(false)]
fn output_acceptable(o: &ArtifactRefV1) -> (r: bool)
    ensures
        r == receipt_output_ok(*o),
{
    proof {
        reveal_strlit("sha256:");
    }
    let bytes = o.digest.as_str().as_bytes();
    if !text_eq(o.schema.as_str(), ArtifactRefV1::SCHEMA) || !o.encrypted || bytes.len() != 71
        || !crate::text::bytes_starts_with(bytes, "sha256:".as_bytes()) || o.size_bytes > MAX_ARTIFACT_TRANSFER_BYTES
    {
        return false;
    }
    let mut i: usize = 7;
    while i < 71
        invariant
            7 <= i <= 71,
            bytes@.len() == 71,
            forall|k: int| 7 <= k < i ==> is_hex_byte(#[trigger] bytes@[k]),
        decreases 71 - i,
    {
        let b = bytes[i];
        if !((48 <= b && b <= 57) || (97 <= b && b <= 102) || (65 <= b && b <= 70)) {
            assert(!is_hex_byte(bytes@.skip(7)[i - 7]));
            return false;
        }
        i = i + 1;
    }
    assert forall|k: int| 0 <= k < bytes@.skip(7).len() implies is_hex_byte(#[trigger] bytes@.skip(7)[k]) by {
        assert(bytes@.skip(7)[k] == bytes@[k + 7]);
    }
    true
}

/// Check an execution receipt before it completes its assignment, as `receipt_admission_spec`
/// states.
#[verifier::loop_isolation(false)]
pub fn admit_receipt(
    receipt: &ExecutionReceiptV1,
    identity: Option<&NodeIdentityV1>,
    receipt_json: &[u8],
    completed_job: Option<u128>,
    kill_latch: bool,
    assignment: Option<&Assignment>,
    fencing_epoch: u64,
) -> (r: Result<ReceiptOutcome, (u16, String)>)
    ensures
        ({
            let spec = receipt_admission_spec(
                *receipt,
                match identity { Some(i) => Some(*i), None => None },
                receipt_json@,
                completed_job,
                kill_latch,
                match assignment { Some(a) => Some(*a), None => None },
                fencing_epoch,
            );
            match r {
                Ok(outcome) => spec == Ok::<ReceiptOutcome, (u16, Seq<char>)>(outcome),
                Err((status, message)) => spec == Err::<ReceiptOutcome, (u16, Seq<char>)>((status, message@)),
            }
        }),
{
    if !text_eq(receipt.schema.as_str(), "rampage.execution-receipt.v1") || !(receipt.state == JobState::Succeeded
        || receipt.state == JobState::Failed) || receipt.finished_at < receipt.started_at
    {
        return Err((400, "invalid terminal execution receipt".to_string()));
    }
    let identity = match identity {
        None => return Err((401, "node is not enrolled".to_string())),
        Some(i) => i,
    };
    match verify_receipt(identity, receipt, receipt_json) {
        Err(d) => return Err((401, d.message())),
        Ok(()) => {},
    }
    if completed_job == Some(receipt.job_id) {
        return Ok(ReceiptOutcome::Duplicate);
    }
    if kill_latch {
        return Err((423, "owner kill latch is active".to_string()));
    }
    let a = match assignment {
        None => return Err((409, "receipt has no active assignment".to_string())),
        Some(a) => a,
    };
    if a.lease.lease_id != receipt.lease_id || a.lease.node_id != receipt.node_id || !a.claimed
        || a.lease.fencing_epoch != fencing_epoch || receipt.started_at < a.lease.issued_at
        || receipt.started_at > a.lease.expires_at
    {
        return Err((409, "receipt does not match the current claimed lease authority".to_string()));
    }
    let mut i: usize = 0;
    while i < receipt.outputs.len()
        invariant
            i <= receipt.outputs@.len(),
            forall|k: int| 0 <= k < i ==> receipt_output_ok(#[trigger] receipt.outputs@[k]),
        decreases receipt.outputs@.len() - i,
    {
        if !output_acceptable(&receipt.outputs[i]) {
            assert(!receipt_output_ok(receipt.outputs@[i as int]));
            return Err((400, "receipt contains an invalid output artifact".to_string()));
        }
        i = i + 1;
    }
    Ok(ReceiptOutcome::Accepted)
}

/// The failure of a worker stream that breaks the model protocol.
pub open spec fn worker_stream_failure(message: Seq<char>) -> (u16, Seq<char>, Seq<char>, Seq<char>) {
    (502, "server_error"@, "invalid_worker_stream"@, message)
}

pub fn invalid_worker_stream(message: &str) -> (r: ModelGatewayFailure)
    ensures
        r.view_spec() == worker_stream_failure(message@),
{
    ModelGatewayFailure { status: 502, kind: "server_error", code: "invalid_worker_stream", message: message.to_string() }
}

/// Whether a model receipt accounts for the invocation it ends: the current schema, the
/// invocation's lease, session, request and node, a terminal state, a finish no earlier than the
/// start, and the content address and byte length of the transcript's output.
pub open spec fn model_receipt_bound(
    lease: ModelSessionLeaseV1,
    request_id: u128,
    receipt: ModelExecutionReceiptV1,
    output: Seq<char>,
) -> bool {
    &&& receipt.schema@ == ModelExecutionReceiptV1::SCHEMA@
    &&& receipt.lease_id == lease.lease_id
    &&& receipt.session_id == lease.session_id
    &&& receipt.request_id == request_id
    &&& receipt.node_id == lease.node_id
    &&& (receipt.state == JobState::Succeeded || receipt.state == JobState::Failed || receipt.state == JobState::Cancelled)
    &&& receipt.finished_at >= receipt.started_at
    &&& receipt.output_digest@ == content_address(utf8(output))
    &&& receipt.output_bytes == utf8(output).len()
}

/// What checking the terminal receipt of a model invocation answers: nothing, or the failure of
/// the worker stream.
pub open spec fn terminal_receipt_spec(
    identity: Option<NodeIdentityV1>,
    lease: ModelSessionLeaseV1,
    request_id: u128,
    receipt: ModelExecutionReceiptV1,
    receipt_json: Seq<u8>,
    output: Seq<char>,
) -> Option<Seq<char>> {
    match identity {
        None => Some("model receipt signer is not enrolled"@),
        Some(id) => if id.node_id != receipt.node_id || !signature_valid_spec(
            id.public_key@,
            receipt.signature@,
            sha256_of(receipt_json),
        ) {
            Some("model receipt signature is invalid"@)
        } else if !model_receipt_bound(lease, request_id, receipt, output) {
            Some("model receipt does not match the invocation transcript"@)
        } else {
            None
        },
    }
}

/// Check the signed receipt that ends a model invocation against the invocation and the output
/// it streamed, as `terminal_receipt_spec` states; a refusal is a worker stream failure.
pub fn verify_terminal_model_receipt(
    identity: Option<&NodeIdentityV1>,
    lease: &ModelSessionLeaseV1,
    request_id: u128,
    receipt: &ModelExecutionReceiptV1,
    receipt_json: &[u8],
    output: &str,
) -> (r: Result<(), ModelGatewayFailure>)
    ensures
        match r {
            Ok(_) => terminal_receipt_spec(
                match identity { Some(i) => Some(*i), None => None },
                *lease,
                request_id,
                *receipt,
                receipt_json@,
                output@,
            ) is None,
            Err(f) => terminal_receipt_spec(
                match identity { Some(i) => Some(*i), None => None },
                *lease,
                request_id,
                *receipt,
                receipt_json@,
                output@,
            ) matches Some(m) && f.view_spec() == worker_stream_failure(m),
        },
{
    let identity = match identity {
        None => return Err(invalid_worker_stream("model receipt signer is not enrolled")),
        Some(i) => i,
    };
    if verify_model_receipt(identity, receipt, receipt_json).is_err() {
        return Err(invalid_worker_stream("model receipt signature is invalid"));
    }
    let bytes = output.as_bytes();
    let digest = sha256_digest(bytes);
    if !text_eq(receipt.schema.as_str(), ModelExecutionReceiptV1::SCHEMA) || receipt.lease_id != lease.lease_id
        || receipt.session_id != lease.session_id || receipt.request_id != request_id
        || receipt.node_id != lease.node_id || !(receipt.state == JobState::Succeeded || receipt.state
        == JobState::Failed || receipt.state == JobState::Cancelled) || receipt.finished_at < receipt.started_at
        || !text_eq(receipt.output_digest.as_str(), digest.as_str()) || receipt.output_bytes as u128 != bytes.len() as u128
    {
        return Err(invalid_worker_stream("model receipt does not match the invocation transcript"));
    }
    Ok(())
}

/// Whether a replica receipt is bound to the exact transfer authority it answers.
pub open spec fn replica_receipt_bound(
    node_id: u128,
    lease: StorageLeaseV1,
    session_id: u128,
    challenge_nonce: Seq<char>,
    receipt: ArtifactReplicaReceiptV1,
) -> bool {
    &&& receipt.session_id == session_id
    &&& receipt.lease_id == lease.lease_id
    &&& receipt.node_id == node_id
    &&& receipt.digest@ == lease.digest@
    &&& receipt.size_bytes == lease.size_bytes
    &&& receipt.storage_class == lease.storage_class
    &&& receipt.challenge_nonce@ == challenge_nonce
    &&& receipt.fencing_epoch == lease.fencing_epoch
}

/// What checking a replica's evidence answers: nothing, or why it is refused.
pub open spec fn replica_evidence_spec(
    identity: Option<NodeIdentityV1>,
    node_id: u128,
    lease: StorageLeaseV1,
    session_id: u128,
    challenge_nonce: Seq<char>,
    receipt: ArtifactReplicaReceiptV1,
    receipt_json: Seq<u8>,
) -> Option<Seq<char>> {
    match identity {
        None => Some("replica node identity is unavailable"@),
        Some(id) => if id.node_id != receipt.node_id {
            Some(denial_text(Denial::NodeMismatch))
        } else if !signature_valid_spec(id.public_key@, receipt.signature@, sha256_of(receipt_json)) {
            Some(denial_text(Denial::InvalidSignature))
        } else if !replica_receipt_bound(node_id, lease, session_id, challenge_nonce, receipt) {
            Some("replica receipt is not bound to the exact transfer authority"@)
        } else {
            None
        },
    }
}

/// Check the signed evidence a node returns for a replica it stored, as `replica_evidence_spec`
/// states.
pub fn verify_replica_evidence(
    identity: Option<&NodeIdentityV1>,
    node_id: u128,
    lease: &StorageLeaseV1,
    session_id: u128,
    challenge_nonce: &str,
    receipt: &ArtifactReplicaReceiptV1,
    receipt_json: &[u8],
) -> (r: Result<(), String>)
    ensures
        ({
            let spec = replica_evidence_spec(
                match identity { Some(i) => Some(*i), None => None },
                node_id,
                *lease,
                session_id,
                challenge_nonce@,
                *receipt,
                receipt_json@,
            );
            match r {
                Ok(_) => spec is None,
                Err(m) => spec == Some(m@),
            }
        }),
{
    let identity = match identity {
        None => return Err("replica node identity is unavailable".to_string()),
        Some(i) => i,
    };
    match verify_artifact_replica_receipt(identity, receipt, receipt_json) {
        Err(d) => return Err(d.message()),
        Ok(()) => {},
    }
    if !(receipt.session_id == session_id && receipt.lease_id == lease.lease_id && receipt.node_id == node_id
        && text_eq(receipt.digest.as_str(), lease.digest.as_str()) && receipt.size_bytes == lease.size_bytes
        && receipt.storage_class == lease.storage_class && text_eq(receipt.challenge_nonce.as_str(), challenge_nonce)
        && receipt.fencing_epoch == lease.fencing_epoch)
    {
        return Err("replica receipt is not bound to the exact transfer authority".to_string());
    }
    Ok(())
}

/// Whether the controller's replica index lists `digest` on `node`.
pub open spec fn replica_listed(replicas: Seq<(String, u128)>, digest: Seq<char>, node: u128) -> bool {
    exists|k: int| 0 <= k < replicas.len() && (#[trigger] replicas[k]).0@ == digest && replicas[k].1 == node
}

/// Whether `digest` counts as local to an offer for a job: an input of the job that the offer's
/// node holds, which a node without a mesh endpoint does for every input, as it shares the
/// controller's store.
pub open spec fn input_local(
    replicas: Seq<(String, u128)>,
    offer: ResourceOfferV1,
    job: JobSpecV1,
    digest: Seq<char>,
) -> bool {
    &&& exists|i: int| 0 <= i < job.inputs@.len() && (#[trigger] job.inputs@[i]).digest@ == digest
    &&& (offer.mesh_endpoint is None || replica_listed(replicas, digest, offer.node_id))
}

fn replica_present(replicas: &Vec<(String, u128)>, digest: &str, node: u128) -> (r: bool)
    ensures
        r == replica_listed(replicas@, digest@, node),
{
    let mut i: usize = 0;
    while i < replicas.len()
        invariant
            i <= replicas@.len(),
            forall|k: int| 0 <= k < i ==> !((#[trigger] replicas@[k]).0@ == digest@ && replicas@[k].1 == node),
        decreases replicas@.len() - i,
    {
        if replicas[i].1 == node && text_eq(replicas[i].0.as_str(), digest) {
            assert(replicas@[i as int].0@ == digest@ && replicas@[i as int].1 == node);
            return true;
        }
        i = i + 1;
    }
    false
}

/// The input digests local to one offer for a job, once each.
#[verifier::loop_isolation(false)]
pub fn local_inputs(replicas: &Vec<(String, u128)>, offer: &ResourceOfferV1, job: &JobSpecV1) -> (r: Vec<String>)
    ensures
        forall|d: Seq<char>| contains_text(r@, d) <==> input_local(replicas@, *offer, *job, d),
        forall|a: int, b: int| 0 <= a < b < r@.len() ==> (#[trigger] r@[a])@ != (#[trigger] r@[b])@,
{
    let mut out: Vec<String> = Vec::new();
    let mut i: usize = 0;
    while i < job.inputs.len()
        invariant
            i <= job.inputs@.len(),
            forall|d: Seq<char>| contains_text(out@, d) <==> (exists|k: int| 0 <= k < i && (#[trigger] job.inputs@[k]).digest@ == d
                && (offer.mesh_endpoint is None || replica_listed(replicas@, d, offer.node_id))),
            forall|a: int, b: int| 0 <= a < b < out@.len() ==> (#[trigger] out@[a])@ != (#[trigger] out@[b])@,
        decreases job.inputs@.len() - i,
    {
        let digest = &job.inputs[i].digest;
        let keep = offer.mesh_endpoint.is_none() || replica_present(replicas, digest.as_str(), offer.node_id);
        let ghost before = out@;
        if keep && !vec_contains_text(&out, digest.as_str()) {
            out.push(digest.clone());
            proof {
                assert forall|d: Seq<char>| contains_text(out@, d) <==> (contains_text(before, d) || d == digest@) by {
                    if contains_text(out@, d) {
                        let w = choose|w: int| 0 <= w < out@.len() && out@[w]@ == d;
                        if w < before.len() {
                            assert(before[w] == out@[w]);
                        }
                    }
                    if contains_text(before, d) {
                        let w = choose|w: int| 0 <= w < before.len() && before[w]@ == d;
                        assert(out@[w] == before[w]);
                    }
                    if d == digest@ {
                        assert(out@[before.len() as int]@ == d);
                    }
                }
            }
        }
        proof {
            assert(keep ==> contains_text(out@, digest@));
            assert(forall|d: Seq<char>| contains_text(out@, d) <==> (contains_text(before, d) || (keep && d == digest@)));
            assert forall|d: Seq<char>| contains_text(out@, d) <==> (exists|k: int| 0 <= k < i + 1 && (#[trigger] job.inputs@[k]).digest@ == d
                && (offer.mesh_endpoint is None || replica_listed(replicas@, d, offer.node_id))) by {
                let cond = offer.mesh_endpoint is None || replica_listed(replicas@, d, offer.node_id);
                assert(job.inputs@[i as int].digest == *digest);
                if exists|k: int| 0 <= k < i + 1 && (#[trigger] job.inputs@[k]).digest@ == d && cond {
                    let k = choose|k: int| 0 <= k < i + 1 && (#[trigger] job.inputs@[k]).digest@ == d && cond;
                    if k < i {
                        assert(contains_text(before, d));
                    } else {
                        assert(d == digest@ && keep);
                    }
                }
                if contains_text(out@, d) {
                    if contains_text(before, d) {
                        let k = choose|k: int| 0 <= k < i && (#[trigger] job.inputs@[k]).digest@ == d && cond;
                        assert(0 <= k < i + 1);
                    } else {
                        assert(job.inputs@[i as int].digest@ == d);
                    }
                }
            }
        }
        i = i + 1;
    }
    out
}

/// The inputs local to each offer's node for a job, offer by offer.
pub fn input_locality(replicas: &Vec<(String, u128)>, offers: &Vec<ResourceOfferV1>, job: &JobSpecV1) -> (r: Vec<(u128, Vec<String>)>)
    ensures
        r@.len() == offers@.len(),
        forall|i: int| 0 <= i < r@.len() ==> (#[trigger] r@[i]).0 == offers@[i].node_id,
        forall|i: int, d: Seq<char>|
            #![trigger contains_text(r@[i].1@, d)]
            #![trigger input_local(replicas@, offers@[i], *job, d)]
            0 <= i < r@.len() ==> (contains_text(r@[i].1@, d) <==> input_local(replicas@, offers@[i], *job, d)),
{
    let mut out: Vec<(u128, Vec<String>)> = Vec::new();
    let mut i: usize = 0;
    while i < offers.len()
        invariant
            i <= offers@.len(),
            out@.len() == i,
            forall|k: int| 0 <= k < i ==> (#[trigger] out@[k]).0 == offers@[k].node_id,
            forall|k: int, d: Seq<char>|
                #![trigger contains_text(out@[k].1@, d)]
                #![trigger input_local(replicas@, offers@[k], *job, d)]
                0 <= k < i ==> (contains_text(out@[k].1@, d) <==> input_local(replicas@, offers@[k], *job, d)),
        decreases offers@.len() - i,
    {
        let locals = local_inputs(replicas, &offers[i], job);
        out.push((offers[i].node_id, locals));
        i = i + 1;
    }
    out
}

/// The inputs local to each offer's node for each shard of a set, keyed by job and node: shard
/// by shard, and offer by offer within a shard.
#[verifier::loop_isolation(false)]
pub fn shard_input_locality(
    replicas: &Vec<(String, u128)>,
    offers: &Vec<ResourceOfferV1>,
    set: &ShardSetV1,
) -> (r: Vec<((u128, u128), Vec<String>)>)
    requires
        set.shards@.len() * offers@.len() <= usize::MAX,
    ensures
        r@.len() == set.shards@.len() * offers@.len(),
        forall|s: int, o: int|
            #![trigger r@[s * offers@.len() + o]]
            0 <= s < set.shards@.len() && 0 <= o < offers@.len() ==> r@[s * offers@.len() + o].0 == (
                set.shards@[s].job_id,
                offers@[o].node_id,
            ),
        forall|s: int, o: int, d: Seq<char>|
            #![trigger contains_text(r@[s * offers@.len() + o].1@, d)]
            0 <= s < set.shards@.len() && 0 <= o < offers@.len() ==> (contains_text(r@[s * offers@.len() + o].1@, d)
                <==> input_local(replicas@, offers@[o], set.shards@[s], d)),
{
    let n = offers.len();
    let mut out: Vec<((u128, u128), Vec<String>)> = Vec::new();
    let mut s: usize = 0;
    while s < set.shards.len()
        invariant
            s <= set.shards@.len(),
            n == offers@.len(),
            set.shards@.len() * n <= usize::MAX,
            out@.len() == s * n,
            forall|a: int, o: int|
                #![trigger out@[a * n + o]]
                0 <= a < s && 0 <= o < n ==> out@[a * n + o].0 == (set.shards@[a].job_id, offers@[o].node_id),
            forall|a: int, o: int, d: Seq<char>|
                #![trigger contains_text(out@[a * n + o].1@, d)]
                0 <= a < s && 0 <= o < n ==> (contains_text(out@[a * n + o].1@, d) <==> input_local(
                    replicas@,
                    offers@[o],
                    set.shards@[a],
                    d,
                )),
        decreases set.shards@.len() - s,
    {
        proof {
            assert((s + 1) * n <= set.shards@.len() * n) by (nonlinear_arith)
                requires
                    s + 1 <= set.shards@.len(),
            ;
            assert((s + 1) * n == s * n + n) by (nonlinear_arith);
        }
        let job = &set.shards[s];
        let mut locality = input_locality(replicas, offers, job);
        let ghost all = locality@;
        let ghost before = out@;
        let mut o: usize = 0;
        assert(locality@ =~= all.skip(0));
        while o < n
            invariant
                o <= n,
                all.len() == n,
                locality@ == all.skip(o as int),
                forall|i: int| 0 <= i < all.len() ==> (#[trigger] all[i]).0 == offers@[i].node_id,
                forall|i: int, d: Seq<char>|
                    #![trigger contains_text(all[i].1@, d)]
                    0 <= i < all.len() ==> (contains_text(all[i].1@, d) <==> input_local(replicas@, offers@[i], *job, d)),
                out@.len() == s * n + o,
                (s + 1) * n <= usize::MAX,
                (s + 1) * n == s * n + n,
                forall|k: int| 0 <= k < s * n ==> out@[k] == before[k],
                forall|k: int| 0 <= k < o ==> (#[trigger] out@[s * n + k]).0 == (job.job_id, offers@[k].node_id),
                forall|k: int, d: Seq<char>|
                    #![trigger contains_text(out@[s * n + k].1@, d)]
                    0 <= k < o ==> (contains_text(out@[s * n + k].1@, d) <==> input_local(replicas@, offers@[k], *job, d)),
            decreases n - o,
        {
            let (node, locals) = locality.remove(0);
            proof {
                assert(all[o as int] == (node, locals));
                assert(locality@ =~= all.skip(o + 1));
            }
            out.push(((job.job_id, node), locals));
            o = o + 1;
        }
        proof {
            assert forall|a: int, k: int|
                #![trigger out@[a * n + k]]
                0 <= a < s + 1 && 0 <= k < n implies out@[a * n + k].0 == (set.shards@[a].job_id, offers@[k].node_id) by {
                if a < s {
                    assert(a * n + k < s * n) by (nonlinear_arith)
                        requires
                            a < s,
                            k < n,
                    ;
                    assert(out@[a * n + k] == before[a * n + k]);
                } else {
                    assert(a * n + k == s * n + k);
                }
            }
            assert forall|a: int, k: int, d: Seq<char>|
                #![trigger contains_text(out@[a * n + k].1@, d)]
                0 <= a < s + 1 && 0 <= k < n implies (contains_text(out@[a * n + k].1@, d) <==> input_local(
                    replicas@,
                    offers@[k],
                    set.shards@[a],
                    d,
                )) by {
                if a < s {
                    assert(a * n + k < s * n) by (nonlinear_arith)
                        requires
                            a < s,
                            k < n,
                    ;
                    assert(out@[a * n + k] == before[a * n + k]);
                } else {
                    assert(a * n + k == s * n + k);
                }
            }
        }
        s = s + 1;
    }
    out
}

} // verus!
